//! Rendering of a run's standard output: per-input prefix blocks, the
//! `==> name <==` header labels printed when several inputs are given, and
//! the assembly of the whole run from the inputs that could be opened.

use vstd::prelude::*;
use vstd::string::StrSliceExecFns;
use vstd::string::StringExecFns;
use vstd::utf8::encode_utf8;
use vstd::utf8::is_ascii_chars;
use vstd::utf8::is_ascii_chars_encode_utf8;

use crate::args::Args;
use crate::prefix::NEWLINE;
use crate::prefix::byte_prefix;
use crate::prefix::line_prefix;
use crate::prefix::spec_byte_prefix;
use crate::prefix::spec_line_prefix;

verus! {

/// The text that `String::from_utf8_lossy` renders the given bytes as.
pub uninterp spec fn lossy_decode(bytes: Seq<u8>) -> Seq<char>;

/// Relies on `String::from_utf8_lossy`: it renders bytes as text, substituting
/// a replacement character for malformed encoding sequences; the result
/// depends on the bytes alone, and bytes below 128 are valid one-character
/// encodings, so a sequence of them comes through unchanged.
#[verifier::external_body]
fn lossy_string(bytes: &Vec<u8>) -> (r: String)
    ensures
        r@ == lossy_decode(bytes@),
        (forall|i: int| 0 <= i < bytes@.len() ==> bytes@[i] < 128) ==> encode_utf8(r@) == bytes@,
{
    String::from_utf8_lossy(bytes.as_slice()).into_owned()
}

/// The bytes that printing the lossy rendering of `s` writes.
pub open spec fn spec_lossy_bytes(s: Seq<u8>) -> Seq<u8> {
    encode_utf8(lossy_decode(s))
}

/// Byte-mode output: the lossy text rendering of the first `n` bytes, written
/// back out as bytes. On all-ASCII input the rendering changes nothing, so the
/// output is byte-for-byte the first `n` bytes, or the whole shorter input.
pub fn byte_mode_output(data: &Vec<u8>, n: usize) -> (r: Vec<u8>)
    ensures
        r@ == spec_lossy_bytes(spec_byte_prefix(data@, n as nat)),
        (forall|i: int| 0 <= i < data@.len() ==> data@[i] < 128) ==> r@ == spec_byte_prefix(
            data@,
            n as nat,
        ),
{
    let p = byte_prefix(data, n);
    let s = lossy_string(&p);
    let r = s.as_str().as_bytes_vec();
    proof {
        if forall|i: int| 0 <= i < data@.len() ==> data@[i] < 128 {
            assert(forall|i: int| 0 <= i < p@.len() ==> p@[i] < 128);
        }
    }
    r
}

/// The header label for input `name` in position `idx`: `==> name <==` on a
/// line of its own, preceded by a blank line for every input after the first.
pub open spec fn spec_header(name: Seq<char>, idx: int) -> Seq<char> {
    (if idx > 0 {
        "\n"@
    } else {
        Seq::<char>::empty()
    }) + "==> "@ + name + " <==\n"@
}

/// Renders the header label printed before input `name` in position
/// `file_num`, exactly as [`spec_header`] says.
pub fn header_line(name: &str, file_num: usize) -> (r: String)
    ensures
        r@ == spec_header(name@, file_num as int),
{
    let mut h = if file_num > 0 {
        String::from_str("\n")
    } else {
        String::new()
    };
    h.append("==> ");
    h.append(name);
    h.append(" <==\n");
    proof {
        assert(h@ =~= spec_header(name@, file_num as int));
    }
    h
}

/// What one opened input contributes to standard output under the resolved
/// limits: the first `lines` lines, or, when a byte limit was supplied, the
/// lossy rendering of its first `bytes` bytes.
pub open spec fn spec_limit_output(c: Seq<u8>, lines: usize, bytes: Option<usize>) -> Seq<u8> {
    match bytes {
        Some(b) => spec_lossy_bytes(spec_byte_prefix(c, b as nat)),
        None => spec_line_prefix(c, lines as nat),
    }
}

/// Renders the prefix of one opened input, exactly as [`spec_limit_output`]
/// says.
pub fn limit_output(data: &Vec<u8>, lines: usize, bytes: Option<usize>) -> (r: Vec<u8>)
    ensures
        r@ == spec_limit_output(data@, lines, bytes),
{
    match bytes {
        Some(b) => byte_mode_output(data, b),
        None => line_prefix(data, lines),
    }
}

/// What input `idx` of `total` contributes to standard output: nothing when
/// it could not be opened, and otherwise its prefix, preceded by its header
/// label when the run names more than one input.
pub open spec fn spec_block(
    name: Seq<char>,
    idx: int,
    total: int,
    content: Option<Seq<u8>>,
    lines: usize,
    bytes: Option<usize>,
) -> Seq<u8> {
    match content {
        None => Seq::<u8>::empty(),
        Some(c) => (if total > 1 {
            encode_utf8(spec_header(name, idx))
        } else {
            Seq::<u8>::empty()
        }) + spec_limit_output(c, lines, bytes),
    }
}

/// Renders what one input contributes to standard output, exactly as
/// [`spec_block`] says; `content` is `None` for an input that failed to open.
pub fn input_block(
    name: &str,
    idx: usize,
    total: usize,
    content: &Option<Vec<u8>>,
    lines: usize,
    bytes: Option<usize>,
) -> (r: Vec<u8>)
    ensures
        r@ == spec_block(name@, idx as int, total as int, content.deep_view(), lines, bytes),
{
    match content {
        None => {
            let r: Vec<u8> = Vec::new();
            r
        },
        Some(c) => {
            let mut out: Vec<u8> = if total > 1 {
                let h = header_line(name, idx);
                h.as_str().as_bytes_vec()
            } else {
                Vec::new()
            };
            let mut body = limit_output(c, lines, bytes);
            proof {
                assert(c.deep_view() =~= c@);
            }
            out.append(&mut body);
            proof {
                assert(out@ =~= spec_block(
                    name@,
                    idx as int,
                    total as int,
                    content.deep_view(),
                    lines,
                    bytes,
                ));
            }
            out
        },
    }
}

/// What the run writes to standard output from input `i` on: each input's
/// block in order, each header carrying the input's own position.
pub open spec fn spec_run_output_from(
    names: Seq<Seq<char>>,
    contents: Seq<Option<Seq<u8>>>,
    lines: usize,
    bytes: Option<usize>,
    i: int,
) -> Seq<u8>
    decreases names.len() - i,
{
    if i < 0 || i >= names.len() || names.len() != contents.len() {
        Seq::<u8>::empty()
    } else {
        spec_block(names[i], i, names.len() as int, contents[i], lines, bytes)
            + spec_run_output_from(names, contents, lines, bytes, i + 1)
    }
}

/// Everything the run writes to standard output, given for each input either
/// its bytes or, for one that failed to open, nothing.
pub open spec fn spec_run_output(
    names: Seq<Seq<char>>,
    contents: Seq<Option<Seq<u8>>>,
    lines: usize,
    bytes: Option<usize>,
) -> Seq<u8> {
    spec_run_output_from(names, contents, lines, bytes, 0)
}

/// Renders the whole run's standard output, exactly as [`spec_run_output`]
/// says: `contents` holds, for each input of the configuration in order, its
/// bytes, or `None` for an input that failed to open.
pub fn run_stdout(args: &Args, contents: &Vec<Option<Vec<u8>>>) -> (r: Vec<u8>)
    requires
        args.files@.len() == contents@.len(),
    ensures
        r@ == spec_run_output(args.files.deep_view(), contents.deep_view(), args.lines, args.bytes),
{
    let ghost nv = args.files.deep_view();
    let ghost cv = contents.deep_view();
    let total = args.files.len();
    let mut out: Vec<u8> = Vec::new();
    let mut i: usize = 0;
    while i < total
        invariant
            i <= total,
            total == args.files@.len(),
            args.files@.len() == contents@.len(),
            nv == args.files.deep_view(),
            cv == contents.deep_view(),
            out@ + spec_run_output_from(nv, cv, args.lines, args.bytes, i as int)
                == spec_run_output(nv, cv, args.lines, args.bytes),
        decreases total - i,
    {
        let name = &args.files[i];
        let mut b = input_block(name.as_str(), i, total, &contents[i], args.lines, args.bytes);
        proof {
            assert(nv[i as int] == name@);
            assert(cv[i as int] == contents@[i as int].deep_view());
        }
        out.append(&mut b);
        proof {
            assert(out@ + spec_run_output_from(nv, cv, args.lines, args.bytes, i + 1) =~= out@
                + spec_run_output_from(nv, cv, args.lines, args.bytes, i + 1));
        }
        i = i + 1;
    }
    out
}

proof fn lemma_encode_utf8_concat(a: Seq<char>, b: Seq<char>)
    ensures
        encode_utf8(a + b) == encode_utf8(a) + encode_utf8(b),
    decreases a.len(),
{
    if a.len() == 0 {
        assert(a + b =~= b);
        assert(encode_utf8(a) + encode_utf8(b) =~= encode_utf8(b));
    } else {
        assert((a + b).drop_first() =~= a.drop_first() + b);
        assert((a + b)[0] == a[0]);
        lemma_encode_utf8_concat(a.drop_first(), b);
        assert(encode_utf8(a + b) =~= encode_utf8(a) + encode_utf8(b));
    }
}

/// Law: a run over exactly one input prints no header label at all: its
/// output is exactly the one input's prefix rendering, or nothing when that
/// input failed to open.
pub proof fn lemma_single_input_no_header(
    name: Seq<char>,
    content: Option<Seq<u8>>,
    lines: usize,
    bytes: Option<usize>,
)
    ensures
        spec_run_output(seq![name], seq![content], lines, bytes) == match content {
            Some(c) => spec_limit_output(c, lines, bytes),
            None => Seq::<u8>::empty(),
        },
{
    let names = seq![name];
    let contents = seq![content];
    assert(spec_run_output_from(names, contents, lines, bytes, 1) =~= Seq::<u8>::empty());
    match content {
        Some(c) => {
            assert(spec_block(name, 0, 1, content, lines, bytes) =~= spec_limit_output(
                c,
                lines,
                bytes,
            ));
            assert(spec_run_output(names, contents, lines, bytes) =~= spec_limit_output(
                c,
                lines,
                bytes,
            ));
        },
        None => {
            assert(spec_run_output(names, contents, lines, bytes) =~= Seq::<u8>::empty());
        },
    }
}

/// Law: with several inputs, each opened input after the first is set off by
/// exactly one blank line: its block is one line feed followed by the block
/// it would get in first position.
pub proof fn lemma_blank_line_before_later_blocks(
    name: Seq<char>,
    idx: int,
    total: int,
    c: Seq<u8>,
    lines: usize,
    bytes: Option<usize>,
)
    requires
        total > 1,
        idx > 0,
    ensures
        spec_block(name, idx, total, Some(c), lines, bytes) == seq![NEWLINE] + spec_block(
            name,
            0,
            total,
            Some(c),
            lines,
            bytes,
        ),
{
    reveal_strlit("\n");
    assert(spec_header(name, idx) =~= "\n"@ + spec_header(name, 0));
    lemma_encode_utf8_concat("\n"@, spec_header(name, 0));
    assert(is_ascii_chars("\n"@));
    is_ascii_chars_encode_utf8("\n"@);
    assert(encode_utf8("\n"@) =~= seq![NEWLINE]);
    assert(spec_block(name, idx, total, Some(c), lines, bytes) =~= seq![NEWLINE] + spec_block(
        name,
        0,
        total,
        Some(c),
        lines,
        bytes,
    ));
}

/// Law: no blank line precedes the first input's header: with several inputs,
/// an opened input in first position starts its block with the header's
/// opening `=` byte.
pub proof fn lemma_first_block_unindented(
    name: Seq<char>,
    total: int,
    c: Seq<u8>,
    lines: usize,
    bytes: Option<usize>,
)
    requires
        total > 1,
    ensures
        spec_block(name, 0, total, Some(c), lines, bytes).len() > 0,
        spec_block(name, 0, total, Some(c), lines, bytes)[0] == 61,
{
    reveal_strlit("==> ");
    assert(spec_header(name, 0) =~= "==> "@ + (name + " <==\n"@));
    lemma_encode_utf8_concat("==> "@, name + " <==\n"@);
    assert(is_ascii_chars("==> "@));
    is_ascii_chars_encode_utf8("==> "@);
    assert(encode_utf8("==> "@)[0] == 61);
}

/// Law: an input that failed to open contributes nothing to standard output,
/// and the inputs after it are rendered exactly as they would have been: the
/// run does not stop at it.
pub proof fn lemma_failed_input_skipped(
    names: Seq<Seq<char>>,
    contents: Seq<Option<Seq<u8>>>,
    lines: usize,
    bytes: Option<usize>,
    i: int,
)
    requires
        names.len() == contents.len(),
        0 <= i < names.len(),
        contents[i] is None,
    ensures
        spec_run_output_from(names, contents, lines, bytes, i) == spec_run_output_from(
            names,
            contents,
            lines,
            bytes,
            i + 1,
        ),
{
    assert(spec_run_output_from(names, contents, lines, bytes, i) =~= spec_run_output_from(
        names,
        contents,
        lines,
        bytes,
        i + 1,
    ));
}

} // verus!
