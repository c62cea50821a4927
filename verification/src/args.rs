//! Resolves a command-line argument list into a run configuration.
//!
//! The grammar: positional arguments name the inputs (default: the single
//! sentinel `-`, standard input); `-n`/`--lines` takes a line count (default
//! 10); `-b`/`--bytes` takes a byte count; the two limits are mutually
//! exclusive; any other argument starting with `-` is an unrecognized flag.

use vstd::prelude::*;
use vstd::string::StrSliceExecFns;
use vstd::string::StringExecFns;

verus! {

/// A resolved run configuration: the inputs in order, the line limit, and the
/// optional byte limit that, when present, takes the line limit's place.
#[derive(Debug)]
pub struct Args {
    /// Input names, in the order given; `-` names standard input.
    pub files: Vec<String>,
    /// Number of lines to print when no byte limit was given.
    pub lines: usize,
    /// Number of bytes to print, in place of the line limit.
    pub bytes: Option<usize>,
}

/// The mathematical shadow of [`Args`].
pub struct ArgsView {
    pub files: Seq<Seq<char>>,
    pub lines: usize,
    pub bytes: Option<usize>,
}

impl View for Args {
    type V = ArgsView;

    open spec fn view(&self) -> ArgsView {
        ArgsView { files: self.files.deep_view(), lines: self.lines, bytes: self.bytes }
    }
}

/// A rejected argument list, reported before any input is touched.
#[derive(Debug)]
pub enum UsageError {
    /// An argument started with `-` but is no known flag.
    UnknownFlag(String),
    /// A limit flag stood last, with no value after it.
    MissingValue(String),
    /// The value after a limit flag is not an unsigned integer.
    InvalidCount(String),
    /// Both a line limit and a byte limit were supplied.
    ConflictingLimits,
}

/// The mathematical shadow of [`UsageError`].
pub enum UsageErrorView {
    UnknownFlag(Seq<char>),
    MissingValue(Seq<char>),
    InvalidCount(Seq<char>),
    ConflictingLimits,
}

impl View for UsageError {
    type V = UsageErrorView;

    open spec fn view(&self) -> UsageErrorView {
        match self {
            UsageError::UnknownFlag(s) => UsageErrorView::UnknownFlag(s@),
            UsageError::MissingValue(s) => UsageErrorView::MissingValue(s@),
            UsageError::InvalidCount(s) => UsageErrorView::InvalidCount(s@),
            UsageError::ConflictingLimits => UsageErrorView::ConflictingLimits,
        }
    }
}

/// A decimal digit.
pub open spec fn is_digit(c: char) -> bool {
    48 <= c as u32 <= 57
}

/// The number written by `s` read as decimal digits, most significant first.
pub open spec fn digits_val(s: Seq<char>) -> int
    decreases s.len(),
{
    if s.len() == 0 {
        0
    } else {
        digits_val(s.drop_last()) * 10 + (s.last() as u32 - 48)
    }
}

/// What parsing an unsigned count from `s` yields: the written number when `s`
/// is a non-empty run of digits whose value fits, and nothing otherwise.
pub open spec fn spec_parse_usize(s: Seq<char>) -> Option<usize> {
    if s.len() > 0 && (forall|k: int| 0 <= k < s.len() ==> is_digit(s[k])) && digits_val(s)
        <= usize::MAX {
        Some(digits_val(s) as usize)
    } else {
        None
    }
}

proof fn lemma_digits_val_nonneg(s: Seq<char>)
    requires
        forall|k: int| 0 <= k < s.len() ==> is_digit(s[k]),
    ensures
        digits_val(s) >= 0,
    decreases s.len(),
{
    if s.len() > 0 {
        assert(forall|k: int| 0 <= k < s.len() - 1 ==> is_digit(s.drop_last()[k]));
        lemma_digits_val_nonneg(s.drop_last());
    }
}

proof fn lemma_digits_monotone(s: Seq<char>, j: int)
    requires
        0 <= j <= s.len(),
        forall|k: int| 0 <= k < s.len() ==> is_digit(s[k]),
    ensures
        digits_val(s.take(j)) <= digits_val(s),
    decreases s.len() - j,
{
    if j == s.len() {
        assert(s.take(j) =~= s);
    } else {
        let t = s.take(j + 1);
        assert(t.drop_last() =~= s.take(j));
        assert(forall|k: int| 0 <= k < j ==> is_digit(s.take(j)[k]));
        lemma_digits_val_nonneg(s.take(j));
        assert(digits_val(t) == digits_val(s.take(j)) * 10 + (s[j] as u32 - 48));
        lemma_digits_monotone(s, j + 1);
    }
}

/// Parses an unsigned decimal count, exactly as [`spec_parse_usize`] says.
pub fn parse_usize(s: &str) -> (r: Option<usize>)
    ensures
        r == spec_parse_usize(s@),
{
    let n = s.unicode_len();
    if n == 0 {
        return None;
    }
    let mut acc: usize = 0;
    let mut i: usize = 0;
    while i < n
        invariant
            i <= n,
            n == s@.len(),
            forall|k: int| 0 <= k < i ==> is_digit(s@[k]),
            acc == digits_val(s@.take(i as int)),
        decreases n - i,
    {
        let c = s.get_char(i);
        let d = c as u32;
        if d < 48 || d > 57 {
            return None;
        }
        let dv: usize = (d - 48) as usize;
        proof {
            let t = s@.take(i + 1);
            assert(t.drop_last() =~= s@.take(i as int));
            assert(digits_val(t) == acc * 10 + dv);
        }
        let next = match acc.checked_mul(10) {
            Some(m) => m.checked_add(dv),
            None => None,
        };
        match next {
            Some(v) => {
                acc = v;
            },
            None => {
                proof {
                    assert(digits_val(s@.take(i + 1)) > usize::MAX);
                    if forall|k: int| 0 <= k < s@.len() ==> is_digit(s@[k]) {
                        lemma_digits_monotone(s@, i + 1);
                    }
                }
                return None;
            },
        }
        i = i + 1;
    }
    proof {
        assert(s@.take(n as int) =~= s@);
    }
    Some(acc)
}

/// A token that selects the line limit.
pub open spec fn is_lines_flag(a: Seq<char>) -> bool {
    a == "-n"@ || a == "--lines"@
}

/// A token that selects the byte limit.
pub open spec fn is_bytes_flag(a: Seq<char>) -> bool {
    a == "-b"@ || a == "--bytes"@
}

/// A token in flag position: it starts with `-` and is not the bare sentinel.
pub open spec fn is_flag(a: Seq<char>) -> bool {
    a.len() >= 2 && a[0] == '-'
}

/// Equality of two string slices, by their character sequences.
fn str_eq(a: &str, b: &str) -> (r: bool)
    ensures
        r == (a@ == b@),
{
    let sa = String::from_str(a);
    let sb = String::from_str(b);
    sa == sb
}

/// What resolving the remaining tokens yields, given the inputs and limits
/// gathered so far. Limits are `Some` once their flag was seen; at the end a
/// missing line limit falls back to 10, a missing input list to the sentinel.
pub open spec fn spec_resolve_rec(
    rest: Seq<Seq<char>>,
    files: Seq<Seq<char>>,
    lines: Option<usize>,
    bytes: Option<usize>,
) -> Result<ArgsView, UsageErrorView>
    decreases rest.len(),
{
    if rest.len() == 0 {
        if lines is Some && bytes is Some {
            Err(UsageErrorView::ConflictingLimits)
        } else {
            Ok(
                (ArgsView {
                    files: if files.len() == 0 {
                        seq!["-"@]
                    } else {
                        files
                    },
                    lines: match lines {
                        Some(l) => l,
                        None => 10,
                    },
                    bytes,
                }),
            )
        }
    } else {
        let a = rest[0];
        if is_lines_flag(a) {
            if rest.len() == 1 {
                Err(UsageErrorView::MissingValue(a))
            } else {
                match spec_parse_usize(rest[1]) {
                    None => Err(UsageErrorView::InvalidCount(rest[1])),
                    Some(v) => spec_resolve_rec(rest.skip(2), files, Some(v), bytes),
                }
            }
        } else if is_bytes_flag(a) {
            if rest.len() == 1 {
                Err(UsageErrorView::MissingValue(a))
            } else {
                match spec_parse_usize(rest[1]) {
                    None => Err(UsageErrorView::InvalidCount(rest[1])),
                    Some(v) => spec_resolve_rec(rest.skip(2), files, lines, Some(v)),
                }
            }
        } else if is_flag(a) {
            Err(UsageErrorView::UnknownFlag(a))
        } else {
            spec_resolve_rec(rest.skip(1), files.push(a), lines, bytes)
        }
    }
}

/// What resolving an argument list (without the program name) yields.
pub open spec fn spec_resolve(args: Seq<Seq<char>>) -> Result<ArgsView, UsageErrorView> {
    spec_resolve_rec(args, Seq::empty(), None, None)
}

/// Resolves the argument list after the program name into a configuration,
/// exactly as [`spec_resolve`] says.
pub fn resolve_args(argv: &Vec<String>) -> (r: Result<Args, UsageError>)
    ensures
        match (r, spec_resolve(argv.deep_view())) {
            (Ok(a), Ok(v)) => a@ == v,
            (Err(e), Err(ev)) => e@ == ev,
            _ => false,
        },
{
    let ghost all: Seq<Seq<char>> = argv.deep_view();
    let mut files: Vec<String> = Vec::new();
    let mut lines: Option<usize> = None;
    let mut bytes: Option<usize> = None;
    let mut i: usize = 0;
    proof {
        assert(all.skip(0) =~= all);
        assert(files.deep_view() =~= Seq::<Seq<char>>::empty());
    }
    while i < argv.len()
        invariant
            i <= argv.len(),
            all == argv.deep_view(),
            spec_resolve(all) == spec_resolve_rec(
                all.skip(i as int),
                files.deep_view(),
                lines,
                bytes,
            ),
        decreases argv.len() - i,
    {
        let a: &String = &argv[i];
        proof {
            assert(all.skip(i as int)[0] == a@);
        }
        let lines_flag = str_eq(a.as_str(), "-n") || str_eq(a.as_str(), "--lines");
        let bytes_flag = !lines_flag && (str_eq(a.as_str(), "-b") || str_eq(a.as_str(), "--bytes"));
        if lines_flag || bytes_flag {
            if i + 1 >= argv.len() {
                return Err(UsageError::MissingValue(a.clone()));
            }
            let val: &String = &argv[i + 1];
            proof {
                assert(all.skip(i as int)[1] == val@);
            }
            match parse_usize(val.as_str()) {
                None => {
                    return Err(UsageError::InvalidCount(val.clone()));
                },
                Some(v) => {
                    if lines_flag {
                        lines = Some(v);
                    } else {
                        bytes = Some(v);
                    }
                    proof {
                        assert(all.skip(i as int).skip(2) =~= all.skip(i + 2));
                    }
                    i = i + 2;
                },
            }
        } else {
            let flagish = a.as_str().unicode_len() >= 2 && a.as_str().get_char(0) == '-';
            if flagish {
                return Err(UsageError::UnknownFlag(a.clone()));
            }
            let ghost fdv = files.deep_view();
            files.push(a.clone());
            proof {
                assert(files.deep_view() =~= fdv.push(a@));
                assert(all.skip(i as int).skip(1) =~= all.skip(i + 1));
            }
            i = i + 1;
        }
    }
    proof {
        assert(all.skip(i as int).len() == 0);
    }
    if lines.is_some() && bytes.is_some() {
        return Err(UsageError::ConflictingLimits);
    }
    let out_files = if files.len() == 0 {
        let mut single: Vec<String> = Vec::new();
        single.push(String::from_str("-"));
        proof {
            assert(single.deep_view() =~= seq!["-"@]);
        }
        single
    } else {
        files
    };
    let out_lines = match lines {
        Some(l) => l,
        None => 10,
    };
    Ok(Args { files: out_files, lines: out_lines, bytes })
}

/// Some token of `args` selects the line limit.
pub open spec fn contains_lines_flag(args: Seq<Seq<char>>) -> bool {
    exists|i: int| 0 <= i < args.len() && is_lines_flag(args[i])
}

/// Some token of `args` selects the byte limit.
pub open spec fn contains_bytes_flag(args: Seq<Seq<char>>) -> bool {
    exists|i: int| 0 <= i < args.len() && is_bytes_flag(args[i])
}

proof fn lemma_flag_token_not_count(a: Seq<char>)
    requires
        is_lines_flag(a) || is_bytes_flag(a),
    ensures
        spec_parse_usize(a) is None,
{
    reveal_strlit("-n");
    reveal_strlit("--lines");
    reveal_strlit("-b");
    reveal_strlit("--bytes");
    assert(a[0] == '-');
    assert(!is_digit('-'));
}

proof fn lemma_limit_flags_distinct()
    ensures
        "-n"@ != "-b"@,
        "-n"@ != "--bytes"@,
        "--lines"@ != "-b"@,
        "--lines"@ != "--bytes"@,
{
    reveal_strlit("-n");
    reveal_strlit("--lines");
    reveal_strlit("-b");
    reveal_strlit("--bytes");
    assert("-n"@[1] == 'n' && "-b"@[1] == 'b');
    assert("-n"@.len() == 2 && "--bytes"@.len() == 7);
    assert("--lines"@.len() == 7 && "-b"@.len() == 2);
    assert("--lines"@[2] == 'l' && "--bytes"@[2] == 'b');
}

proof fn lemma_rec_conflict(
    rest: Seq<Seq<char>>,
    files: Seq<Seq<char>>,
    lines: Option<usize>,
    bytes: Option<usize>,
)
    requires
        lines is Some || contains_lines_flag(rest),
        bytes is Some || contains_bytes_flag(rest),
    ensures
        spec_resolve_rec(rest, files, lines, bytes) is Err,
    decreases rest.len(),
{
    lemma_limit_flags_distinct();
    if rest.len() == 0 {
    } else {
        let a = rest[0];
        if is_lines_flag(a) {
            if rest.len() >= 2 && spec_parse_usize(rest[1]) is Some {
                let v = spec_parse_usize(rest[1])->Some_0;
                if bytes is None {
                    let j = choose|j: int| 0 <= j < rest.len() && is_bytes_flag(rest[j]);
                    assert(j != 0);
                    if j == 1 {
                        lemma_flag_token_not_count(rest[1]);
                    }
                    assert(is_bytes_flag(rest.skip(2)[j - 2]));
                }
                lemma_rec_conflict(rest.skip(2), files, Some(v), bytes);
            }
        } else if is_bytes_flag(a) {
            if rest.len() >= 2 && spec_parse_usize(rest[1]) is Some {
                let v = spec_parse_usize(rest[1])->Some_0;
                if lines is None {
                    let j = choose|j: int| 0 <= j < rest.len() && is_lines_flag(rest[j]);
                    assert(j != 0);
                    if j == 1 {
                        lemma_flag_token_not_count(rest[1]);
                    }
                    assert(is_lines_flag(rest.skip(2)[j - 2]));
                }
                lemma_rec_conflict(rest.skip(2), files, lines, Some(v));
            }
        } else if is_flag(a) {
        } else {
            if lines is None {
                let j = choose|j: int| 0 <= j < rest.len() && is_lines_flag(rest[j]);
                assert(j != 0);
                assert(is_lines_flag(rest.skip(1)[j - 1]));
            }
            if bytes is None {
                let j = choose|j: int| 0 <= j < rest.len() && is_bytes_flag(rest[j]);
                assert(j != 0);
                assert(is_bytes_flag(rest.skip(1)[j - 1]));
            }
            lemma_rec_conflict(rest.skip(1), files.push(a), lines, bytes);
        }
    }
}

/// Law: an argument list that supplies both a line limit and a byte limit is
/// rejected by the resolver, whatever else it holds, so no input of such a run
/// is ever read.
pub proof fn lemma_both_limits_rejected(args: Seq<Seq<char>>)
    requires
        contains_lines_flag(args),
        contains_bytes_flag(args),
    ensures
        spec_resolve(args) is Err,
{
    lemma_rec_conflict(args, Seq::empty(), None, None);
}

/// The one-line diagnostic for a rejected argument list.
pub open spec fn spec_usage_message(e: UsageErrorView) -> Seq<char> {
    match e {
        UsageErrorView::UnknownFlag(f) => "unrecognized flag "@ + f,
        UsageErrorView::MissingValue(f) => "missing value for "@ + f,
        UsageErrorView::InvalidCount(v) => "invalid count "@ + v,
        UsageErrorView::ConflictingLimits => "the line and byte limits cannot both be given"@,
    }
}

impl UsageError {
    /// Renders the diagnostic that the run reports for this rejection.
    pub fn message(&self) -> (r: String)
        ensures
            r@ == spec_usage_message(self@),
    {
        match self {
            UsageError::UnknownFlag(f) => String::from_str("unrecognized flag ").concat(
                f.as_str(),
            ),
            UsageError::MissingValue(f) => String::from_str("missing value for ").concat(
                f.as_str(),
            ),
            UsageError::InvalidCount(v) => String::from_str("invalid count ").concat(v.as_str()),
            UsageError::ConflictingLimits => String::from_str(
                "the line and byte limits cannot both be given",
            ),
        }
    }
}

} // verus!
