//! Line- and byte-counted prefixes of a byte sequence.
//!
//! A line is the run of bytes up to and including the next line feed, or the
//! remaining bytes when the input ends without one.

use vstd::prelude::*;

verus! {

/// The line terminator: a line feed byte.
pub const NEWLINE: u8 = 10;

/// Length of the first line of `s`: everything up to and including the first
/// line feed, or all of `s` when it holds none.
pub open spec fn spec_first_line_len(s: Seq<u8>) -> nat
    decreases s.len(),
{
    if s.len() == 0 {
        0
    } else if s[0] == NEWLINE {
        1
    } else {
        1 + spec_first_line_len(s.drop_first())
    }
}

/// Length of the prefix of `s` made of its first `n` lines.
pub open spec fn spec_line_prefix_len(s: Seq<u8>, n: nat) -> nat
    decreases n,
{
    if n == 0 || s.len() == 0 {
        0
    } else {
        spec_first_line_len(s) + spec_line_prefix_len(
            s.skip(spec_first_line_len(s) as int),
            (n - 1) as nat,
        )
    }
}

/// The first `n` lines of `s`, byte for byte, terminators included.
pub open spec fn spec_line_prefix(s: Seq<u8>, n: nat) -> Seq<u8> {
    s.take(spec_line_prefix_len(s, n) as int)
}

/// The first `n` bytes of `s`, or all of `s` when it is shorter.
pub open spec fn spec_byte_prefix(s: Seq<u8>, n: nat) -> Seq<u8> {
    if n <= s.len() {
        s.take(n as int)
    } else {
        s
    }
}

/// Number of line feeds in `s`, which is the number of complete lines.
pub open spec fn newline_count(s: Seq<u8>) -> nat
    decreases s.len(),
{
    if s.len() == 0 {
        0
    } else {
        newline_count(s.drop_last()) + (if s.last() == NEWLINE {
            1nat
        } else {
            0nat
        })
    }
}

proof fn lemma_first_line_len_bounds(s: Seq<u8>)
    ensures
        s.len() > 0 ==> 1 <= spec_first_line_len(s) <= s.len(),
        s.len() == 0 ==> spec_first_line_len(s) == 0,
    decreases s.len(),
{
    if s.len() > 0 && s[0] != NEWLINE {
        lemma_first_line_len_bounds(s.drop_first());
    }
}

/// A scan that saw no line feed before position `j` pins the first line down:
/// it ends right after `j` when `s[j]` is a line feed, and takes all of `s`
/// when the scan ran off the end.
proof fn lemma_first_line_len_scan(s: Seq<u8>, j: int)
    requires
        0 <= j <= s.len(),
        forall|k: int| 0 <= k < j ==> s[k] != NEWLINE,
    ensures
        j < s.len() && s[j] == NEWLINE ==> spec_first_line_len(s) == j + 1,
        j == s.len() ==> spec_first_line_len(s) == s.len(),
    decreases j,
{
    if j == 0 {
        if s.len() > 0 && s[0] != NEWLINE {
            lemma_first_line_len_bounds(s);
        }
    } else {
        let t = s.drop_first();
        assert(forall|k: int| 0 <= k < j - 1 ==> t[k] != NEWLINE);
        lemma_first_line_len_scan(t, j - 1);
    }
}

proof fn lemma_line_prefix_len_le(s: Seq<u8>, n: nat)
    ensures
        spec_line_prefix_len(s, n) <= s.len(),
    decreases n,
{
    if n > 0 && s.len() > 0 {
        lemma_first_line_len_bounds(s);
        lemma_line_prefix_len_le(s.skip(spec_first_line_len(s) as int), (n - 1) as nat);
    }
}

/// The `n`-line prefix of `s` is a prefix of `s`.
pub proof fn lemma_line_prefix_is_prefix(s: Seq<u8>, n: nat)
    ensures
        spec_line_prefix_len(s, n) <= s.len(),
        spec_line_prefix(s, n).is_prefix_of(s),
{
    lemma_line_prefix_len_le(s, n);
    assert(spec_line_prefix(s, n) =~= s.take(spec_line_prefix_len(s, n) as int));
}

proof fn lemma_newline_count_concat(a: Seq<u8>, b: Seq<u8>)
    ensures
        newline_count(a + b) == newline_count(a) + newline_count(b),
    decreases b.len(),
{
    if b.len() == 0 {
        assert(a + b =~= a);
    } else {
        assert((a + b).drop_last() =~= a + b.drop_last());
        lemma_newline_count_concat(a, b.drop_last());
    }
}

proof fn lemma_newline_count_zero(s: Seq<u8>)
    requires
        forall|k: int| 0 <= k < s.len() ==> s[k] != NEWLINE,
    ensures
        newline_count(s) == 0,
    decreases s.len(),
{
    if s.len() > 0 {
        assert(forall|k: int| 0 <= k < s.len() - 1 ==> s.drop_last()[k] != NEWLINE);
        lemma_newline_count_zero(s.drop_last());
    }
}

proof fn lemma_first_line_chars(s: Seq<u8>)
    requires
        s.len() > 0,
    ensures
        forall|k: int| 0 <= k < spec_first_line_len(s) - 1 ==> s[k] != NEWLINE,
        s[spec_first_line_len(s) - 1] == NEWLINE || spec_first_line_len(s) == s.len(),
    decreases s.len(),
{
    lemma_first_line_len_bounds(s);
    if s[0] != NEWLINE && s.len() > 1 {
        let t = s.drop_first();
        lemma_first_line_chars(t);
        assert forall|k: int| 0 <= k < spec_first_line_len(s) - 1 implies s[k] != NEWLINE by {
            if k > 0 {
                assert(s[k] == t[k - 1]);
                assert(0 <= k - 1 < spec_first_line_len(t) - 1);
            }
        }
    }
}

/// Law: an input with at least `n` complete lines yields, under line limit
/// `n`, a prefix holding exactly `n` line terminators and ending at one: the
/// first `n` lines, byte for byte, terminators included.
pub proof fn lemma_line_prefix_exact(s: Seq<u8>, n: nat)
    requires
        newline_count(s) >= n,
    ensures
        newline_count(spec_line_prefix(s, n)) == n,
        n > 0 ==> spec_line_prefix(s, n).len() > 0 && spec_line_prefix(s, n).last() == NEWLINE,
    decreases n,
{
    if n == 0 {
        assert(spec_line_prefix(s, 0) =~= Seq::<u8>::empty());
    } else if s.len() == 0 {
        assert(false);
    } else {
        let fll = spec_first_line_len(s) as int;
        lemma_first_line_len_bounds(s);
        lemma_first_line_chars(s);
        let line = s.take(fll);
        let rest = s.skip(fll);
        assert(s =~= line + rest);
        lemma_newline_count_concat(line, rest);
        assert(forall|k: int| 0 <= k < fll - 1 ==> line[k] != NEWLINE);
        if s[fll - 1] != NEWLINE {
            lemma_newline_count_zero(s);
            assert(false);
        }
        assert(line.drop_last() =~= s.take(fll - 1));
        lemma_newline_count_zero(line.drop_last());
        assert(newline_count(line) == 1);
        lemma_line_prefix_exact(rest, (n - 1) as nat);
        lemma_line_prefix_len_le(rest, (n - 1) as nat);
        let sub = spec_line_prefix(rest, (n - 1) as nat);
        assert(spec_line_prefix(s, n) =~= line + sub);
        lemma_newline_count_concat(line, sub);
        if n == 1 {
            assert(spec_line_prefix(s, n).last() == line.last());
        }
    }
}

/// Law: a byte limit of `n` takes exactly the first `n` bytes of an input at
/// least that long, and a shorter input whole, with no padding.
pub proof fn lemma_byte_prefix_exact(s: Seq<u8>, n: nat)
    ensures
        n <= s.len() ==> spec_byte_prefix(s, n).len() == n && spec_byte_prefix(s, n) == s.take(
            n as int,
        ),
        n > s.len() ==> spec_byte_prefix(s, n) == s,
{
}

/// Copies `src[from..to]` onto the end of `dst`.
fn push_range(dst: &mut Vec<u8>, src: &Vec<u8>, from: usize, to: usize)
    requires
        from <= to <= src.len(),
    ensures
        final(dst)@ == old(dst)@ + src@.subrange(from as int, to as int),
{
    let mut k: usize = from;
    while k < to
        invariant
            from <= k <= to <= src.len(),
            dst@ == old(dst)@ + src@.subrange(from as int, k as int),
        decreases to - k,
    {
        let b = src[k];
        dst.push(b);
        assert(dst@ =~= old(dst)@ + src@.subrange(from as int, k + 1));
        k = k + 1;
    }
}

/// Position right after the line that starts at `from`: right after the next
/// line feed, or the end of `data` when no line feed follows.
fn find_line_end(data: &Vec<u8>, from: usize) -> (end: usize)
    requires
        from <= data.len(),
    ensures
        from <= end <= data.len(),
        end - from == spec_first_line_len(data@.skip(from as int)),
{
    let ghost tail = data@.skip(from as int);
    let mut j: usize = from;
    while j < data.len()
        invariant
            from <= j <= data.len(),
            tail == data@.skip(from as int),
            forall|k: int| from <= k < j ==> data@[k] != NEWLINE,
        decreases data.len() - j,
    {
        if data[j] == NEWLINE {
            proof {
                assert(forall|k: int| 0 <= k < j - from ==> tail[k] != NEWLINE);
                lemma_first_line_len_scan(tail, j - from);
            }
            return j + 1;
        }
        j = j + 1;
    }
    proof {
        assert(forall|k: int| 0 <= k < tail.len() ==> tail[k] != NEWLINE);
        lemma_first_line_len_scan(tail, tail.len() as int);
    }
    data.len()
}

/// The first `n` lines of `data`, byte for byte, terminators included.
pub fn line_prefix(data: &Vec<u8>, n: usize) -> (r: Vec<u8>)
    ensures
        r@ == spec_line_prefix(data@, n as nat),
{
    let mut r: Vec<u8> = Vec::new();
    let mut i: usize = 0;
    let mut taken: usize = 0;
    proof {
        assert(data@.skip(0) =~= data@);
    }
    while taken < n && i < data.len()
        invariant
            i <= data.len(),
            taken <= n,
            r@ == data@.take(i as int),
            spec_line_prefix_len(data@, n as nat) == i + spec_line_prefix_len(
                data@.skip(i as int),
                (n - taken) as nat,
            ),
        decreases data.len() - i,
    {
        let end = find_line_end(data, i);
        proof {
            let tail = data@.skip(i as int);
            lemma_first_line_len_bounds(tail);
            assert(tail.skip(spec_first_line_len(tail) as int) =~= data@.skip(end as int));
            assert(data@.take(i as int) + data@.subrange(i as int, end as int) =~= data@.take(
                end as int,
            ));
        }
        push_range(&mut r, data, i, end);
        i = end;
        taken = taken + 1;
    }
    proof {
        if taken == n {
            assert(spec_line_prefix_len(data@.skip(i as int), 0) == 0);
        } else {
            assert(data@.skip(i as int).len() == 0);
        }
        assert(r@ =~= spec_line_prefix(data@, n as nat));
    }
    r
}

/// The first `n` bytes of `data`, or all of it when it is shorter.
pub fn byte_prefix(data: &Vec<u8>, n: usize) -> (r: Vec<u8>)
    ensures
        r@ == spec_byte_prefix(data@, n as nat),
{
    let m = if n <= data.len() {
        n
    } else {
        data.len()
    };
    let mut r: Vec<u8> = Vec::new();
    push_range(&mut r, data, 0, m);
    proof {
        assert(Seq::<u8>::empty() + data@.subrange(0, m as int) =~= data@.take(m as int));
        if n > data.len() {
            assert(data@.take(data@.len() as int) =~= data@);
        }
    }
    r
}

} // verus!
