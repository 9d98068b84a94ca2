//! Byte-level text primitives shared by the preprocessor and the line
//! classifier: whitespace trimming, byte search, and splitting a file's
//! bytes into lines. A line break is a newline byte; a carriage return
//! just before the break belongs to the break and is stripped.

use vstd::prelude::*;

verus! {

/// The newline byte.
pub const NEWLINE: u8 = 10;
/// The carriage-return byte.
pub const CARRIAGE: u8 = 13;
/// The space byte.
pub const SPACE: u8 = 32;
/// The horizontal-tab byte.
pub const TAB: u8 = 9;

/// Whitespace that can occur inside one line of text.
pub open spec fn is_ws(b: u8) -> bool {
    b == SPACE || b == TAB || b == CARRIAGE
}

/// The index of the first occurrence of `b` in `s` at or after `i`, or -1.
pub open spec fn find_byte(s: Seq<u8>, b: u8, i: int) -> int
    decreases s.len() - i,
{
    if i < 0 || i >= s.len() {
        -1
    } else if s[i] == b {
        i
    } else {
        find_byte(s, b, i + 1)
    }
}

/// Where `find_byte` lands: either -1 with no occurrence at or after `i`,
/// or the first occurrence itself.
pub proof fn lemma_find_byte(s: Seq<u8>, b: u8, i: int)
    requires
        0 <= i <= s.len(),
    ensures
        find_byte(s, b, i) == -1 ==> forall|j: int| i <= j < s.len() ==> s[j] != b,
        find_byte(s, b, i) != -1 ==> i <= find_byte(s, b, i) < s.len() && s[find_byte(s, b, i)]
            == b && forall|j: int| i <= j < find_byte(s, b, i) ==> s[j] != b,
    decreases s.len() - i,
{
    if i < s.len() && s[i] != b {
        lemma_find_byte(s, b, i + 1);
    }
}

/// The index of the first non-whitespace byte at or after `i`, or `s.len()`.
pub open spec fn skip_ws(s: Seq<u8>, i: int) -> int
    decreases s.len() - i,
{
    if i < 0 || i >= s.len() {
        s.len() as int
    } else if is_ws(s[i]) {
        skip_ws(s, i + 1)
    } else {
        i
    }
}

/// Where `skip_ws` lands: the first non-whitespace index, everything before
/// it whitespace.
pub proof fn lemma_skip_ws(s: Seq<u8>, i: int)
    requires
        0 <= i <= s.len(),
    ensures
        i <= skip_ws(s, i) <= s.len(),
        forall|j: int| i <= j < skip_ws(s, i) ==> is_ws(s[j]),
        skip_ws(s, i) < s.len() ==> !is_ws(s[skip_ws(s, i)]),
    decreases s.len() - i,
{
    if i < s.len() && is_ws(s[i]) {
        lemma_skip_ws(s, i + 1);
    }
}

/// `s` without leading whitespace.
pub open spec fn drop_leading_ws(s: Seq<u8>) -> Seq<u8>
    decreases s.len(),
{
    if s.len() > 0 && is_ws(s[0]) {
        drop_leading_ws(s.drop_first())
    } else {
        s
    }
}

/// `s` without trailing whitespace.
pub open spec fn drop_trailing_ws(s: Seq<u8>) -> Seq<u8>
    decreases s.len(),
{
    if s.len() > 0 && is_ws(s.last()) {
        drop_trailing_ws(s.drop_last())
    } else {
        s
    }
}

/// `s` without leading and trailing whitespace.
pub open spec fn trim_ws(s: Seq<u8>) -> Seq<u8> {
    drop_trailing_ws(drop_leading_ws(s))
}

/// Dropping leading whitespace keeps a suffix: it equals skipping up to the
/// first non-whitespace byte.
pub proof fn lemma_drop_leading_ws(s: Seq<u8>, i: int)
    requires
        0 <= i <= s.len(),
        forall|j: int| 0 <= j < i ==> is_ws(s[j]),
        i < s.len() ==> !is_ws(s[i]),
    ensures
        drop_leading_ws(s) == s.subrange(i, s.len() as int),
    decreases i,
{
    if i == 0 {
        if s.len() > 0 {
            assert(!is_ws(s[0]));
        }
        assert(drop_leading_ws(s) =~= s.subrange(0, s.len() as int));
    } else {
        assert(is_ws(s[0]));
        let s1 = s.drop_first();
        assert(forall|j: int| 0 <= j < i - 1 ==> is_ws(s1[j]));
        lemma_drop_leading_ws(s1, i - 1);
        assert(s1.subrange(i - 1, s1.len() as int) =~= s.subrange(i, s.len() as int));
    }
}

/// Dropping trailing whitespace keeps a prefix: it equals cutting after the
/// last non-whitespace byte.
pub proof fn lemma_drop_trailing_ws(s: Seq<u8>, e: int)
    requires
        0 <= e <= s.len(),
        forall|j: int| e <= j < s.len() ==> is_ws(s[j]),
        e > 0 ==> !is_ws(s[e - 1]),
    ensures
        drop_trailing_ws(s) == s.subrange(0, e),
    decreases s.len(),
{
    if e == s.len() {
        if s.len() > 0 {
            assert(!is_ws(s.last()));
        }
        assert(drop_trailing_ws(s) =~= s.subrange(0, e));
    } else {
        assert(is_ws(s.last()));
        let s1 = s.drop_last();
        assert(forall|j: int| e <= j < s1.len() ==> s1[j] == s[j] && is_ws(s1[j]));
        lemma_drop_trailing_ws(s1, e);
        assert(s1.subrange(0, e) =~= s.subrange(0, e));
    }
}

/// Copies the byte range `a..b` of `src` into a fresh vector.
pub fn copy_range(src: &[u8], a: usize, b: usize) -> (r: Vec<u8>)
    requires
        a <= b <= src@.len(),
    ensures
        r@ == src@.subrange(a as int, b as int),
{
    let mut r: Vec<u8> = Vec::new();
    let mut i: usize = a;
    while i < b
        invariant
            a <= i <= b <= src@.len(),
            r@ == src@.subrange(a as int, i as int),
        decreases b - i,
    {
        r.push(src[i]);
        proof {
            assert(src@.subrange(a as int, i + 1) =~= src@.subrange(a as int, i as int)
                + seq![src@[i as int]]);
        }
        i = i + 1;
    }
    r
}

/// Appends every byte of `src` to `dst`.
pub fn append_bytes(dst: &mut Vec<u8>, src: &[u8])
    ensures
        final(dst)@ == old(dst)@ + src@,
{
    let mut i: usize = 0;
    while i < src.len()
        invariant
            0 <= i <= src@.len(),
            dst@ == old(dst)@ + src@.subrange(0, i as int),
        decreases src@.len() - i,
    {
        dst.push(src[i]);
        proof {
            assert(src@.subrange(0, i + 1) =~= src@.subrange(0, i as int) + seq![src@[i as int]]);
            assert(dst@ =~= old(dst)@ + src@.subrange(0, i + 1));
        }
        i = i + 1;
    }
    proof {
        assert(src@.subrange(0, src@.len() as int) =~= src@);
    }
}

/// Trims leading and trailing whitespace from a line, copying the middle.
pub fn trim_copy(line: &[u8]) -> (r: Vec<u8>)
    ensures
        r@ == trim_ws(line@),
{
    let n = line.len();
    let mut a: usize = 0;
    while a < n && (line[a] == SPACE || line[a] == TAB || line[a] == CARRIAGE)
        invariant
            0 <= a <= n,
            n == line@.len(),
            forall|j: int| 0 <= j < a ==> is_ws(line@[j]),
        decreases n - a,
    {
        a = a + 1;
    }
    let mut e: usize = n;
    while e > a && (line[e - 1] == SPACE || line[e - 1] == TAB || line[e - 1] == CARRIAGE)
        invariant
            a <= e <= n,
            n == line@.len(),
            forall|j: int| 0 <= j < a ==> is_ws(line@[j]),
            a < n ==> !is_ws(line@[a as int]),
            forall|j: int| e <= j < n ==> is_ws(line@[j]),
        decreases e,
    {
        e = e - 1;
    }
    let r = copy_range(line, a, e);
    proof {
        lemma_drop_leading_ws(line@, a as int);
        let d = line@.subrange(a as int, n as int);
        if e == a {
            lemma_drop_trailing_ws(d, 0);
        } else {
            assert(!is_ws(line@[e - 1]));
            assert(forall|j: int| e - a <= j < d.len() ==> d[j] == line@[j + a] && is_ws(d[j]));
            assert(d[e - a - 1] == line@[e - 1]);
            lemma_drop_trailing_ws(d, e - a);
        }
        assert(d.subrange(0, e - a) =~= line@.subrange(a as int, e as int));
    }
    r
}

/// The views of a list of line buffers.
pub open spec fn lines_view(v: Seq<Vec<u8>>) -> Seq<Seq<u8>> {
    Seq::new(v.len(), |i: int| v[i]@)
}

/// A line's bytes once its terminator is gone: a trailing carriage return
/// left by a carriage-return line break is stripped.
pub open spec fn strip_cr(l: Seq<u8>) -> Seq<u8> {
    if l.len() > 0 && l.last() == CARRIAGE {
        l.drop_last()
    } else {
        l
    }
}

/// The lines of `s` from position `p` on: split at newline bytes, each
/// line's trailing carriage return stripped, no terminator on the last line.
pub open spec fn split_lines_from(s: Seq<u8>, p: int) -> Seq<Seq<u8>>
    decreases s.len() - p,
{
    if p < 0 || p >= s.len() {
        Seq::empty()
    } else {
        let j = find_byte(s, NEWLINE, p);
        if j == -1 {
            seq![strip_cr(s.subrange(p, s.len() as int))]
        } else {
            proof {
                lemma_find_byte(s, NEWLINE, p);
            }
            seq![strip_cr(s.subrange(p, j))] + split_lines_from(s, j + 1)
        }
    }
}

/// The lines of a whole text.
pub open spec fn split_lines(s: Seq<u8>) -> Seq<Seq<u8>> {
    split_lines_from(s, 0)
}

/// Splits a text into its lines.
#[verifier::loop_isolation(false)]
pub fn split_lines_exec(text: &[u8]) -> (r: Vec<Vec<u8>>)
    ensures
        lines_view(r@) == split_lines(text@),
{
    let n = text.len();
    let mut r: Vec<Vec<u8>> = Vec::new();
    let mut p: usize = 0;
    while p < n
        invariant
            0 <= p <= n,
            lines_view(r@) + split_lines_from(text@, p as int) =~= split_lines(text@),
        decreases n - p,
    {
        let ghost p0 = p as int;
        let mut j: usize = p;
        while j < n && text[j] != NEWLINE
            invariant
                p <= j <= n,
                forall|m: int| p <= m < j ==> text@[m] != NEWLINE,
            decreases n - j,
        {
            j = j + 1;
        }
        proof {
            lemma_find_byte(text@, NEWLINE, p0);
            if j < n {
                assert(find_byte(text@, NEWLINE, p0) == j);
            } else {
                assert(find_byte(text@, NEWLINE, p0) == -1);
            }
        }
        let line_end = if j > p && text[j - 1] == CARRIAGE {
            j - 1
        } else {
            j
        };
        let line = copy_range(text, p, line_end);
        proof {
            assert(line@ =~= strip_cr(text@.subrange(p0, j as int)));
        }
        r.push(line);
        proof {
            assert(lines_view(r@) =~= lines_view(r@.drop_last()) + seq![line@]);
        }
        if j < n {
            p = j + 1;
        } else {
            p = n;
            proof {
                assert(split_lines_from(text@, j as int) =~= Seq::<Seq<u8>>::empty());
            }
        }
        proof {
            assert(lines_view(r@) + split_lines_from(text@, p as int) =~= split_lines(text@));
        }
    }
    r
}

/// The text of the lines from index `i` on, as joining builds it, with a
/// leading newline when `i` is not the first line.
pub open spec fn unsplit_lines_from(ls: Seq<Seq<u8>>, i: int) -> Seq<u8>
    decreases ls.len() - i,
{
    if i < 0 || i >= ls.len() {
        Seq::empty()
    } else if i == 0 {
        ls[0] + unsplit_lines_from(ls, 1)
    } else {
        seq![NEWLINE] + ls[i] + unsplit_lines_from(ls, i + 1)
    }
}

/// Joins lines back into one text, a newline between each pair of lines.
pub open spec fn unsplit_lines(ls: Seq<Seq<u8>>) -> Seq<u8> {
    unsplit_lines_from(ls, 0)
}

/// Joins line buffers back into one text.
#[verifier::loop_isolation(false)]
pub fn unsplit_lines_exec(ls: &Vec<Vec<u8>>) -> (r: Vec<u8>)
    ensures
        r@ == unsplit_lines(lines_view(ls@)),
{
    let mut r: Vec<u8> = Vec::new();
    let mut i: usize = 0;
    proof {
        assert(unsplit_lines_from(lines_view(ls@), 0) =~= unsplit_lines(lines_view(ls@)))
    }
    while i < ls.len()
        invariant
            0 <= i <= ls@.len(),
            r@ + unsplit_lines_from(lines_view(ls@), i as int) =~= unsplit_lines(
                lines_view(ls@),
            ),
        decreases ls@.len() - i,
    {
        if i > 0 {
            r.push(NEWLINE);
        }
        let mut k: usize = 0;
        let line = &ls[i];
        let ghost r0 = r@;
        while k < line.len()
            invariant
                0 <= k <= line@.len(),
                r@ == r0 + line@.subrange(0, k as int),
            decreases line@.len() - k,
        {
            r.push(line[k]);
            proof {
                assert(line@.subrange(0, k + 1) =~= line@.subrange(0, k as int) + seq![line@[
                    k as int]]);
            }
            k = k + 1;
        }
        proof {
            assert(line@.subrange(0, line@.len() as int) =~= line@);
            assert(r@ =~= r0 + lines_view(ls@)[i as int]);
        }
        i = i + 1;
    }
    r
}


/// Dropping trailing whitespace keeps a prefix of the original bytes.
pub proof fn lemma_drop_trailing_prefix(s: Seq<u8>)
    ensures
        drop_trailing_ws(s).len() <= s.len(),
        forall|i: int|
            0 <= i < drop_trailing_ws(s).len() ==> #[trigger] drop_trailing_ws(s)[i] == s[i],
    decreases s.len(),
{
    if s.len() > 0 && is_ws(s.last()) {
        lemma_drop_trailing_prefix(s.drop_last());
    }
}

} // verus!
