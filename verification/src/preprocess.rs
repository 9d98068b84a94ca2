//! The preprocessor: repairs two classes of known upstream defects before
//! any line is classified.
//!
//! First the line-wrap repair: a key/value line whose value's opening quote
//! ends the line, with the value's content continuing on the next line, is
//! joined back into one line. Then topic-header normalization: a comment
//! block made of dash-only decoration lines around a `// `-marked header
//! (optionally with one more descriptive comment line) is replaced by a
//! single bare line holding only the header's display text.

use crate::classify::has_key_token;
use crate::classify::value_open;
use crate::escape::QUOTE;
use crate::escape::SLASH;
use crate::text::find_byte;
use crate::text::lemma_find_byte;
use crate::text::lemma_skip_ws;
use crate::text::trim_copy;
use crate::text::trim_ws;
use crate::text::CARRIAGE;
use crate::text::SPACE;
use crate::text::TAB;
use vstd::prelude::*;

verus! {

/// The dash byte `-`.
pub const DASH: u8 = 45;

/// A line whose value token never opened: a key token, whitespace, then a
/// lone quote as the line's last byte. Its value continues on the next line.
pub open spec fn dangling_key_line(l: Seq<u8>) -> bool {
    let t = trim_ws(l);
    has_key_token(t) && value_open(t) == t.len() - 1 && t[t.len() - 1] == QUOTE
}

/// A continuation line: it holds a quote that closes the wrapped value,
/// with no tab before it.
pub open spec fn continuation_line(l: Seq<u8>) -> bool {
    let q = find_byte(l, QUOTE, 0);
    q != -1 && (forall|i: int| 0 <= i < q ==> l[i] != TAB)
}

/// The line-wrap repair over the lines from index `i` on: a dangling key
/// line followed by a continuation line becomes their concatenation; every
/// other line passes through.
pub open spec fn join_wrapped_from(ls: Seq<Seq<u8>>, i: int) -> Seq<Seq<u8>>
    decreases ls.len() - i,
{
    if i < 0 || i >= ls.len() {
        Seq::empty()
    } else if i + 1 < ls.len() && dangling_key_line(ls[i]) && continuation_line(ls[i + 1]) {
        seq![ls[i] + ls[i + 1]] + join_wrapped_from(ls, i + 2)
    } else {
        seq![ls[i]] + join_wrapped_from(ls, i + 1)
    }
}

/// A dash decoration line: `//` followed by one or more dashes and nothing
/// else, whitespace at the ends aside.
pub open spec fn is_dash_line(l: Seq<u8>) -> bool {
    let t = trim_ws(l);
    t.len() >= 3 && t[0] == SLASH && t[1] == SLASH && (forall|i: int|
        2 <= i < t.len() ==> t[i] == DASH)
}

/// A comment marker line: `// ` followed by at least one byte of text.
pub open spec fn is_marker_line(l: Seq<u8>) -> bool {
    let t = trim_ws(l);
    t.len() >= 4 && t[0] == SLASH && t[1] == SLASH && t[2] == SPACE
}

/// The text a marker line carries, after the `// ` marker.
pub open spec fn marker_text(l: Seq<u8>) -> Seq<u8> {
    let t = trim_ws(l);
    t.subrange(3, t.len() as int)
}

/// Whether a marker line's text holds a dash; a topic header's text never
/// does, which keeps it apart from the decoration around it.
pub open spec fn marker_has_dash(l: Seq<u8>) -> bool {
    exists|i: int| 0 <= i < marker_text(l).len() && marker_text(l)[i] == DASH
}

/// The number of consecutive dash decoration lines starting at index `i`.
pub open spec fn dash_run(ls: Seq<Seq<u8>>, i: int) -> int
    decreases ls.len() - i,
{
    if i < 0 || i >= ls.len() || !is_dash_line(ls[i]) {
        0
    } else {
        1 + dash_run(ls, i + 1)
    }
}

/// The run of dash lines stays within the line list.
pub proof fn lemma_dash_run(ls: Seq<Seq<u8>>, i: int)
    requires
        0 <= i <= ls.len(),
    ensures
        0 <= dash_run(ls, i) <= ls.len() - i,
    decreases ls.len() - i,
{
    if i < ls.len() && is_dash_line(ls[i]) {
        lemma_dash_run(ls, i + 1);
    }
}

/// Where a topic-header block starting at line `i` ends (exclusive), or -1
/// when no block starts there. A block is one or more dash lines, a header
/// marker line whose text has no dash, optionally one descriptive marker
/// line, then one or more closing dash lines.
pub open spec fn topic_block_end(ls: Seq<Seq<u8>>, i: int) -> int {
    let d1 = dash_run(ls, i);
    if i < 0 || i >= ls.len() || d1 == 0 {
        -1
    } else {
        let q = i + d1;
        if q < ls.len() && is_marker_line(ls[q]) && !marker_has_dash(ls[q]) {
            let c = if q + 1 < ls.len() && is_marker_line(ls[q + 1]) && dash_run(ls, q + 2) > 0 {
                q + 2
            } else {
                q + 1
            };
            let d2 = dash_run(ls, c);
            if d2 == 0 {
                -1
            } else {
                c + d2
            }
        } else {
            -1
        }
    }
}

/// The display text of the topic-header block starting at line `i`: the
/// header marker line's text.
pub open spec fn topic_block_text(ls: Seq<Seq<u8>>, i: int) -> Seq<u8> {
    marker_text(ls[i + dash_run(ls, i)])
}

/// A topic-header block covers at least three lines and stays within the
/// line list.
pub proof fn lemma_topic_block_end(ls: Seq<Seq<u8>>, i: int)
    requires
        0 <= i < ls.len(),
        topic_block_end(ls, i) != -1,
    ensures
        i + 3 <= topic_block_end(ls, i) <= ls.len(),
{
    lemma_dash_run(ls, i);
    let d1 = dash_run(ls, i);
    let q = i + d1;
    let c = if q + 1 < ls.len() && is_marker_line(ls[q + 1]) && dash_run(ls, q + 2) > 0 {
        q + 2
    } else {
        q + 1
    };
    if c <= ls.len() {
        lemma_dash_run(ls, c);
    }
}

/// Topic-header normalization over the lines from index `i` on: each block
/// collapses to one bare line holding the header's display text; every
/// other line passes through.
pub open spec fn normalize_from(ls: Seq<Seq<u8>>, i: int) -> Seq<Seq<u8>>
    decreases ls.len() - i,
{
    if i < 0 || i >= ls.len() {
        Seq::empty()
    } else {
        let e = topic_block_end(ls, i);
        if e == -1 {
            seq![ls[i]] + normalize_from(ls, i + 1)
        } else {
            proof {
                lemma_topic_block_end(ls, i);
            }
            seq![topic_block_text(ls, i)] + normalize_from(ls, e)
        }
    }
}

/// The whole preprocessing of a line list: the line-wrap repair first, then
/// topic-header normalization.
pub open spec fn preprocess_lines(ls: Seq<Seq<u8>>) -> Seq<Seq<u8>> {
    normalize_from(join_wrapped_from(ls, 0), 0)
}

/// Tests a line for the dangling-key shape.
#[verifier::loop_isolation(false)]
fn is_dangling_exec(l: &Vec<u8>) -> (r: bool)
    ensures
        r == dangling_key_line(l@),
{
    let t = trim_copy(l.as_slice());
    let n = t.len();
    if n < 2 || t[0] != QUOTE {
        return false;
    }
    let mut j: usize = 1;
    while j < n && t[j] != QUOTE
        invariant
            1 <= j <= n,
            forall|m: int| 1 <= m < j ==> t@[m] != QUOTE,
        decreases n - j,
    {
        j = j + 1;
    }
    proof {
        lemma_find_byte(t@, QUOTE, 1);
        if j < n {
            assert(crate::classify::key_close(t@) == j);
        } else {
            assert(crate::classify::key_close(t@) == -1);
        }
    }
    if j >= n || j < 2 {
        return false;
    }
    let mut m: usize = 1;
    while m < j
        invariant
            1 <= m <= j,
            j < n == t@.len(),
            forall|i: int| 1 <= i < m ==> !crate::text::is_ws(t@[i]),
        decreases j - m,
    {
        let b = t[m];
        if b == SPACE || b == TAB || b == CARRIAGE {
            return false;
        }
        m = m + 1;
    }
    let mut k: usize = j + 1;
    while k < n && (t[k] == SPACE || t[k] == TAB || t[k] == CARRIAGE)
        invariant
            j + 1 <= k <= n,
            forall|i: int| j + 1 <= i < k ==> crate::text::is_ws(t@[i]),
        decreases n - k,
    {
        k = k + 1;
    }
    proof {
        lemma_skip_ws(t@, j + 1);
        assert(value_open(t@) == k);
    }
    k == n - 1 && t[k] == QUOTE
}

/// Tests a line for the continuation shape.
#[verifier::loop_isolation(false)]
fn is_continuation_exec(l: &Vec<u8>) -> (r: bool)
    ensures
        r == continuation_line(l@),
{
    let n = l.len();
    let mut i: usize = 0;
    while i < n && l[i] != QUOTE && l[i] != TAB
        invariant
            0 <= i <= n,
            forall|m: int| 0 <= m < i ==> l@[m] != QUOTE && l@[m] != TAB,
        decreases n - i,
    {
        i = i + 1;
    }
    proof {
        lemma_find_byte(l@, QUOTE, 0);
    }
    i < n && l[i] == QUOTE
}

/// Copies one line buffer.
fn copy_line(l: &Vec<u8>) -> (r: Vec<u8>)
    ensures
        r@ == l@,
{
    let r = crate::text::copy_range(l.as_slice(), 0, l.len());
    proof {
        assert(l@.subrange(0, l@.len() as int) =~= l@);
    }
    r
}

/// Applies the line-wrap repair to a line list.
#[verifier::loop_isolation(false)]
fn join_wrapped_exec(ls: &Vec<Vec<u8>>) -> (r: Vec<Vec<u8>>)
    ensures
        crate::text::lines_view(r@) == join_wrapped_from(crate::text::lines_view(ls@), 0),
{
    let ghost lsv = crate::text::lines_view(ls@);
    let mut r: Vec<Vec<u8>> = Vec::new();
    let mut i: usize = 0;
    while i < ls.len()
        invariant
            0 <= i <= ls@.len(),
            crate::text::lines_view(r@) + join_wrapped_from(lsv, i as int) =~= join_wrapped_from(
                lsv,
                0,
            ),
        decreases ls@.len() - i,
    {
        if i + 1 < ls.len() && is_dangling_exec(&ls[i]) && is_continuation_exec(&ls[i + 1]) {
            let mut joined = copy_line(&ls[i]);
            crate::text::append_bytes(&mut joined, ls[i + 1].as_slice());
            r.push(joined);
            proof {
                assert(crate::text::lines_view(r@) =~= crate::text::lines_view(r@.drop_last())
                    + seq![lsv[i as int] + lsv[i + 1]]);
            }
            i = i + 2;
        } else {
            r.push(copy_line(&ls[i]));
            proof {
                assert(crate::text::lines_view(r@) =~= crate::text::lines_view(r@.drop_last())
                    + seq![lsv[i as int]]);
            }
            i = i + 1;
        }
        proof {
            assert(crate::text::lines_view(r@) + join_wrapped_from(lsv, i as int)
                =~= join_wrapped_from(lsv, 0));
        }
    }
    r
}

/// Tests a line for the dash-decoration shape.
#[verifier::loop_isolation(false)]
fn is_dash_line_exec(l: &Vec<u8>) -> (r: bool)
    ensures
        r == is_dash_line(l@),
{
    let t = trim_copy(l.as_slice());
    let n = t.len();
    if n < 3 || t[0] != SLASH || t[1] != SLASH {
        return false;
    }
    let mut i: usize = 2;
    while i < n
        invariant
            2 <= i <= n,
            forall|j: int| 2 <= j < i ==> t@[j] == DASH,
        decreases n - i,
    {
        if t[i] != DASH {
            return false;
        }
        i = i + 1;
    }
    true
}

/// Tests a line for the marker shape and, when it is one, hands back its
/// text and whether that text holds a dash.
#[verifier::loop_isolation(false)]
fn marker_parts_exec(l: &Vec<u8>) -> (r: Option<(Vec<u8>, bool)>)
    ensures
        (r is Some) <==> is_marker_line(l@),
        (r matches Some(p) ==> p.0@ == marker_text(l@) && p.1 == marker_has_dash(l@)),
{
    let t = trim_copy(l.as_slice());
    let n = t.len();
    if n < 4 || t[0] != SLASH || t[1] != SLASH || t[2] != SPACE {
        return None;
    }
    let text = crate::text::copy_range(t.as_slice(), 3, n);
    let mut has_dash = false;
    let mut i: usize = 0;
    let m = text.len();
    while i < m
        invariant
            0 <= i <= m == text@.len(),
            has_dash <==> (exists|j: int| 0 <= j < i && text@[j] == DASH),
        decreases m - i,
    {
        if text[i] == DASH {
            has_dash = true;
        }
        i = i + 1;
    }
    proof {
        assert(text@ == marker_text(l@));
        if has_dash {
            let j = choose|j: int| 0 <= j < m && text@[j] == DASH;
            assert(marker_text(l@)[j] == DASH);
        }
        if marker_has_dash(l@) {
            let j = choose|j: int|
                0 <= j < marker_text(l@).len() && marker_text(l@)[j] == DASH;
            assert(text@[j] == DASH);
        }
    }
    Some((text, has_dash))
}

/// Counts the dash lines starting at index `i`.
#[verifier::loop_isolation(false)]
fn dash_run_exec(ls: &Vec<Vec<u8>>, i: usize) -> (r: usize)
    requires
        i <= ls@.len(),
    ensures
        r == dash_run(crate::text::lines_view(ls@), i as int),
        i + r <= ls@.len(),
{
    let ghost lsv = crate::text::lines_view(ls@);
    let mut k: usize = i;
    while k < ls.len() && is_dash_line_exec(&ls[k])
        invariant
            i <= k <= ls@.len(),
            dash_run(lsv, i as int) == k - i + dash_run(lsv, k as int),
            forall|j: int| i <= j < k ==> is_dash_line(lsv[j]),
        decreases ls@.len() - k,
    {
        k = k + 1;
    }
    k - i
}

/// Finds the end of a topic-header block starting at line `i`, with the
/// header's display text, or nothing when no block starts there.
#[verifier::loop_isolation(false)]
fn topic_block_exec(ls: &Vec<Vec<u8>>, i: usize) -> (r: Option<(usize, Vec<u8>)>)
    requires
        i < ls@.len(),
    ensures
        (r is Some) <==> topic_block_end(crate::text::lines_view(ls@), i as int) != -1,
        (r matches Some(p) ==> p.0 == topic_block_end(crate::text::lines_view(ls@), i as int)
            && p.1@ == topic_block_text(crate::text::lines_view(ls@), i as int)),
{
    let ghost lsv = crate::text::lines_view(ls@);
    let n = ls.len();
    let d1 = dash_run_exec(ls, i);
    if d1 == 0 {
        return None;
    }
    let q = i + d1;
    if q >= n {
        return None;
    }
    let parts = marker_parts_exec(&ls[q]);
    match parts {
        None => None,
        Some((text, has_dash)) => {
            if has_dash {
                return None;
            }
            let c = if q + 1 < ls.len() {
                let next_marker = marker_parts_exec(&ls[q + 1]);
                if next_marker.is_some() && q + 2 <= ls.len() && dash_run_exec(ls, q + 2) > 0 {
                    q + 2
                } else {
                    q + 1
                }
            } else {
                q + 1
            };
            proof {
                if q + 1 < ls@.len() {
                    assert(dash_run(lsv, q + 2) > 0 ==> q + 2 <= ls@.len());
                }
            }
            let d2 = dash_run_exec(ls, c);
            if d2 == 0 {
                return None;
            }
            Some((c + d2, text))
        },
    }
}

/// Applies topic-header normalization to a line list.
#[verifier::loop_isolation(false)]
fn normalize_exec(ls: &Vec<Vec<u8>>) -> (r: Vec<Vec<u8>>)
    ensures
        crate::text::lines_view(r@) == normalize_from(crate::text::lines_view(ls@), 0),
{
    let ghost lsv = crate::text::lines_view(ls@);
    let mut r: Vec<Vec<u8>> = Vec::new();
    let mut i: usize = 0;
    while i < ls.len()
        invariant
            0 <= i <= ls@.len(),
            crate::text::lines_view(r@) + normalize_from(lsv, i as int) =~= normalize_from(
                lsv,
                0,
            ),
        decreases ls@.len() - i,
    {
        match topic_block_exec(ls, i) {
            Some((e, text)) => {
                proof {
                    lemma_topic_block_end(lsv, i as int);
                }
                r.push(text);
                proof {
                    assert(crate::text::lines_view(r@) =~= crate::text::lines_view(r@.drop_last())
                        + seq![topic_block_text(lsv, i as int)]);
                }
                i = e;
            },
            None => {
                r.push(copy_line(&ls[i]));
                proof {
                    assert(crate::text::lines_view(r@) =~= crate::text::lines_view(r@.drop_last())
                        + seq![lsv[i as int]]);
                }
                i = i + 1;
            },
        }
        proof {
            assert(crate::text::lines_view(r@) + normalize_from(lsv, i as int) =~= normalize_from(
                lsv,
                0,
            ));
        }
    }
    r
}

/// Preprocesses a raw file text into its repaired lines: the text is split
/// into lines, wrapped values are joined back, and topic-header comment
/// blocks collapse to bare header lines.
pub fn preprocess_text(text: &[u8]) -> (r: Vec<Vec<u8>>)
    ensures
        crate::text::lines_view(r@) == preprocess_lines(crate::text::split_lines(text@)),
{
    let lines = crate::text::split_lines_exec(text);
    let joined = join_wrapped_exec(&lines);
    normalize_exec(&joined)
}


/// On lines where no value ever dangles, the line-wrap repair is the
/// identity: everything from index `i` on passes through.
pub proof fn lemma_join_identity_from(ls: Seq<Seq<u8>>, i: int)
    requires
        0 <= i <= ls.len(),
        forall|j: int| 0 <= j < ls.len() ==> !dangling_key_line(#[trigger] ls[j]),
    ensures
        join_wrapped_from(ls, i) == ls.subrange(i, ls.len() as int),
    decreases ls.len() - i,
{
    if i < ls.len() {
        lemma_join_identity_from(ls, i + 1);
        assert(join_wrapped_from(ls, i) =~= ls.subrange(i, ls.len() as int));
    } else {
        assert(join_wrapped_from(ls, i) =~= ls.subrange(i, ls.len() as int));
    }
}

/// On lines where no dash decoration occurs, topic-header normalization is
/// the identity: everything from index `k` on passes through.
pub proof fn lemma_normalize_tail(ls: Seq<Seq<u8>>, k: int)
    requires
        0 <= k <= ls.len(),
        forall|j: int| k <= j < ls.len() ==> !is_dash_line(#[trigger] ls[j]),
    ensures
        normalize_from(ls, k) == ls.subrange(k, ls.len() as int),
    decreases ls.len() - k,
{
    if k < ls.len() {
        assert(dash_run(ls, k) == 0);
        assert(topic_block_end(ls, k) == -1);
        lemma_normalize_tail(ls, k + 1);
        assert(normalize_from(ls, k) =~= ls.subrange(k, ls.len() as int));
    } else {
        assert(normalize_from(ls, k) =~= ls.subrange(k, ls.len() as int));
    }
}

} // verus!
