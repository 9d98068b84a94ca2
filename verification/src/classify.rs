//! The line classifier: tags each preprocessed line as a comment to ignore,
//! a key/value pair, a topic header candidate, a lone key, or a structural
//! brace. The rules are tried in a fixed precedence order; the first that
//! matches decides the tag.

use crate::escape::QUOTE;
use crate::escape::SLASH;
use crate::text::find_byte;
use crate::text::is_ws;
use crate::text::lemma_find_byte;
use crate::text::lemma_skip_ws;
use crate::text::skip_ws;
use crate::text::trim_copy;
use crate::text::trim_ws;
use crate::text::CARRIAGE;
use crate::text::TAB;
use crate::value::LBRACE;
use crate::value::LBRACKET;
use crate::value::RBRACE;
use crate::value::RBRACKET;
use vstd::prelude::*;

verus! {

/// A structural brace or bracket line.
#[derive(PartialEq, Eq, Structural, Clone, Copy, Debug)]
pub enum Brace {
    OpenObj,
    OpenArr,
    CloseObj,
    CloseArr,
}

/// The classification of one line. Tokens are carried verbatim: key and
/// value tokens keep their surrounding quotes, a topic carries the whole
/// line as its display text.
#[derive(Debug)]
pub enum ParsedLine {
    KeyValue(Vec<u8>, Vec<u8>),
    Topic(Vec<u8>),
    KeyOnly(Vec<u8>),
    BraceTok(Brace),
    Ignored,
}

/// The mathematical form of a classified line.
#[verifier::ext_equal]
pub enum LineV {
    KeyValueL(Seq<u8>, Seq<u8>),
    TopicL(Seq<u8>),
    KeyOnlyL(Seq<u8>),
    BraceL(Brace),
    IgnoredL,
}

impl View for ParsedLine {
    type V = LineV;

    open spec fn view(&self) -> LineV {
        match self {
            ParsedLine::KeyValue(k, v) => LineV::KeyValueL(k@, v@),
            ParsedLine::Topic(t) => LineV::TopicL(t@),
            ParsedLine::KeyOnly(k) => LineV::KeyOnlyL(k@),
            ParsedLine::BraceTok(b) => LineV::BraceL(*b),
            ParsedLine::Ignored => LineV::IgnoredL,
        }
    }
}

/// A comment line: its trimmed content starts with the comment marker.
pub open spec fn is_comment_line(line: Seq<u8>) -> bool {
    let t = trim_ws(line);
    t.len() > 0 && t[0] == SLASH
}

/// The end of the key token of a trimmed line: the index of the quote that
/// closes the key, found as the first quote after the opening one.
pub open spec fn key_close(t: Seq<u8>) -> int {
    find_byte(t, QUOTE, 1)
}

/// A trimmed line that opens with a well-formed key token: an opening
/// quote, then at least one byte with no whitespace up to the next quote.
pub open spec fn has_key_token(t: Seq<u8>) -> bool {
    t.len() >= 2 && t[0] == QUOTE && key_close(t) >= 2 && (forall|i: int|
        1 <= i < key_close(t) ==> !is_ws(t[i]))
}

/// Where the value token of a key/value line would begin: the first
/// non-whitespace byte after the key's closing quote.
pub open spec fn value_open(t: Seq<u8>) -> int {
    skip_ws(t, key_close(t) + 1)
}

/// A key/value line, trimmed: a key token, whitespace, then a quoted value
/// token that reaches the end of the line. The value may be empty and may
/// itself contain quotes; its closing quote is the line's last byte.
pub open spec fn is_kv_line(t: Seq<u8>) -> bool {
    has_key_token(t) && value_open(t) < t.len() - 1 && t[value_open(t)] == QUOTE && t[t.len() - 1]
        == QUOTE
}

/// The key token of a key/value line, quotes included.
pub open spec fn kv_key(t: Seq<u8>) -> Seq<u8> {
    t.subrange(0, key_close(t) + 1)
}

/// The value token of a key/value line, quotes included.
pub open spec fn kv_value(t: Seq<u8>) -> Seq<u8> {
    t.subrange(value_open(t), t.len() as int)
}

/// A byte that cannot occur in a topic header line: quotes, braces,
/// brackets, tabs and carriage returns are structural.
pub open spec fn is_structural(b: u8) -> bool {
    b == QUOTE || b == LBRACE || b == RBRACE || b == LBRACKET || b == RBRACKET || b == TAB || b
        == CARRIAGE
}

/// A topic header candidate: a non-empty line made solely of
/// non-structural bytes, taken verbatim as the display text.
pub open spec fn is_topic_line(line: Seq<u8>) -> bool {
    line.len() > 0 && (forall|i: int| 0 <= i < line.len() ==> !is_structural(line[i]))
}

/// A lone key line, trimmed: exactly one quoted token whose content is
/// non-empty and free of quotes and whitespace.
pub open spec fn is_solo_line(t: Seq<u8>) -> bool {
    t.len() >= 3 && t[0] == QUOTE && t[t.len() - 1] == QUOTE && (forall|i: int|
        1 <= i < t.len() - 1 ==> t[i] != QUOTE && !is_ws(t[i]))
}

/// A brace line, trimmed: exactly one structural brace or bracket byte.
pub open spec fn brace_of(t: Seq<u8>) -> Option<Brace> {
    if t.len() == 1 {
        if t[0] == LBRACE {
            Some(Brace::OpenObj)
        } else if t[0] == LBRACKET {
            Some(Brace::OpenArr)
        } else if t[0] == RBRACE {
            Some(Brace::CloseObj)
        } else if t[0] == RBRACKET {
            Some(Brace::CloseArr)
        } else {
            None
        }
    } else {
        None
    }
}

/// The classification of one line, by precedence: comments are ignored;
/// then a key/value pair; then a topic candidate; then a lone key; then a
/// brace; anything else is ignored.
pub open spec fn spec_classify(line: Seq<u8>) -> LineV {
    let t = trim_ws(line);
    if is_comment_line(line) {
        LineV::IgnoredL
    } else if is_kv_line(t) {
        LineV::KeyValueL(kv_key(t), kv_value(t))
    } else if is_topic_line(line) {
        LineV::TopicL(line)
    } else if is_solo_line(t) {
        LineV::KeyOnlyL(t)
    } else if brace_of(t) is Some {
        LineV::BraceL(brace_of(t)->0)
    } else {
        LineV::IgnoredL
    }
}

/// Classifies one line.
#[verifier::loop_isolation(false)]
pub fn classify(line: &[u8]) -> (r: ParsedLine)
    ensures
        r@ == spec_classify(line@),
{
    let t = trim_copy(line);
    let n = t.len();
    if n > 0 && t[0] == SLASH {
        return ParsedLine::Ignored;
    }
    // Key/value: key token, whitespace, quoted value closing the line.
    if n >= 2 && t[0] == QUOTE {
        let mut j: usize = 1;
        while j < n && t[j] != QUOTE
            invariant
                1 <= j <= n,
                forall|m: int| 1 <= m < j ==> t@[m] != QUOTE,
            decreases n - j,
        {
            j = j + 1;
        }
        proof {
            lemma_find_byte(t@, QUOTE, 1);
            if j < n {
                assert(key_close(t@) == j);
            } else {
                assert(key_close(t@) == -1);
            }
        }
        if j < n && j >= 2 {
            let mut key_clean = true;
            let mut m: usize = 1;
            while m < j
                invariant
                    1 <= m <= j,
                    j < n == t@.len(),
                    key_clean <==> (forall|i: int| 1 <= i < m ==> !is_ws(t@[i])),
                decreases j - m,
            {
                let b = t[m];
                if b == crate::text::SPACE || b == TAB || b == CARRIAGE {
                    key_clean = false;
                }
                m = m + 1;
            }
            if key_clean {
                let mut k: usize = j + 1;
                while k < n && (t[k] == crate::text::SPACE || t[k] == TAB || t[k] == CARRIAGE)
                    invariant
                        j + 1 <= k <= n,
                        forall|i: int| j + 1 <= i < k ==> is_ws(t@[i]),
                    decreases n - k,
                {
                    k = k + 1;
                }
                proof {
                    lemma_skip_ws(t@, j + 1);
                    assert(value_open(t@) == k);
                }
                if k < n - 1 && t[k] == QUOTE && t[n - 1] == QUOTE {
                    let key = crate::text::copy_range(t.as_slice(), 0, j + 1);
                    let val = crate::text::copy_range(t.as_slice(), k, n);
                    proof {
                        assert(is_kv_line(t@));
                    }
                    return ParsedLine::KeyValue(key, val);
                }
            }
        }
    }
    proof {
        assert(!is_kv_line(t@));
    }
    // Topic candidate: the whole line free of structural bytes.
    let ln = line.len();
    if ln > 0 {
        let mut clean = true;
        let mut i: usize = 0;
        while i < ln
            invariant
                0 <= i <= ln,
                ln == line@.len(),
                clean <==> (forall|j: int| 0 <= j < i ==> !is_structural(line@[j])),
            decreases ln - i,
        {
            let b = line[i];
            if b == QUOTE || b == LBRACE || b == RBRACE || b == LBRACKET || b == RBRACKET || b
                == TAB || b == CARRIAGE {
                clean = false;
            }
            i = i + 1;
        }
        if clean {
            let whole = crate::text::copy_range(line, 0, ln);
            proof {
                assert(whole@ =~= line@);
            }
            return ParsedLine::Topic(whole);
        }
    }
    proof {
        assert(!is_topic_line(line@));
    }
    // Lone key: exactly one quoted token.
    if n >= 3 && t[0] == QUOTE && t[n - 1] == QUOTE {
        let mut solo = true;
        let mut i: usize = 1;
        while i < n - 1
            invariant
                1 <= i <= n - 1,
                n == t@.len(),
                n >= 3,
                solo <==> (forall|j: int| 1 <= j < i ==> t@[j] != QUOTE && !is_ws(t@[j])),
            decreases n - 1 - i,
        {
            let b = t[i];
            if b == QUOTE || b == crate::text::SPACE || b == TAB || b == CARRIAGE {
                solo = false;
            }
            i = i + 1;
        }
        if solo {
            return ParsedLine::KeyOnly(t);
        }
    }
    proof {
        assert(!is_solo_line(t@));
    }
    // Brace: exactly one structural byte.
    if n == 1 {
        let b = t[0];
        if b == LBRACE {
            return ParsedLine::BraceTok(Brace::OpenObj);
        }
        if b == LBRACKET {
            return ParsedLine::BraceTok(Brace::OpenArr);
        }
        if b == RBRACE {
            return ParsedLine::BraceTok(Brace::CloseObj);
        }
        if b == RBRACKET {
            return ParsedLine::BraceTok(Brace::CloseArr);
        }
    }
    ParsedLine::Ignored
}

} // verus!
