//! The string escaper: turns a raw quoted token into a valid JSON string
//! literal. Backslashes, double quotes and forward slashes in the token's
//! content are escaped with a backslash; the surrounding quotes are kept.

use vstd::prelude::*;

verus! {

/// The double-quote byte `"`.
pub const QUOTE: u8 = 34;
/// The backslash byte `\`.
pub const BACKSLASH: u8 = 92;
/// The forward-slash byte `/`.
pub const SLASH: u8 = 47;

/// A byte that must be escaped inside a JSON string literal.
pub open spec fn is_escapable(b: u8) -> bool {
    b == BACKSLASH || b == QUOTE || b == SLASH
}

/// The escape of one content byte: escapable bytes gain a leading backslash.
pub open spec fn esc_byte(b: u8) -> Seq<u8> {
    if is_escapable(b) {
        seq![BACKSLASH, b]
    } else {
        seq![b]
    }
}

/// The escape of a whole content sequence, byte by byte.
pub open spec fn escape_seq(s: Seq<u8>) -> Seq<u8>
    decreases s.len(),
{
    if s.len() == 0 {
        Seq::empty()
    } else {
        esc_byte(s[0]) + escape_seq(s.drop_first())
    }
}

/// What a standard JSON string decoder does to the escapes used here:
/// a backslash followed by one of `\`, `"`, `/` decodes to that byte alone;
/// every other byte decodes to itself.
pub open spec fn unescape_seq(s: Seq<u8>) -> Seq<u8>
    decreases s.len(),
{
    if s.len() == 0 {
        Seq::empty()
    } else if s[0] == BACKSLASH && s.len() >= 2 {
        seq![s[1]] + unescape_seq(s.skip(2))
    } else {
        seq![s[0]] + unescape_seq(s.drop_first())
    }
}

/// The content of a quoted token: the bytes between the surrounding quotes.
pub open spec fn token_content(s: Seq<u8>) -> Seq<u8> {
    s.subrange(1, s.len() - 1)
}

/// Escaping distributes over concatenation.
pub proof fn lemma_escape_seq_append(a: Seq<u8>, b: Seq<u8>)
    ensures
        escape_seq(a + b) == escape_seq(a) + escape_seq(b),
    decreases a.len(),
{
    if a.len() == 0 {
        assert(a + b =~= b);
        assert(escape_seq(a) + escape_seq(b) =~= escape_seq(b));
    } else {
        assert((a + b).drop_first() =~= a.drop_first() + b);
        lemma_escape_seq_append(a.drop_first(), b);
        assert(escape_seq(a + b) =~= escape_seq(a) + escape_seq(b));
    }
}

/// Escaping is the identity on content that holds no backslash, quote or
/// forward slash: such content comes out unchanged, merely quote-wrapped
/// by the caller.
pub proof fn lemma_escape_clean(s: Seq<u8>)
    requires
        forall|i: int| 0 <= i < s.len() ==> !is_escapable(s[i]),
    ensures
        escape_seq(s) == s,
    decreases s.len(),
{
    if s.len() == 0 {
        assert(escape_seq(s) =~= s);
    } else {
        lemma_escape_clean(s.drop_first());
        assert(escape_seq(s) =~= s);
    }
}

/// Round trip: decoding an escaped sequence with a standard JSON string
/// decoder yields back the original content, for every content sequence,
/// embedded quotes and backslashes included.
pub proof fn lemma_escape_round_trip(s: Seq<u8>)
    ensures
        unescape_seq(escape_seq(s)) == s,
    decreases s.len(),
{
    if s.len() == 0 {
        assert(unescape_seq(escape_seq(s)) =~= s);
    } else {
        lemma_escape_round_trip(s.drop_first());
        let rest = escape_seq(s.drop_first());
        if is_escapable(s[0]) {
            let e = seq![BACKSLASH, s[0]] + rest;
            assert(escape_seq(s) =~= e);
            assert(e[0] == BACKSLASH && e.len() >= 2);
            assert(e.skip(2) =~= rest);
            assert(unescape_seq(e) =~= seq![s[0]] + unescape_seq(rest));
            assert(unescape_seq(escape_seq(s)) =~= s);
        } else {
            let e = seq![s[0]] + rest;
            assert(escape_seq(s) =~= e);
            assert(e[0] != BACKSLASH);
            assert(e.drop_first() =~= rest);
            assert(unescape_seq(escape_seq(s)) =~= s);
        }
    }
}

/// Escapes a raw quoted token into a JSON string literal: the surrounding
/// quotes are kept, and every backslash, double quote and forward slash of
/// the content gains a leading backslash.
pub fn escape_string(value: &[u8]) -> (r: Vec<u8>)
    requires
        value@.len() >= 2,
        value@[0] == QUOTE,
        value@[value@.len() - 1] == QUOTE,
    ensures
        r@ == seq![QUOTE] + escape_seq(token_content(value@)) + seq![QUOTE],
{
    let mut r: Vec<u8> = Vec::new();
    r.push(QUOTE);
    let end = value.len() - 1;
    let mut i: usize = 1;
    while i < end
        invariant
            1 <= i <= end,
            end == value@.len() - 1,
            value@.len() >= 2,
            r@ == seq![QUOTE] + escape_seq(value@.subrange(1, i as int)),
        decreases end - i,
    {
        let b = value[i];
        proof {
            assert(value@.subrange(1, i + 1) =~= value@.subrange(1, i as int) + seq![b]);
            lemma_escape_seq_append(value@.subrange(1, i as int), seq![b]);
            assert(escape_seq(Seq::<u8>::empty()) =~= Seq::<u8>::empty());
            assert(seq![b].drop_first() =~= Seq::<u8>::empty());
            assert(escape_seq(seq![b]) =~= esc_byte(b) + escape_seq(Seq::<u8>::empty()));
            assert(escape_seq(seq![b]) =~= esc_byte(b));
        }
        if b == BACKSLASH || b == QUOTE || b == SLASH {
            r.push(BACKSLASH);
            r.push(b);
        } else {
            r.push(b);
        }
        i = i + 1;
    }
    r.push(QUOTE);
    proof {
        assert(value@.subrange(1, end as int) =~= token_content(value@));
    }
    r
}

} // verus!
