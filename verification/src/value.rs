//! The JSON-equivalent value tree and its serializer.
//!
//! An `Obj` is an ordered list of entries: insertion order is preserved and
//! duplicate keys are kept positionally, mirroring the source format. String
//! values and object keys are held in their literal form, surrounding quotes
//! included; string content is escaped when a value is inserted, so the
//! serializer only concatenates.

use crate::text::append_bytes;
use vstd::prelude::*;

verus! {

/// One entry of an object: a key token (quotes included) and its value.
pub struct Entry {
    pub key: Vec<u8>,
    pub val: Value,
}

/// A JSON-equivalent value. `Str` holds a complete string literal, quotes
/// included. The key/value grammars here never produce numbers: every scalar
/// of the source format is a quoted string.
pub enum Value {
    Str(Vec<u8>),
    Bool(bool),
    Null,
    Obj(Vec<Entry>),
    Arr(Vec<Value>),
}

/// The mathematical form of an entry.
#[verifier::ext_equal]
pub struct EntryV {
    pub key: Seq<u8>,
    pub val: JsonV,
}

/// The mathematical form of a value tree.
#[verifier::ext_equal]
pub enum JsonV {
    StrV(Seq<u8>),
    BoolV(bool),
    NullV,
    ObjV(Seq<EntryV>),
    ArrV(Seq<JsonV>),
}

/// The mathematical form of an executable value tree.
pub open spec fn value_view(v: Value) -> JsonV
    decreases v, 1int, 0int,
{
    match v {
        Value::Str(s) => JsonV::StrV(s@),
        Value::Bool(b) => JsonV::BoolV(b),
        Value::Null => JsonV::NullV,
        Value::Obj(es) => JsonV::ObjV(entries_view(es@, 0)),
        Value::Arr(vs) => JsonV::ArrV(items_view(vs@, 0)),
    }
}

/// The views of the entries of an object, from index `i` on.
pub open spec fn entries_view(es: Seq<Entry>, i: int) -> Seq<EntryV>
    decreases es, es.len() - i, 1int,
{
    if i < 0 || i >= es.len() {
        Seq::empty()
    } else {
        seq![EntryV { key: es[i].key@, val: value_view(es[i].val) }] + entries_view(es, i + 1)
    }
}

/// The views of the elements of an array, from index `i` on.
pub open spec fn items_view(vs: Seq<Value>, i: int) -> Seq<JsonV>
    decreases vs, vs.len() - i, 1int,
{
    if i < 0 || i >= vs.len() {
        Seq::empty()
    } else {
        seq![value_view(vs[i])] + items_view(vs, i + 1)
    }
}

impl View for Value {
    type V = JsonV;

    open spec fn view(&self) -> JsonV {
        value_view(*self)
    }
}

impl View for Entry {
    type V = EntryV;

    open spec fn view(&self) -> EntryV {
        EntryV { key: self.key@, val: value_view(self.val) }
    }
}

/// The opening brace byte `{`.
pub const LBRACE: u8 = 123;
/// The closing brace byte `}`.
pub const RBRACE: u8 = 125;
/// The opening bracket byte `[`.
pub const LBRACKET: u8 = 91;
/// The closing bracket byte `]`.
pub const RBRACKET: u8 = 93;
/// The colon byte `:`.
pub const COLON: u8 = 58;
/// The comma byte `,`.
pub const COMMA: u8 = 44;

/// The serialization of `true`, `false` and `null`.
pub open spec fn bool_bytes(b: bool) -> Seq<u8> {
    if b {
        seq![116u8, 114u8, 117u8, 101u8]
    } else {
        seq![102u8, 97u8, 108u8, 115u8, 101u8]
    }
}

/// The serialized JSON text of a value tree. Keys and string literals are
/// emitted verbatim; entries and items are joined with commas in order.
pub open spec fn json_of(v: JsonV) -> Seq<u8>
    decreases v, 1int, 0int,
{
    match v {
        JsonV::StrV(s) => s,
        JsonV::BoolV(b) => bool_bytes(b),
        JsonV::NullV => seq![110u8, 117u8, 108u8, 108u8],
        JsonV::ObjV(es) => seq![LBRACE] + json_of_entries(es, es.len() as int) + seq![RBRACE],
        JsonV::ArrV(vs) => seq![LBRACKET] + json_of_items(vs, vs.len() as int) + seq![RBRACKET],
    }
}

/// The serialization of the first `n` entries of an object body.
pub open spec fn json_of_entries(es: Seq<EntryV>, n: int) -> Seq<u8>
    decreases es, n, 1int,
{
    if n <= 0 || n > es.len() {
        Seq::empty()
    } else {
        let item = es[n - 1].key + seq![COLON] + json_of(es[n - 1].val);
        if n == 1 {
            item
        } else {
            json_of_entries(es, n - 1) + seq![COMMA] + item
        }
    }
}

/// The serialization of the first `n` items of an array body.
pub open spec fn json_of_items(vs: Seq<JsonV>, n: int) -> Seq<u8>
    decreases vs, n, 1int,
{
    if n <= 0 || n > vs.len() {
        Seq::empty()
    } else {
        let item = json_of(vs[n - 1]);
        if n == 1 {
            item
        } else {
            json_of_items(vs, n - 1) + seq![COMMA] + item
        }
    }
}

/// Serializes a value tree to JSON text.
#[verifier::loop_isolation(false)]
pub fn to_json(v: &Value) -> (r: Vec<u8>)
    ensures
        r@ == json_of(v@),
    decreases v, 1int, 0int,
{
    match v {
        Value::Str(s) => {
            let mut r: Vec<u8> = Vec::new();
            append_bytes(&mut r, s.as_slice());
            proof {
                assert(r@ =~= json_of(v@));
            }
            r
        },
        Value::Bool(b) => {
            let mut r: Vec<u8> = Vec::new();
            if *b {
                r.push(116);
                r.push(114);
                r.push(117);
                r.push(101);
            } else {
                r.push(102);
                r.push(97);
                r.push(108);
                r.push(115);
                r.push(101);
            }
            proof {
                assert(r@ =~= json_of(v@));
            }
            r
        },
        Value::Null => {
            let mut r: Vec<u8> = Vec::new();
            r.push(110);
            r.push(117);
            r.push(108);
            r.push(108);
            proof {
                assert(r@ =~= json_of(v@));
            }
            r
        },
        Value::Obj(es) => {
            let ghost esv = entries_view(es@, 0);
            proof {
                lemma_entries_view_len(es@, 0);
            }
            let mut r: Vec<u8> = Vec::new();
            r.push(LBRACE);
            let mut i: usize = 0;
            while i < es.len()
                invariant
                    0 <= i <= es@.len(),
                    esv == entries_view(es@, 0),
                    esv.len() == es@.len(),
                    r@ == seq![LBRACE] + json_of_entries(esv, i as int),
                    forall|j: int| 0 <= j < es@.len() ==> #[trigger] esv[j] == (EntryV {
                        key: es@[0 + j].key@,
                        val: value_view(es@[0 + j].val),
                    }),
                decreases es@.len() - i,
            {
                if i > 0 {
                    r.push(COMMA);
                }
                append_bytes(&mut r, es[i].key.as_slice());
                r.push(COLON);
                let mut part = to_json(&es[i].val);
                r.append(&mut part);
                proof {
                    assert(r@ =~= seq![LBRACE] + json_of_entries(esv, i + 1));
                }
                i = i + 1;
            }
            r.push(RBRACE);
            proof {
                assert(v@ == JsonV::ObjV(esv));
                assert(r@ =~= json_of(v@));
            }
            r
        },
        Value::Arr(vs) => {
            let ghost vsv = items_view(vs@, 0);
            proof {
                lemma_items_view_len(vs@, 0);
            }
            let mut r: Vec<u8> = Vec::new();
            r.push(LBRACKET);
            let mut i: usize = 0;
            while i < vs.len()
                invariant
                    0 <= i <= vs@.len(),
                    vsv == items_view(vs@, 0),
                    vsv.len() == vs@.len(),
                    r@ == seq![LBRACKET] + json_of_items(vsv, i as int),
                    forall|j: int| 0 <= j < vs@.len() ==> #[trigger] vsv[j] == (value_view(
                        vs@[0 + j],
                    )),
                decreases vs@.len() - i,
            {
                if i > 0 {
                    r.push(COMMA);
                }
                let mut part = to_json(&vs[i]);
                r.append(&mut part);
                proof {
                    assert(r@ =~= seq![LBRACKET] + json_of_items(vsv, i + 1));
                }
                i = i + 1;
            }
            r.push(RBRACKET);
            proof {
                assert(v@ == JsonV::ArrV(vsv));
                assert(r@ =~= json_of(v@));
            }
            r
        },
    }
}

/// The entry views from index `i` on cover exactly the remaining entries,
/// element by element.
pub proof fn lemma_entries_view_len(es: Seq<Entry>, i: int)
    requires
        0 <= i <= es.len(),
    ensures
        entries_view(es, i).len() == es.len() - i,
        forall|k: int| 0 <= k < es.len() - i ==> #[trigger] entries_view(es, i)[k] == (EntryV {
            key: es[i + k].key@,
            val: value_view(es[i + k].val),
        }),
    decreases es.len() - i,
{
    if i < es.len() {
        lemma_entries_view_len(es, i + 1);
        let e0 = EntryV { key: es[i].key@, val: value_view(es[i].val) };
        assert(entries_view(es, i) == seq![e0] + entries_view(es, i + 1));
        assert forall|k: int| 0 <= k < es.len() - i implies #[trigger] entries_view(es, i)[k]
            == (EntryV { key: es[i + k].key@, val: value_view(es[i + k].val) }) by {
            if k == 0 {
                assert(entries_view(es, i)[0] == e0);
            } else {
                assert(entries_view(es, i)[k] == entries_view(es, i + 1)[k - 1]);
            }
        }
    }
}

/// The item views from index `i` on cover exactly the remaining items,
/// element by element.
pub proof fn lemma_items_view_len(vs: Seq<Value>, i: int)
    requires
        0 <= i <= vs.len(),
    ensures
        items_view(vs, i).len() == vs.len() - i,
        forall|k: int| 0 <= k < vs.len() - i ==> #[trigger] items_view(vs, i)[k] == (value_view(
            vs[i + k],
        )),
    decreases vs.len() - i,
{
    if i < vs.len() {
        lemma_items_view_len(vs, i + 1);
        let v0 = value_view(vs[i]);
        assert(items_view(vs, i) == seq![v0] + items_view(vs, i + 1));
        assert forall|k: int| 0 <= k < vs.len() - i implies #[trigger] items_view(vs, i)[k]
            == (value_view(vs[i + k])) by {
            if k == 0 {
                assert(items_view(vs, i)[0] == v0);
            } else {
                assert(items_view(vs, i)[k] == items_view(vs, i + 1)[k - 1]);
            }
        }
    }
}

} // verus!
