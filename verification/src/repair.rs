//! The post-build structural repairs: a fixed table of rules that
//! compensate for a small, enumerable set of upstream files missing an
//! expected wrapping section.
//!
//! Each rule names a well-known parent section, an indicator child key and
//! the section expected to wrap that child. Wherever a parent object sits
//! in the tree, if the expected section is absent among its direct entries
//! while the indicator child is present directly, the section is
//! synthesized in the child's place and the child re-parented under it. A
//! rule whose expected section is already present leaves the tree alone.

use crate::tokens::ammo_key;
use crate::tokens::ammo_key_exec;
use crate::tokens::eq_bytes;
use crate::tokens::modifier_key;
use crate::tokens::modifier_key_exec;
use crate::tokens::spirit_key;
use crate::tokens::spirit_key_exec;
use crate::tokens::tokens_key;
use crate::tokens::tokens_key_exec;
use crate::tokens::unit_states_key;
use crate::tokens::unit_states_key_exec;
use crate::tokens::upgrades_key;
use crate::tokens::upgrades_key_exec;
use crate::value::entries_view;
use crate::value::items_view;
use crate::value::lemma_entries_view_len;
use crate::value::lemma_items_view_len;
use crate::value::value_view;
use crate::value::Entry;
use crate::value::EntryV;
use crate::value::JsonV;
use crate::value::Value;
use vstd::prelude::*;

verus! {

/// The first index among the entries from `i` on whose key is `k`, or -1.
pub open spec fn find_key(es: Seq<EntryV>, k: Seq<u8>, i: int) -> int
    decreases es.len() - i,
{
    if i < 0 || i >= es.len() {
        -1
    } else if es[i].key == k {
        i
    } else {
        find_key(es, k, i + 1)
    }
}

/// Where `find_key` lands: either -1 with no such key at or after `i`, or
/// the first entry bearing it.
proof fn lemma_find_key(es: Seq<EntryV>, k: Seq<u8>, i: int)
    requires
        0 <= i <= es.len(),
    ensures
        find_key(es, k, i) == -1 ==> forall|j: int| i <= j < es.len() ==> es[j].key != k,
        find_key(es, k, i) != -1 ==> i <= find_key(es, k, i) < es.len() && es[find_key(
            es,
            k,
            i,
        )].key == k && forall|j: int| i <= j < find_key(es, k, i) ==> es[j].key != k,
    decreases es.len() - i,
{
    if i < es.len() && es[i].key != k {
        lemma_find_key(es, k, i + 1);
    }
}

/// One repair rule applied to a parent section's entries: when the child
/// key is present and the expected section absent, the child's entry is
/// replaced by the synthesized section holding that child alone.
pub open spec fn apply_rule(es: Seq<EntryV>, child: Seq<u8>, section: Seq<u8>) -> Seq<EntryV> {
    let ci = find_key(es, child, 0);
    if ci == -1 || find_key(es, section, 0) != -1 {
        es
    } else {
        es.update(ci, EntryV { key: section, val: JsonV::ObjV(seq![es[ci]]) })
    }
}

/// The whole repair table, applied in order.
pub open spec fn apply_rules(es: Seq<EntryV>) -> Seq<EntryV> {
    let es1 = apply_rule(es, ammo_key(), upgrades_key());
    let es2 = apply_rule(es1, spirit_key(), upgrades_key());
    apply_rule(es2, modifier_key(), unit_states_key())
}

/// The repaired form of a value tree: children are repaired first, then
/// the repair table runs on the direct entries of every object entered
/// under the well-known parent key.
pub open spec fn repair_value(v: JsonV) -> JsonV
    decreases v, 2int, 0int,
{
    match v {
        JsonV::StrV(_) => v,
        JsonV::BoolV(_) => v,
        JsonV::NullV => v,
        JsonV::ObjV(es) => JsonV::ObjV(repair_entries(es, es.len() as int)),
        JsonV::ArrV(vs) => JsonV::ArrV(repair_items(vs, vs.len() as int)),
    }
}

/// The repaired form of one entry.
pub open spec fn repair_entry(e: EntryV) -> EntryV
    decreases e, 2int, 0int,
{
    let v2 = repair_value(e.val);
    if e.key == tokens_key() && v2 is ObjV {
        EntryV { key: e.key, val: JsonV::ObjV(apply_rules(v2->ObjV_0)) }
    } else {
        EntryV { key: e.key, val: v2 }
    }
}

/// The repaired forms of the first `n` entries.
pub open spec fn repair_entries(es: Seq<EntryV>, n: int) -> Seq<EntryV>
    decreases es, n, 1int,
{
    if n <= 0 || n > es.len() {
        Seq::empty()
    } else {
        repair_entries(es, n - 1).push(repair_entry(es[n - 1]))
    }
}

/// The repaired forms of the first `n` items.
pub open spec fn repair_items(vs: Seq<JsonV>, n: int) -> Seq<JsonV>
    decreases vs, n, 1int,
{
    if n <= 0 || n > vs.len() {
        Seq::empty()
    } else {
        repair_items(vs, n - 1).push(repair_value(vs[n - 1]))
    }
}

/// The first `n` repaired entries cover exactly the first `n` entries.
proof fn lemma_repair_entries_len(es: Seq<EntryV>, n: int)
    requires
        0 <= n <= es.len(),
    ensures
        repair_entries(es, n).len() == n,
        forall|k: int| 0 <= k < n ==> #[trigger] repair_entries(es, n)[k] == (repair_entry(
            es[k],
        )),
    decreases n,
{
    if n > 0 {
        lemma_repair_entries_len(es, n - 1);
    }
}

/// The first `n` repaired items cover exactly the first `n` items.
proof fn lemma_repair_items_len(vs: Seq<JsonV>, n: int)
    requires
        0 <= n <= vs.len(),
    ensures
        repair_items(vs, n).len() == n,
        forall|k: int| 0 <= k < n ==> #[trigger] repair_items(vs, n)[k] == (repair_value(vs[k])),
    decreases n,
{
    if n > 0 {
        lemma_repair_items_len(vs, n - 1);
    }
}

/// Finds the first entry bearing key `k`.
#[verifier::loop_isolation(false)]
fn find_key_exec(es: &Vec<Entry>, k: &[u8]) -> (r: Option<usize>)
    ensures
        ({
            let esv = entries_view(es@, 0);
            &&& ((r is Some) <==> find_key(esv, k@, 0) != -1)
            &&& (r matches Some(ci) ==> ci == find_key(esv, k@, 0))
        }),
{
    let ghost esv = entries_view(es@, 0);
    proof {
        lemma_entries_view_len(es@, 0);
        lemma_find_key(esv, k@, 0);
    }
    let n = es.len();
    let mut i: usize = 0;
    while i < n
        invariant
            0 <= i <= n == es@.len(),
            forall|j: int| 0 <= j < i ==> esv[j].key != k@,
        decreases n - i,
    {
        if eq_bytes(es[i].key.as_slice(), k) {
            proof {
                assert(esv[i as int].key == k@);
            }
            return Some(i);
        }
        i = i + 1;
    }
    None
}

/// Applies one repair rule to a parent's entries in place.
#[verifier::loop_isolation(false)]
fn apply_rule_exec(es: &mut Vec<Entry>, child: &[u8], section: Vec<u8>)
    requires
        section@.len() < usize::MAX,
    ensures
        entries_view(final(es)@, 0) == apply_rule(entries_view(old(es)@, 0), child@, section@),
{
    let ghost esv = entries_view(es@, 0);
    proof {
        lemma_entries_view_len(es@, 0);
    }
    let ci = match find_key_exec(es, child) {
        None => {
            proof {
                assert(entries_view(es@, 0) =~= apply_rule(esv, child@, section@));
            }
            return;
        },
        Some(ci) => ci,
    };
    if find_key_exec(es, section.as_slice()).is_some() {
        proof {
            assert(entries_view(es@, 0) =~= apply_rule(esv, child@, section@));
        }
        return;
    }
    proof {
        lemma_find_key(esv, child@, 0);
    }
    let moved = es.remove(ci);
    let ghost movedv = moved@;
    let mut inner: Vec<Entry> = Vec::new();
    inner.push(moved);
    proof {
        lemma_entries_view_len(inner@, 0);
        assert(entries_view(inner@, 0) =~= seq![movedv]);
        assert(movedv == esv[ci as int]);
    }
    let wrapped = Entry { key: section, val: Value::Obj(inner) };
    let ghost wrappedv = wrapped@;
    es.insert(ci, wrapped);
    proof {
        assert(es@ =~= old(es)@.update(ci as int, es@[ci as int]));
        lemma_entries_view_len(old(es)@, 0);
        lemma_entries_view_len(es@, 0);
        assert(wrappedv == (EntryV {
            key: section@,
            val: JsonV::ObjV(seq![esv[ci as int]]),
        }));
        assert(entries_view(es@, 0) =~= apply_rule(esv, child@, section@));
    }
}

/// Applies the whole repair table to a parent's entries.
fn apply_rules_exec(es: &mut Vec<Entry>)
    ensures
        entries_view(final(es)@, 0) == apply_rules(entries_view(old(es)@, 0)),
{
    let a = ammo_key_exec();
    let u1 = upgrades_key_exec();
    apply_rule_exec(es, a.as_slice(), u1);
    let sp = spirit_key_exec();
    let u2 = upgrades_key_exec();
    apply_rule_exec(es, sp.as_slice(), u2);
    let mo = modifier_key_exec();
    let un = unit_states_key_exec();
    apply_rule_exec(es, mo.as_slice(), un);
}

/// Repairs a value tree, copying it.
#[verifier::loop_isolation(false)]
pub fn repair_exec(v: &Value) -> (r: Value)
    ensures
        value_view(r) == repair_value(value_view(*v)),
    decreases v, 2int, 0int,
{
    match v {
        Value::Str(s) => {
            let c = crate::text::copy_range(s.as_slice(), 0, s.len());
            proof {
                assert(c@ =~= s@);
            }
            Value::Str(c)
        },
        Value::Bool(b) => Value::Bool(*b),
        Value::Null => Value::Null,
        Value::Obj(es) => {
            let ghost esv = entries_view(es@, 0);
            proof {
                lemma_entries_view_len(es@, 0);
            }
            let tk = tokens_key_exec();
            let n = es.len();
            let mut out: Vec<Entry> = Vec::new();
            let mut i: usize = 0;
            while i < n
                invariant
                    0 <= i <= n == es@.len(),
                    entries_view(out@, 0) =~= repair_entries(esv, i as int),
                decreases n - i,
            {
                let ghost ev = esv[i as int];
                let e = &es[i];
                let key = crate::text::copy_range(e.key.as_slice(), 0, e.key.len());
                proof {
                    assert(key@ =~= e.key@);
                    assert(ev.key == e.key@ && ev.val == value_view(e.val));
                }
                let nv = repair_exec(&e.val);
                let is_parent = eq_bytes(key.as_slice(), tk.as_slice());
                let nv2 = if is_parent {
                    match nv {
                        Value::Obj(mut nes) => {
                            let ghost nes0 = entries_view(nes@, 0);
                            proof {
                                assert(repair_value(ev.val) == JsonV::ObjV(nes0));
                            }
                            apply_rules_exec(&mut nes);
                            let rebuilt = Value::Obj(nes);
                            proof {
                                assert(value_view(rebuilt) == JsonV::ObjV(apply_rules(nes0)));
                                assert(value_view(rebuilt) == repair_entry(ev).val);
                            }
                            rebuilt
                        },
                        other => {
                            proof {
                                assert(!(value_view(other) is ObjV));
                                assert(value_view(other) == repair_entry(ev).val);
                            }
                            other
                        },
                    }
                } else {
                    proof {
                        assert(value_view(nv) == repair_entry(ev).val);
                    }
                    nv
                };
                let ghost keyv = key@;
                let ghost nv2v = value_view(nv2);
                let ghost out0 = out@;
                out.push(Entry { key, val: nv2 });
                proof {
                    assert(out@ =~= out0.push(out@.last()));
                    assert(out@.last()@ == (EntryV { key: keyv, val: nv2v }));
                    assert(out@.last()@ == repair_entry(ev));
                    lemma_repair_entries_len(esv, i + 1);
                    lemma_entries_view_len(out0, 0);
                    lemma_entries_view_len(out@, 0);
                    assert(forall|j: int| 0 <= j < out0.len() ==> out@[j] == out0[j]);
                    assert(entries_view(out@, 0) =~= repair_entries(esv, i + 1));
                }
                i = i + 1;
            }
            let rv = Value::Obj(out);
            proof {
                assert(value_view(rv) == repair_value(value_view(*v)));
            }
            rv
        },
        Value::Arr(vs) => {
            let ghost vsv = items_view(vs@, 0);
            proof {
                lemma_items_view_len(vs@, 0);
            }
            let n = vs.len();
            let mut out: Vec<Value> = Vec::new();
            let mut i: usize = 0;
            while i < n
                invariant
                    0 <= i <= n == vs@.len(),
                    items_view(out@, 0) =~= repair_items(vsv, i as int),
                decreases n - i,
            {
                let nv = repair_exec(&vs[i]);
                let ghost nvv = value_view(nv);
                let ghost out0 = out@;
                out.push(nv);
                proof {
                    assert(out@ =~= out0.push(out@.last()));
                    assert(value_view(out@.last()) == nvv);
                    assert(nvv == repair_value(vsv[i as int]));
                    lemma_repair_items_len(vsv, i + 1);
                    lemma_items_view_len(out0, 0);
                    lemma_items_view_len(out@, 0);
                    assert(forall|j: int| 0 <= j < out0.len() ==> out@[j] == out0[j]);
                    assert(items_view(out@, 0) =~= repair_items(vsv, i + 1));
                }
                i = i + 1;
            }
            let rv = Value::Arr(out);
            proof {
                assert(value_view(rv) == repair_value(value_view(*v)));
            }
            rv
        },
    }
}


/// The repair never renames or reorders an object's own entries: every key
/// stays in place; only the value under a repaired entry can change.
pub proof fn lemma_repair_preserves_keys(es: Seq<EntryV>)
    ensures
        repair_entries(es, es.len() as int).len() == es.len(),
        forall|k: int|
            0 <= k < es.len() ==> #[trigger] repair_entries(es, es.len() as int)[k].key
                == es[k].key,
{
    lemma_repair_entries_len(es, es.len() as int);
    assert forall|k: int| 0 <= k < es.len() implies #[trigger] repair_entries(
        es,
        es.len() as int,
    )[k].key == es[k].key by {
        assert(repair_entries(es, es.len() as int)[k] == repair_entry(es[k]));
        assert(repair_entry(es[k]).key == es[k].key);
    }
}

} // verus!
