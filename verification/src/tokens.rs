//! The fixed byte tokens of the library's rules: the key tokens of the
//! post-build repair table, the aggregator's wrapping keys, the expected
//! sub-folder root name and the recognized file extension. Key tokens
//! carry their surrounding quotes, as every key in the value tree does.

use vstd::prelude::*;

verus! {
/// The key token `"Tokens"`.
pub open spec fn tokens_key() -> Seq<u8> {
    seq![34u8, 84u8, 111u8, 107u8, 101u8, 110u8, 115u8, 34u8]
}

/// Builds the bytes of `tokens_key`.
pub fn tokens_key_exec() -> (r: Vec<u8>)
    ensures
        r@ == tokens_key(),
{
    let mut r: Vec<u8> = Vec::new();
    r.push(34);
    r.push(84);
    r.push(111);
    r.push(107);
    r.push(101);
    r.push(110);
    r.push(115);
    r.push(34);
    proof {
        assert(r@ =~= tokens_key());
    }
    r
}

/// The key token `"AmmoPerSoul"`.
pub open spec fn ammo_key() -> Seq<u8> {
    seq![34u8, 65u8, 109u8, 109u8, 111u8, 80u8, 101u8, 114u8, 83u8, 111u8, 117u8, 108u8, 34u8]
}

/// Builds the bytes of `ammo_key`.
pub fn ammo_key_exec() -> (r: Vec<u8>)
    ensures
        r@ == ammo_key(),
{
    let mut r: Vec<u8> = Vec::new();
    r.push(34);
    r.push(65);
    r.push(109);
    r.push(109);
    r.push(111);
    r.push(80);
    r.push(101);
    r.push(114);
    r.push(83);
    r.push(111);
    r.push(117);
    r.push(108);
    r.push(34);
    proof {
        assert(r@ =~= ammo_key());
    }
    r
}

/// The key token `"Spirit"`.
pub open spec fn spirit_key() -> Seq<u8> {
    seq![34u8, 83u8, 112u8, 105u8, 114u8, 105u8, 116u8, 34u8]
}

/// Builds the bytes of `spirit_key`.
pub fn spirit_key_exec() -> (r: Vec<u8>)
    ensures
        r@ == spirit_key(),
{
    let mut r: Vec<u8> = Vec::new();
    r.push(34);
    r.push(83);
    r.push(112);
    r.push(105);
    r.push(114);
    r.push(105);
    r.push(116);
    r.push(34);
    proof {
        assert(r@ =~= spirit_key());
    }
    r
}

/// The key token `"MODIFIER"`.
pub open spec fn modifier_key() -> Seq<u8> {
    seq![34u8, 77u8, 79u8, 68u8, 73u8, 70u8, 73u8, 69u8, 82u8, 34u8]
}

/// Builds the bytes of `modifier_key`.
pub fn modifier_key_exec() -> (r: Vec<u8>)
    ensures
        r@ == modifier_key(),
{
    let mut r: Vec<u8> = Vec::new();
    r.push(34);
    r.push(77);
    r.push(79);
    r.push(68);
    r.push(73);
    r.push(70);
    r.push(73);
    r.push(69);
    r.push(82);
    r.push(34);
    proof {
        assert(r@ =~= modifier_key());
    }
    r
}

/// The key token `"Upgrades: Weapon"`.
pub open spec fn upgrades_key() -> Seq<u8> {
    seq![34u8, 85u8, 112u8, 103u8, 114u8, 97u8, 100u8, 101u8, 115u8, 58u8, 32u8, 87u8, 101u8, 97u8, 112u8, 111u8, 110u8, 34u8]
}

/// Builds the bytes of `upgrades_key`.
pub fn upgrades_key_exec() -> (r: Vec<u8>)
    ensures
        r@ == upgrades_key(),
{
    let mut r: Vec<u8> = Vec::new();
    r.push(34);
    r.push(85);
    r.push(112);
    r.push(103);
    r.push(114);
    r.push(97);
    r.push(100);
    r.push(101);
    r.push(115);
    r.push(58);
    r.push(32);
    r.push(87);
    r.push(101);
    r.push(97);
    r.push(112);
    r.push(111);
    r.push(110);
    r.push(34);
    proof {
        assert(r@ =~= upgrades_key());
    }
    r
}

/// The key token `"Unit states (that we want to show)"`.
pub open spec fn unit_states_key() -> Seq<u8> {
    seq![34u8, 85u8, 110u8, 105u8, 116u8, 32u8, 115u8, 116u8, 97u8, 116u8, 101u8, 115u8, 32u8, 40u8, 116u8, 104u8, 97u8, 116u8, 32u8, 119u8, 101u8, 32u8, 119u8, 97u8, 110u8, 116u8, 32u8, 116u8, 111u8, 32u8, 115u8, 104u8, 111u8, 119u8, 41u8, 34u8]
}

/// Builds the bytes of `unit_states_key`.
pub fn unit_states_key_exec() -> (r: Vec<u8>)
    ensures
        r@ == unit_states_key(),
{
    let mut r: Vec<u8> = Vec::new();
    r.push(34);
    r.push(85);
    r.push(110);
    r.push(105);
    r.push(116);
    r.push(32);
    r.push(115);
    r.push(116);
    r.push(97);
    r.push(116);
    r.push(101);
    r.push(115);
    r.push(32);
    r.push(40);
    r.push(116);
    r.push(104);
    r.push(97);
    r.push(116);
    r.push(32);
    r.push(119);
    r.push(101);
    r.push(32);
    r.push(119);
    r.push(97);
    r.push(110);
    r.push(116);
    r.push(32);
    r.push(116);
    r.push(111);
    r.push(32);
    r.push(115);
    r.push(104);
    r.push(111);
    r.push(119);
    r.push(41);
    r.push(34);
    proof {
        assert(r@ =~= unit_states_key());
    }
    r
}

/// The key token `"category"`.
pub open spec fn category_key() -> Seq<u8> {
    seq![34u8, 99u8, 97u8, 116u8, 101u8, 103u8, 111u8, 114u8, 121u8, 34u8]
}

/// Builds the bytes of `category_key`.
pub fn category_key_exec() -> (r: Vec<u8>)
    ensures
        r@ == category_key(),
{
    let mut r: Vec<u8> = Vec::new();
    r.push(34);
    r.push(99);
    r.push(97);
    r.push(116);
    r.push(101);
    r.push(103);
    r.push(111);
    r.push(114);
    r.push(121);
    r.push(34);
    proof {
        assert(r@ =~= category_key());
    }
    r
}

/// The key token `"languages"`.
pub open spec fn languages_key() -> Seq<u8> {
    seq![34u8, 108u8, 97u8, 110u8, 103u8, 117u8, 97u8, 103u8, 101u8, 115u8, 34u8]
}

/// Builds the bytes of `languages_key`.
pub fn languages_key_exec() -> (r: Vec<u8>)
    ensures
        r@ == languages_key(),
{
    let mut r: Vec<u8> = Vec::new();
    r.push(34);
    r.push(108);
    r.push(97);
    r.push(110);
    r.push(103);
    r.push(117);
    r.push(97);
    r.push(103);
    r.push(101);
    r.push(115);
    r.push(34);
    proof {
        assert(r@ =~= languages_key());
    }
    r
}

/// The key token `"folders"`.
pub open spec fn folders_key() -> Seq<u8> {
    seq![34u8, 102u8, 111u8, 108u8, 100u8, 101u8, 114u8, 115u8, 34u8]
}

/// Builds the bytes of `folders_key`.
pub fn folders_key_exec() -> (r: Vec<u8>)
    ensures
        r@ == folders_key(),
{
    let mut r: Vec<u8> = Vec::new();
    r.push(34);
    r.push(102);
    r.push(111);
    r.push(108);
    r.push(100);
    r.push(101);
    r.push(114);
    r.push(115);
    r.push(34);
    proof {
        assert(r@ =~= folders_key());
    }
    r
}

/// The bytes of `localization`.
pub open spec fn localization_name() -> Seq<u8> {
    seq![108u8, 111u8, 99u8, 97u8, 108u8, 105u8, 122u8, 97u8, 116u8, 105u8, 111u8, 110u8]
}

/// Builds the bytes of `localization_name`.
pub fn localization_name_exec() -> (r: Vec<u8>)
    ensures
        r@ == localization_name(),
{
    let mut r: Vec<u8> = Vec::new();
    r.push(108);
    r.push(111);
    r.push(99);
    r.push(97);
    r.push(108);
    r.push(105);
    r.push(122);
    r.push(97);
    r.push(116);
    r.push(105);
    r.push(111);
    r.push(110);
    proof {
        assert(r@ =~= localization_name());
    }
    r
}

/// The bytes of `.txt`.
pub open spec fn txt_extension() -> Seq<u8> {
    seq![46u8, 116u8, 120u8, 116u8]
}

/// Builds the bytes of `txt_extension`.
pub fn txt_extension_exec() -> (r: Vec<u8>)
    ensures
        r@ == txt_extension(),
{
    let mut r: Vec<u8> = Vec::new();
    r.push(46);
    r.push(116);
    r.push(120);
    r.push(116);
    proof {
        assert(r@ =~= txt_extension());
    }
    r
}

/// Whether two byte slices hold the same bytes.
pub fn eq_bytes(a: &[u8], b: &[u8]) -> (r: bool)
    ensures
        r <==> a@ == b@,
{
    if a.len() != b.len() {
        proof {
            assert(a@.len() != b@.len());
        }
        return false;
    }
    let n = a.len();
    let mut i: usize = 0;
    while i < n
        invariant
            0 <= i <= n,
            n == a@.len() == b@.len(),
            forall|j: int| 0 <= j < i ==> a@[j] == b@[j],
        decreases n - i,
    {
        if a[i] != b[i] {
            return false;
        }
        i = i + 1;
    }
    proof {
        assert(a@ =~= b@);
    }
    true
}

} // verus!
