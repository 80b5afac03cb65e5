//! Token claims and their compact JSON form.
//!
//! A claims blob carries the group id, an expiry and an optional capability
//! set. The encoder always emits the compact field names (`g`, `exp`, `p`,
//! and `dg`/`mm`/`up`/`ae`/`ee` inside the capability object); the decoder
//! also accepts the older long-form names for the same logical fields, so
//! tokens minted under the previous schema still decode.

use vstd::prelude::*;

use crate::caps::Permissions;
use crate::hexid::spec_id_str;
use crate::hexid::id_str_bytes;

verus! {

/// What a token asserts: the group it grants access to, when it expires
/// (seconds since the epoch), and optionally a capability set. A missing
/// capability set means full access (a legacy token).
#[derive(Debug, Clone, Copy, PartialEq, Eq)]
pub struct Claims {
    pub group_id: u128,
    pub exp: u64,
    pub permissions: Option<Permissions>,
}

// The field names, as byte sequences: compact first, then the long forms
// accepted for compatibility.
pub open spec fn kb_g() -> Seq<u8> {
    seq![103u8]
}

pub open spec fn kb_group_id() -> Seq<u8> {
    seq![103u8, 114u8, 111u8, 117u8, 112u8, 95u8, 105u8, 100u8]
}

pub open spec fn kb_exp() -> Seq<u8> {
    seq![101u8, 120u8, 112u8]
}

pub open spec fn kb_p() -> Seq<u8> {
    seq![112u8]
}

pub open spec fn kb_permissions() -> Seq<u8> {
    seq![112u8, 101u8, 114u8, 109u8, 105u8, 115u8, 115u8, 105u8, 111u8, 110u8, 115u8]
}

pub open spec fn kb_dg() -> Seq<u8> {
    seq![100u8, 103u8]
}

pub open spec fn kb_mm() -> Seq<u8> {
    seq![109u8, 109u8]
}

pub open spec fn kb_up() -> Seq<u8> {
    seq![117u8, 112u8]
}

pub open spec fn kb_ae() -> Seq<u8> {
    seq![97u8, 101u8]
}

pub open spec fn kb_ee() -> Seq<u8> {
    seq![101u8, 101u8]
}

pub open spec fn kb_can_delete_group() -> Seq<u8> {
    seq![99u8, 97u8, 110u8, 95u8, 100u8, 101u8, 108u8, 101u8, 116u8, 101u8, 95u8, 103u8, 114u8,
        111u8, 117u8, 112u8]
}

pub open spec fn kb_can_manage_members() -> Seq<u8> {
    seq![99u8, 97u8, 110u8, 95u8, 109u8, 97u8, 110u8, 97u8, 103u8, 101u8, 95u8, 109u8, 101u8,
        109u8, 98u8, 101u8, 114u8, 115u8]
}

pub open spec fn kb_can_update_payment() -> Seq<u8> {
    seq![99u8, 97u8, 110u8, 95u8, 117u8, 112u8, 100u8, 97u8, 116u8, 101u8, 95u8, 112u8, 97u8,
        121u8, 109u8, 101u8, 110u8, 116u8]
}

pub open spec fn kb_can_add_expenses() -> Seq<u8> {
    seq![99u8, 97u8, 110u8, 95u8, 97u8, 100u8, 100u8, 95u8, 101u8, 120u8, 112u8, 101u8, 110u8,
        115u8, 101u8, 115u8]
}

pub open spec fn kb_can_edit_expenses() -> Seq<u8> {
    seq![99u8, 97u8, 110u8, 95u8, 101u8, 100u8, 105u8, 116u8, 95u8, 101u8, 120u8, 112u8, 101u8,
        110u8, 115u8, 101u8, 115u8]
}

/// The JSON literal of a boolean.
pub open spec fn bool_lit(b: bool) -> Seq<u8> {
    if b {
        seq![116u8, 114u8, 117u8, 101u8]
    } else {
        seq![102u8, 97u8, 108u8, 115u8, 101u8]
    }
}

/// The compact name of capability field `k` (0 through 4).
pub open spec fn perm_name(k: int) -> Seq<u8> {
    if k == 0 {
        kb_dg()
    } else if k == 1 {
        kb_mm()
    } else if k == 2 {
        kb_up()
    } else if k == 3 {
        kb_ae()
    } else {
        kb_ee()
    }
}

/// Capability field `k` of a set.
pub open spec fn perm_opt(p: Permissions, k: int) -> Option<bool> {
    if k == 0 {
        p.can_delete_group
    } else if k == 1 {
        p.can_manage_members
    } else if k == 2 {
        p.can_update_payment
    } else if k == 3 {
        p.can_add_expenses
    } else {
        p.can_edit_expenses
    }
}

/// One rendered capability field: `"name":bool`.
pub open spec fn perm_field(name: Seq<u8>, b: bool) -> Seq<u8> {
    seq![34u8] + name + seq![34u8, 58u8] + bool_lit(b)
}

/// The rendered fields `k` onward of a capability set, in fixed order,
/// comma-separated; unset fields are omitted. `first` says whether no field
/// has been rendered yet (so no comma is owed).
pub open spec fn spec_perm_fields(p: Permissions, k: int, first: bool) -> Seq<u8>
    decreases 5 - k,
{
    if k < 0 || k >= 5 {
        Seq::empty()
    } else {
        match perm_opt(p, k) {
            None => spec_perm_fields(p, k + 1, first),
            Some(b) => (if first {
                Seq::empty()
            } else {
                seq![44u8]
            }) + perm_field(perm_name(k), b) + spec_perm_fields(p, k + 1, false),
        }
    }
}

/// The compact JSON object of a capability set.
pub open spec fn spec_encode_perms(p: Permissions) -> Seq<u8> {
    seq![123u8] + spec_perm_fields(p, 0, true) + seq![125u8]
}

/// The decimal digits of a positive value, most significant first.
pub open spec fn spec_dec_digits(v: int) -> Seq<u8>
    decreases v,
{
    if v <= 0 {
        Seq::empty()
    } else {
        spec_dec_digits(v / 10) + seq![(48 + v % 10) as u8]
    }
}

/// The decimal form of an unsigned value.
pub open spec fn spec_dec_u64(v: u64) -> Seq<u8> {
    if v == 0 {
        seq![48u8]
    } else {
        spec_dec_digits(v as int)
    }
}

/// The compact JSON claims blob: `{"g":"<id>","exp":<n>}`, with `,"p":{...}`
/// before the closing brace when a capability set is present.
pub open spec fn spec_encode_claims(c: Claims) -> Seq<u8> {
    seq![123u8, 34u8, 103u8, 34u8, 58u8, 34u8] + spec_id_str(c.group_id) + seq![34u8, 44u8, 34u8,
        101u8, 120u8, 112u8, 34u8, 58u8] + spec_dec_u64(c.exp) + (match c.permissions {
        Some(p) => seq![44u8, 34u8, 112u8, 34u8, 58u8] + spec_encode_perms(p),
        None => Seq::empty(),
    }) + seq![125u8]
}

/// A sequence reversed.
pub open spec fn rev_seq(s: Seq<u8>) -> Seq<u8> {
    Seq::new(s.len(), |i: int| s[s.len() - 1 - i])
}

/// The decimal form of an unsigned 64-bit value.
pub fn dec_u64_bytes(v: u64) -> (r: Vec<u8>)
    ensures
        r@ == spec_dec_u64(v),
{
    if v == 0 {
        let mut out: Vec<u8> = Vec::new();
        out.push(48);
        proof {
            assert(out@ =~= spec_dec_u64(0));
        }
        return out;
    }
    // Digits, least significant first.
    let mut tmp: Vec<u8> = Vec::new();
    let mut cur: u64 = v;
    proof {
        assert(spec_dec_digits(v as int) =~= spec_dec_digits(v as int) + rev_seq(tmp@));
    }
    while cur > 0
        invariant
            spec_dec_digits(v as int) == spec_dec_digits(cur as int) + rev_seq(tmp@),
        decreases cur,
    {
        let ghost pre = tmp@;
        tmp.push(48 + (cur % 10) as u8);
        proof {
            assert(rev_seq(tmp@) =~= seq![(48 + (cur as int) % 10) as u8] + rev_seq(pre));
            assert(spec_dec_digits(cur as int) == spec_dec_digits((cur as int) / 10) + seq![
                (48 + (cur as int) % 10) as u8,
            ]);
            assert(spec_dec_digits((cur as int) / 10) + rev_seq(tmp@) =~= spec_dec_digits(
                cur as int,
            ) + rev_seq(pre));
        }
        cur = cur / 10;
    }
    proof {
        assert(spec_dec_digits(0) =~= Seq::<u8>::empty());
        assert(spec_dec_digits(v as int) =~= rev_seq(tmp@));
    }
    let n = tmp.len();
    let mut out: Vec<u8> = Vec::new();
    let mut i: usize = 0;
    while i < n
        invariant
            i <= n,
            n == tmp@.len(),
            out@.len() == i,
            forall|x: int| 0 <= x < i ==> out@[x] == rev_seq(tmp@)[x],
        decreases n - i,
    {
        out.push(tmp[n - 1 - i]);
        i += 1;
    }
    proof {
        assert(out@ =~= rev_seq(tmp@));
    }
    out
}

/// Render the JSON bool literal onto a buffer.
fn push_bool(out: &mut Vec<u8>, b: bool)
    ensures
        final(out)@ == old(out)@ + bool_lit(b),
{
    let ghost pre = out@;
    if b {
        out.push(116);
        out.push(114);
        out.push(117);
        out.push(101);
    } else {
        out.push(102);
        out.push(97);
        out.push(108);
        out.push(115);
        out.push(101);
    }
    proof {
        assert(out@ =~= pre + bool_lit(b));
    }
}

/// Render one capability field, with its comma when one is owed, onto a
/// buffer, keeping "rendered plus still owed" constant. Returns whether no
/// field has been rendered yet.
fn push_perm_field(
    out: &mut Vec<u8>,
    name: &Vec<u8>,
    o: Option<bool>,
    first: bool,
    Ghost(p): Ghost<Permissions>,
    Ghost(k): Ghost<int>,
) -> (nf: bool)
    requires
        0 <= k < 5,
        name@ == perm_name(k),
        o == perm_opt(p, k),
    ensures
        final(out)@ + spec_perm_fields(p, k + 1, nf) == old(out)@ + spec_perm_fields(
            p,
            k,
            first,
        ),
{
    let ghost pre = out@;
    match o {
        None => {
            proof {
                assert(out@ + spec_perm_fields(p, k + 1, first) =~= pre + spec_perm_fields(
                    p,
                    k,
                    first,
                ));
            }
            first
        },
        Some(b) => {
            if !first {
                out.push(44);
            }
            out.push(34);
            let mut nm = name.clone();
            out.append(&mut nm);
            out.push(34);
            out.push(58);
            push_bool(out, b);
            proof {
                assert(out@ =~= pre + (if first {
                    Seq::<u8>::empty()
                } else {
                    seq![44u8]
                }) + perm_field(name@, b));
                assert(out@ + spec_perm_fields(p, k + 1, false) =~= pre + spec_perm_fields(
                    p,
                    k,
                    first,
                ));
            }
            false
        },
    }
}

/// The compact JSON object of a capability set.
pub fn encode_perms(p: &Permissions) -> (r: Vec<u8>)
    ensures
        r@ == spec_encode_perms(*p),
{
    let mut out: Vec<u8> = Vec::new();
    out.push(123);
    let ghost o0 = out@;
    let mut name: Vec<u8> = Vec::new();
    name.push(100);
    name.push(103);
    proof {
        assert(name@ =~= perm_name(0));
    }
    let f1 = push_perm_field(&mut out, &name, p.can_delete_group, true, Ghost(*p), Ghost(0));
    let mut name: Vec<u8> = Vec::new();
    name.push(109);
    name.push(109);
    proof {
        assert(name@ =~= perm_name(1));
    }
    let f2 = push_perm_field(&mut out, &name, p.can_manage_members, f1, Ghost(*p), Ghost(1));
    let mut name: Vec<u8> = Vec::new();
    name.push(117);
    name.push(112);
    proof {
        assert(name@ =~= perm_name(2));
    }
    let f3 = push_perm_field(&mut out, &name, p.can_update_payment, f2, Ghost(*p), Ghost(2));
    let mut name: Vec<u8> = Vec::new();
    name.push(97);
    name.push(101);
    proof {
        assert(name@ =~= perm_name(3));
    }
    let f4 = push_perm_field(&mut out, &name, p.can_add_expenses, f3, Ghost(*p), Ghost(3));
    let mut name: Vec<u8> = Vec::new();
    name.push(101);
    name.push(101);
    proof {
        assert(name@ =~= perm_name(4));
    }
    let f5 = push_perm_field(&mut out, &name, p.can_edit_expenses, f4, Ghost(*p), Ghost(4));
    proof {
        assert(spec_perm_fields(*p, 5, f5) =~= Seq::<u8>::empty());
        assert(out@ + spec_perm_fields(*p, 5, f5) =~= out@);
        assert(o0 =~= seq![123u8]);
        assert(out@ =~= seq![123u8] + spec_perm_fields(*p, 0, true));
    }
    out.push(125);
    proof {
        assert(out@ =~= seq![123u8] + spec_perm_fields(*p, 0, true) + seq![125u8]);
    }
    out
}

/// The compact JSON claims blob the codec signs.
pub fn encode_claims(c: &Claims) -> (r: Vec<u8>)
    ensures
        r@ == spec_encode_claims(*c),
{
    let mut out: Vec<u8> = Vec::new();
    out.push(123);
    out.push(34);
    out.push(103);
    out.push(34);
    out.push(58);
    out.push(34);
    let mut idb = id_str_bytes(c.group_id);
    out.append(&mut idb);
    out.push(34);
    out.push(44);
    out.push(34);
    out.push(101);
    out.push(120);
    out.push(112);
    out.push(34);
    out.push(58);
    let mut expb = dec_u64_bytes(c.exp);
    out.append(&mut expb);
    match &c.permissions {
        Some(p) => {
            out.push(44);
            out.push(34);
            out.push(112);
            out.push(34);
            out.push(58);
            let mut pb = encode_perms(p);
            out.append(&mut pb);
        },
        None => {},
    }
    out.push(125);
    proof {
        assert(out@ =~= spec_encode_claims(*c));
    }
    out
}

} // verus!
