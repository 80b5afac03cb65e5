//! The codec round trip: the claims blob the encoder emits is decoded back
//! to the same claims (with the capability fields a present set left unset
//! resolved to granted, as the decoder always does).
//!
//! The lemmas here walk the decoder through the encoder's output piece by
//! piece: the quoted id, the decimal expiry, then each rendered capability
//! field in order.

use vstd::prelude::*;

use crate::caps::Permissions;
use crate::claims::{
    Claims, bool_lit, kb_exp, kb_g, kb_p, perm_field, perm_name, perm_opt, spec_dec_digits,
    spec_dec_u64, spec_encode_claims, spec_encode_perms, spec_perm_fields, kb_group_id,
};
use crate::b64::{lemma_b64_round_trip, lemma_b64u_encode_ascii, spec_b64u_decode, spec_b64u_encode};
use crate::hexid::{lemma_id_round_trip, spec_id_str, spec_parse_id};
use crate::token::{VerifyError, ascii_chars, header_json, hs256_tag, sp_last_dot, spec_message, spec_token, spec_validate};
use crate::parse::{
    PartialClaims, claims_normalize, is_digit, lemma_dec_round_trip, perms_finalize, perms_unseen,
    sp_bool_at, sp_claim_pairs, sp_claim_value, sp_dec_acc, sp_digits_end, sp_exp_at, sp_key_code,
    sp_perm_pairs, sp_perm_value, sp_perms_at, sp_str_end, spec_parse_claims,
};

verus! {

/// A quote after a run of bytes that are neither quote nor backslash is the
/// closing quote the scanner finds.
proof fn lemma_str_end_region(s: Seq<u8>, a: int, b: int)
    requires
        0 <= a <= b < s.len(),
        forall|x: int| a <= x < b ==> #[trigger] s[x] != 34 && s[x] != 92,
        s[b] == 34,
    ensures
        sp_str_end(s, a) == Some(b),
    decreases b - a,
{
    if a < b {
        lemma_str_end_region(s, a + 1, b);
    }
}

/// A run of digits ending at a non-digit (or at the buffer's end) is
/// exactly what the digit scanner passes over.
proof fn lemma_digits_end_region(s: Seq<u8>, a: int, b: int)
    requires
        0 <= a <= b <= s.len(),
        forall|x: int| a <= x < b ==> is_digit(#[trigger] s[x]),
        b == s.len() || !is_digit(s[b]),
    ensures
        sp_digits_end(s, a) == b,
    decreases b - a,
{
    if a < b {
        lemma_digits_end_region(s, a + 1, b);
    }
}

/// The digits' value only depends on the bytes in the window, wherever the
/// window sits.
proof fn lemma_dec_acc_shift(s: Seq<u8>, a: int, b: int, t: Seq<u8>)
    requires
        0 <= a <= b,
        b - a <= t.len(),
        forall|x: int| 0 <= x < b - a ==> t[x] == s[a + x],
    ensures
        sp_dec_acc(s, a, b) == sp_dec_acc(t, 0, b - a),
    decreases b - a,
{
    if b > a {
        lemma_dec_acc_shift(s, a, b - 1, t);
    }
}

/// Rendered decimals are digit runs, never empty, and (beyond a lone zero)
/// never led by a zero.
proof fn lemma_dec_digits_shape(v: int)
    requires
        v >= 1,
    ensures
        spec_dec_digits(v).len() >= 1,
        forall|x: int| 0 <= x < spec_dec_digits(v).len() ==> is_digit(
            #[trigger] spec_dec_digits(v)[x],
        ),
        spec_dec_digits(v)[0] != 48,
    decreases v,
{
    vstd::arithmetic::div_mod::lemma_mod_division_less_than_divisor(v, 10);
    if v < 10 {
        assert(spec_dec_digits(v / 10) =~= Seq::<u8>::empty()) by {
            vstd::arithmetic::div_mod::lemma_basic_div(v, 10);
        }
        assert(spec_dec_digits(v) =~= seq![(48 + v % 10) as u8]);
        vstd::arithmetic::div_mod::lemma_small_mod(v as nat, 10);
    } else {
        vstd::arithmetic::div_mod::lemma_div_pos_is_pos(v, 10);
        vstd::arithmetic::div_mod::lemma_div_is_ordered(10, v, 10);
        vstd::arithmetic::div_mod::lemma_div_by_self(10);
        lemma_dec_digits_shape(v / 10);
    }
}

/// The shape of any rendered expiry: digits, at least one, a leading zero
/// only for the lone zero.
proof fn lemma_dec_u64_shape(v: u64)
    ensures
        spec_dec_u64(v).len() >= 1,
        forall|x: int| 0 <= x < spec_dec_u64(v).len() ==> is_digit(#[trigger] spec_dec_u64(v)[x]),
        spec_dec_u64(v)[0] == 48 ==> spec_dec_u64(v).len() == 1,
{
    if v == 0 {
    } else {
        lemma_dec_digits_shape(v as int);
    }
}

/// The fields a parser has set after reading the first `k`: the set's own
/// values below `k`, nothing yet above.
pub open spec fn merge_upto(p: Permissions, k: int) -> Permissions {
    Permissions {
        can_delete_group: if 0 < k {
            p.can_delete_group
        } else {
            None
        },
        can_manage_members: if 1 < k {
            p.can_manage_members
        } else {
            None
        },
        can_update_payment: if 2 < k {
            p.can_update_payment
        } else {
            None
        },
        can_add_expenses: if 3 < k {
            p.can_add_expenses
        } else {
            None
        },
        can_edit_expenses: if 4 < k {
            p.can_edit_expenses
        } else {
            None
        },
    }
}

/// Rendering with a comma owed is a comma and the rendering without one —
/// or nothing at all when nothing is rendered.
proof fn lemma_fields_comma(p: Permissions, k: int)
    requires
        0 <= k <= 5,
    ensures
        spec_perm_fields(p, k, false) == if spec_perm_fields(p, k, true).len() == 0 {
            Seq::<u8>::empty()
        } else {
            seq![44u8] + spec_perm_fields(p, k, true)
        },
    decreases 5 - k,
{
    if k < 5 {
        match perm_opt(p, k) {
            None => {
                lemma_fields_comma(p, k + 1);
            },
            Some(b) => {
                assert(seq![44u8] + (perm_field(perm_name(k), b) + spec_perm_fields(p, k + 1, false))
                    =~= (seq![44u8] + perm_field(perm_name(k), b)) + spec_perm_fields(
                    p,
                    k + 1,
                    false,
                ));
                assert(Seq::<u8>::empty() + perm_field(perm_name(k), b) =~= perm_field(
                    perm_name(k),
                    b,
                ));
            },
        }
    }
}

/// Nothing is rendered exactly when every field from `k` on is unset.
proof fn lemma_fields_empty(p: Permissions, k: int)
    requires
        0 <= k <= 5,
    ensures
        spec_perm_fields(p, k, true).len() == 0 <==> (forall|f: int|
            k <= f < 5 ==> perm_opt(p, f) is None),
    decreases 5 - k,
{
    if k < 5 {
        lemma_fields_empty(p, k + 1);
        match perm_opt(p, k) {
            None => {},
            Some(b) => {
                assert(perm_field(perm_name(k), b).len() > 0);
            },
        }
    }
}

/// When every field from `k` on is unset, resolving the partially-read
/// state resolves the whole set.
proof fn lemma_finalize_of_merge(p: Permissions, k: int)
    requires
        0 <= k <= 5,
        forall|f: int| k <= f < 5 ==> perm_opt(p, f) is None,
    ensures
        perms_finalize(merge_upto(p, k)) == perms_finalize(p),
{
    if k <= 0 {
        assert(perm_opt(p, 0) is None);
    }
    if k <= 1 {
        assert(perm_opt(p, 1) is None);
    }
    if k <= 2 {
        assert(perm_opt(p, 2) is None);
    }
    if k <= 3 {
        assert(perm_opt(p, 3) is None);
    }
    if k <= 4 {
        assert(perm_opt(p, 4) is None);
    }
}

/// Walking the decoder over the fields rendered from `k` on (none yet set
/// in the state) ends at the object's closing brace with every field of the
/// set resolved.
#[verifier::rlimit(60)]
proof fn lemma_perm_fields_parse(s: Seq<u8>, pos: int, p: Permissions, k: int, fuel: nat)
    requires
        0 <= k < 5,
        spec_perm_fields(p, k, true).len() > 0,
        0 <= pos,
        pos + spec_perm_fields(p, k, true).len() + 1 <= s.len(),
        forall|x: int| 0 <= x < spec_perm_fields(p, k, true).len() ==> #[trigger] s[pos + x]
            == spec_perm_fields(p, k, true)[x],
        s[pos + spec_perm_fields(p, k, true).len()] == 125,
        fuel >= 6 - k,
    ensures
        sp_perm_pairs(s, pos, merge_upto(p, k), fuel) == Some(
            (perms_finalize(p), pos + spec_perm_fields(p, k, true).len() + 1),
        ),
    decreases 5 - k,
{
    let flds = spec_perm_fields(p, k, true);
    let st = merge_upto(p, k);
    match perm_opt(p, k) {
        None => {
            assert(flds == spec_perm_fields(p, k + 1, true));
            assert(k + 1 < 5) by {
                lemma_fields_empty(p, k + 1);
            }
            assert(st == merge_upto(p, k + 1));
            lemma_perm_fields_parse(s, pos, p, k + 1, fuel);
        },
        Some(b) => {
            let name = perm_name(k);
            let pf = perm_field(name, b);
            let rest = spec_perm_fields(p, k + 1, false);
            assert(flds == pf + rest);
            assert(name.len() == 2);
            assert(pf =~= seq![34u8] + name + seq![34u8, 58u8] + bool_lit(b));
            assert(pf.len() == 5 + bool_lit(b).len());
            // The key and its separator.
            assert(s[pos + 0] == flds[0]);
            assert(flds[0] == 34);
            assert(s[pos] == 34);
            assert(s[pos + 1] == name[0] && s[pos + 2] == name[1]);
            assert(s[pos + 3] == 34 && s[pos + 4] == 58);
            assert(name[0] != 34 && name[0] != 92 && name[1] != 34 && name[1] != 92);
            assert forall|x: int| pos + 1 <= x < pos + 3 implies #[trigger] s[x] != 34 && s[x]
                != 92 by {
                if x == pos + 1 {
                } else {
                    assert(x == pos + 2);
                }
            }
            lemma_str_end_region(s, pos + 1, pos + 3);
            let key = s.subrange(pos + 1, pos + 3);
            assert(key =~= name);
            assert(sp_key_code(key) == k + 5);
            // The boolean value.
            let vpos = pos + 5;
            assert forall|x: int| 0 <= x < bool_lit(b).len() implies #[trigger] s[vpos + x]
                == bool_lit(b)[x] by {
                assert(s[pos + (5 + x)] == flds[5 + x]);
                assert(flds[5 + x] == pf[5 + x]);
            }
            assert(sp_bool_at(s, vpos) == Some((b, vpos + bool_lit(b).len() as int))) by {
                if b {
                    assert(s[vpos] == 116 && s[vpos + 1] == 114 && s[vpos + 2] == 117 && s[vpos
                        + 3] == 101);
                } else {
                    assert(s[vpos] == 102 && s[vpos + 1] == 97 && s[vpos + 2] == 108 && s[vpos + 3]
                        == 115 && s[vpos + 4] == 101);
                }
            }
            let st2 = merge_upto(p, k + 1);
            assert(sp_perm_value(s, vpos, k + 5, st) == Some(
                (st2, vpos + bool_lit(b).len() as int),
            ));
            let np = pos + pf.len() as int;
            assert(np == vpos + bool_lit(b).len());
            lemma_fields_comma(p, k + 1);
            if rest.len() == 0 {
                assert(flds =~= pf);
                assert(s[np] == 125);
                lemma_fields_empty(p, k + 1);
                lemma_finalize_of_merge(p, k + 1);
                assert(sp_perm_pairs(s, pos, st, fuel) == Some((perms_finalize(p), np + 1)));
            } else {
                let tail = spec_perm_fields(p, k + 1, true);
                assert(rest == seq![44u8] + tail);
                assert(tail.len() > 0);
                assert(k + 1 < 5) by {
                    lemma_fields_empty(p, k + 1);
                }
                assert(s[np] == flds[pf.len() as int]);
                assert(flds[pf.len() as int] == rest[0]);
                assert(s[np] == 44);
                assert forall|x: int| 0 <= x < tail.len() implies #[trigger] s[np + 1 + x]
                    == tail[x] by {
                    assert(s[pos + (pf.len() + 1 + x)] == flds[pf.len() + 1 + x]);
                    assert(flds[pf.len() + 1 + x] == rest[1 + x]);
                }
                assert(pos + flds.len() == np + 1 + tail.len());
                lemma_perm_fields_parse(s, np + 1, p, k + 1, (fuel - 1) as nat);
                assert(sp_perm_pairs(s, np + 1, st2, (fuel - 1) as nat) == Some(
                    (perms_finalize(p), np + 1 + tail.len() + 1),
                ));
                assert(sp_perm_pairs(s, pos, st, fuel) == Some(
                    (perms_finalize(p), pos + flds.len() + 1),
                ));
            }
        },
    }
}

/// The decoder reads an encoded capability object back as the same set,
/// every field resolved.
proof fn lemma_perms_obj_parse(s: Seq<u8>, q: int, p: Permissions)
    requires
        0 <= q,
        q + spec_encode_perms(p).len() <= s.len(),
        forall|x: int| 0 <= x < spec_encode_perms(p).len() ==> #[trigger] s[q + x]
            == spec_encode_perms(p)[x],
        s.len() >= 6,
    ensures
        sp_perms_at(s, q) == Some((perms_finalize(p), q + spec_encode_perms(p).len())),
{
    let enc = spec_encode_perms(p);
    let flds = spec_perm_fields(p, 0, true);
    assert(enc == seq![123u8] + flds + seq![125u8]);
    assert(enc.len() == flds.len() + 2);
    assert(s[q + 0] == enc[0]);
    assert(enc[0] == 123);
    assert(s[q] == 123);
    assert(s[q + 1] == enc[1]);
    lemma_fields_empty(p, 0);
    if flds.len() == 0 {
        assert(enc[1] == 125);
        assert(perms_unseen() == merge_upto(p, 0));
        lemma_finalize_of_merge(p, 0);
        assert(sp_perms_at(s, q) == Some((perms_finalize(p), q + 2)));
    } else {
        assert(enc[1] == flds[0]);
        assert(flds[0] == 34) by {
            let k0 = choose|f: int| 0 <= f < 5 && !(perm_opt(p, f) is None);
            lemma_first_rendered_is_a_quote(p, 0);
        }
        assert(s[q + 1] != 125);
        assert forall|x: int| 0 <= x < flds.len() implies #[trigger] s[q + 1 + x] == flds[x] by {
            assert(s[q + (1 + x)] == enc[1 + x]);
            assert(enc[1 + x] == flds[x]);
        }
        assert(s[q + (1 + flds.len() as int)] == enc[1 + flds.len() as int]);
        assert(enc[1 + flds.len() as int] == 125);
        assert(s[q + 1 + flds.len()] == 125);
        assert(perms_unseen() == merge_upto(p, 0));
        assert(s.len() as nat >= 6);
        lemma_perm_fields_parse(s, q + 1, p, 0, s.len() as nat);
        assert(sp_perms_at(s, q) == Some((perms_finalize(p), q + 1 + flds.len() + 1)));
    }
}

/// A non-empty rendering starts with the quote of its first key.
proof fn lemma_first_rendered_is_a_quote(p: Permissions, k: int)
    requires
        0 <= k <= 5,
        spec_perm_fields(p, k, true).len() > 0,
    ensures
        spec_perm_fields(p, k, true)[0] == 34,
    decreases 5 - k,
{
    if k < 5 {
        match perm_opt(p, k) {
            None => {
                lemma_first_rendered_is_a_quote(p, k + 1);
            },
            Some(b) => {},
        }
    }
}


/// The round trip for claims without a capability set.
#[verifier::rlimit(100)]
proof fn lemma_claims_round_trip_bare(c: Claims)
    requires
        c.permissions is None,
    ensures
        spec_parse_claims(spec_encode_claims(c)) == Some(claims_normalize(c)),
{
    let s = spec_encode_claims(c);
    let lit6 = seq![123u8, 34u8, 103u8, 34u8, 58u8, 34u8];
    let uid = spec_id_str(c.group_id);
    let lit8 = seq![34u8, 44u8, 34u8, 101u8, 120u8, 112u8, 34u8, 58u8];
    let dec = spec_dec_u64(c.exp);
    let dl = dec.len() as int;
    let popt = match c.permissions {
        Some(p) => seq![44u8, 34u8, 112u8, 34u8, 58u8] + spec_encode_perms(p),
        None => Seq::<u8>::empty(),
    };
    assert(s == lit6 + uid + lit8 + dec + popt + seq![125u8]);
    assert(uid.len() == 36);
    lemma_dec_u64_shape(c.exp);
    assert(s.len() == 51 + dl + popt.len());

    // The leading literal, the quoted id, and the expiry key, byte by byte.
    assert(s[0] == 123 && s[1] == 34 && s[2] == 103 && s[3] == 34 && s[4] == 58 && s[5] == 34);
    assert forall|x: int| 0 <= x < 36 implies #[trigger] s[6 + x] == uid[x] by {
        assert((lit6 + uid)[6 + x] == uid[x]);
    }
    assert forall|x: int| 0 <= x < 8 implies #[trigger] s[42 + x] == lit8[x] by {
        assert(((lit6 + uid) + lit8)[42 + x] == lit8[x]);
    }
    assert forall|x: int| 0 <= x < dl implies #[trigger] s[50 + x] == dec[x] by {
        assert((((lit6 + uid) + lit8) + dec)[50 + x] == dec[x]);
    }
    assert(s[42] == 34 && s[43] == 44 && s[44] == 34 && s[45] == 101 && s[46] == 120 && s[47]
        == 112 && s[48] == 34 && s[49] == 58) by {
        assert(s[42 + 0int] == lit8[0]);
        assert(s[42 + 1int] == lit8[1]);
        assert(s[42 + 2int] == lit8[2]);
        assert(s[42 + 3int] == lit8[3]);
        assert(s[42 + 4int] == lit8[4]);
        assert(s[42 + 5int] == lit8[5]);
        assert(s[42 + 6int] == lit8[6]);
        assert(s[42 + 7int] == lit8[7]);
    }

    let st0 = PartialClaims { group_id: None, exp: None, permissions: None };
    let fuel0 = s.len() as nat;
    assert(spec_parse_claims(s) == sp_claim_pairs(s, 1, st0, fuel0));

    // First pair: the group id.
    lemma_str_end_region(s, 2, 3);
    let key1 = s.subrange(2, 3);
    assert(key1 =~= kb_g());
    assert(sp_key_code(key1) == 0);
    assert(s.subrange(6, 42) =~= uid);
    lemma_id_round_trip(c.group_id);
    assert(spec_parse_id(s.subrange(6, 42)) == Some(c.group_id));
    let st1 = PartialClaims { group_id: Some(c.group_id), exp: None, permissions: None };
    assert(sp_claim_value(s, 5, 0, st0) == Some((st1, 43int)));
    assert(sp_claim_pairs(s, 1, st0, fuel0) == sp_claim_pairs(s, 44, st1, (fuel0 - 1) as nat));

    // Second pair: the expiry.
    lemma_str_end_region(s, 45, 48);
    let key2 = s.subrange(45, 48);
    assert(key2 =~= kb_exp());
    assert(kb_g().len() == 1 && kb_group_id().len() == 8 && kb_exp().len() == 3);
    assert(sp_key_code(key2) == 2);
    assert(!is_digit(s[50 + dl])) by {
        if popt.len() == 0 {
            assert(s[50 + dl] == 125);
        } else {
            assert(s[50 + dl] == popt[0]);
            assert(popt[0] == 44);
        }
    }
    lemma_digits_end_region(s, 50, 50 + dl);
    assert(sp_digits_end(s, 50) == 50 + dl);
    if s[50] == 48 {
        assert(dec[0] == 48) by {
            assert(s[50 + 0int] == dec[0]);
        }
        assert(dl == 1);
    }
    lemma_dec_acc_shift(s, 50, 50 + dl, dec);
    lemma_dec_round_trip(c.exp);
    assert(sp_dec_acc(s, 50, 50 + dl) == c.exp as int);
    assert(sp_exp_at(s, 50) == Some((c.exp, 50 + dl)));
    let st2 = PartialClaims { group_id: Some(c.group_id), exp: Some(c.exp), permissions: None };
    assert(sp_claim_value(s, 50, 2, st1) == Some((st2, 50 + dl)));
    let np = 50 + dl;

    assert(popt.len() == 0);
    assert(s[np] == 125);
    assert(np + 1 == s.len());
    assert(s[np] != 44);
    assert(sp_claim_pairs(s, 44, st1, (fuel0 - 1) as nat) == Some(
        Claims { group_id: c.group_id, exp: c.exp, permissions: None },
    ));
    assert(claims_normalize(c) == Claims {
        group_id: c.group_id,
        exp: c.exp,
        permissions: None,
    });
}

/// The round trip for claims carrying a capability set.
#[verifier::rlimit(100)]
proof fn lemma_claims_round_trip_caps(c: Claims, p: Permissions)
    requires
        c.permissions == Some(p),
    ensures
        spec_parse_claims(spec_encode_claims(c)) == Some(claims_normalize(c)),
{
    let s = spec_encode_claims(c);
    let lit6 = seq![123u8, 34u8, 103u8, 34u8, 58u8, 34u8];
    let uid = spec_id_str(c.group_id);
    let lit8 = seq![34u8, 44u8, 34u8, 101u8, 120u8, 112u8, 34u8, 58u8];
    let dec = spec_dec_u64(c.exp);
    let dl = dec.len() as int;
    let popt = match c.permissions {
        Some(p) => seq![44u8, 34u8, 112u8, 34u8, 58u8] + spec_encode_perms(p),
        None => Seq::<u8>::empty(),
    };
    assert(s == lit6 + uid + lit8 + dec + popt + seq![125u8]);
    assert(uid.len() == 36);
    lemma_dec_u64_shape(c.exp);
    assert(s.len() == 51 + dl + popt.len());

    // The leading literal, the quoted id, and the expiry key, byte by byte.
    assert(s[0] == 123 && s[1] == 34 && s[2] == 103 && s[3] == 34 && s[4] == 58 && s[5] == 34);
    assert forall|x: int| 0 <= x < 36 implies #[trigger] s[6 + x] == uid[x] by {
        assert((lit6 + uid)[6 + x] == uid[x]);
    }
    assert forall|x: int| 0 <= x < 8 implies #[trigger] s[42 + x] == lit8[x] by {
        assert(((lit6 + uid) + lit8)[42 + x] == lit8[x]);
    }
    assert forall|x: int| 0 <= x < dl implies #[trigger] s[50 + x] == dec[x] by {
        assert((((lit6 + uid) + lit8) + dec)[50 + x] == dec[x]);
    }
    assert(s[42] == 34 && s[43] == 44 && s[44] == 34 && s[45] == 101 && s[46] == 120 && s[47]
        == 112 && s[48] == 34 && s[49] == 58) by {
        assert(s[42 + 0int] == lit8[0]);
        assert(s[42 + 1int] == lit8[1]);
        assert(s[42 + 2int] == lit8[2]);
        assert(s[42 + 3int] == lit8[3]);
        assert(s[42 + 4int] == lit8[4]);
        assert(s[42 + 5int] == lit8[5]);
        assert(s[42 + 6int] == lit8[6]);
        assert(s[42 + 7int] == lit8[7]);
    }

    let st0 = PartialClaims { group_id: None, exp: None, permissions: None };
    let fuel0 = s.len() as nat;
    assert(spec_parse_claims(s) == sp_claim_pairs(s, 1, st0, fuel0));

    // First pair: the group id.
    lemma_str_end_region(s, 2, 3);
    let key1 = s.subrange(2, 3);
    assert(key1 =~= kb_g());
    assert(sp_key_code(key1) == 0);
    assert(s.subrange(6, 42) =~= uid);
    lemma_id_round_trip(c.group_id);
    assert(spec_parse_id(s.subrange(6, 42)) == Some(c.group_id));
    let st1 = PartialClaims { group_id: Some(c.group_id), exp: None, permissions: None };
    assert(sp_claim_value(s, 5, 0, st0) == Some((st1, 43int)));
    assert(sp_claim_pairs(s, 1, st0, fuel0) == sp_claim_pairs(s, 44, st1, (fuel0 - 1) as nat));

    // Second pair: the expiry.
    lemma_str_end_region(s, 45, 48);
    let key2 = s.subrange(45, 48);
    assert(key2 =~= kb_exp());
    assert(kb_g().len() == 1 && kb_group_id().len() == 8 && kb_exp().len() == 3);
    assert(sp_key_code(key2) == 2);
    assert(!is_digit(s[50 + dl])) by {
        if popt.len() == 0 {
            assert(s[50 + dl] == 125);
        } else {
            assert(s[50 + dl] == popt[0]);
            assert(popt[0] == 44);
        }
    }
    lemma_digits_end_region(s, 50, 50 + dl);
    assert(sp_digits_end(s, 50) == 50 + dl);
    if s[50] == 48 {
        assert(dec[0] == 48) by {
            assert(s[50 + 0int] == dec[0]);
        }
        assert(dl == 1);
    }
    lemma_dec_acc_shift(s, 50, 50 + dl, dec);
    lemma_dec_round_trip(c.exp);
    assert(sp_dec_acc(s, 50, 50 + dl) == c.exp as int);
    assert(sp_exp_at(s, 50) == Some((c.exp, 50 + dl)));
    let st2 = PartialClaims { group_id: Some(c.group_id), exp: Some(c.exp), permissions: None };
    assert(sp_claim_value(s, 50, 2, st1) == Some((st2, 50 + dl)));
    let np = 50 + dl;

    let lit5p = seq![44u8, 34u8, 112u8, 34u8, 58u8];
    let pe = spec_encode_perms(p);
    assert(popt == lit5p + pe);
    assert forall|x: int| 0 <= x < popt.len() implies #[trigger] s[np + x] == popt[x] by {
        assert(((((lit6 + uid) + lit8) + dec) + popt)[np + x] == popt[x]);
    }
    assert(s[np] == 44 && s[np + 1] == 34 && s[np + 2] == 112 && s[np + 3] == 34 && s[np
        + 4] == 58) by {
        assert(s[np + 0] == popt[0]);
        assert(s[np + 1] == popt[1]);
        assert(s[np + 2] == popt[2]);
        assert(s[np + 3] == popt[3]);
        assert(s[np + 4] == popt[4]);
    }
    assert(sp_claim_pairs(s, 44, st1, (fuel0 - 1) as nat) == sp_claim_pairs(
        s,
        np + 1,
        st2,
        (fuel0 - 2) as nat,
    ));
    lemma_str_end_region(s, np + 2, np + 3);
    let key3 = s.subrange(np + 2, np + 3);
    assert(key3 =~= kb_p());
    assert(key3 != kb_g()) by {
        assert(kb_p()[0] == 112);
        assert(kb_g()[0] == 103);
    }
    assert(kb_group_id().len() == 8 && kb_exp().len() == 3 && kb_p().len() == 1);
    assert(sp_key_code(key3) == 3);
    assert forall|x: int| 0 <= x < pe.len() implies #[trigger] s[np + 5 + x] == pe[x] by {
        assert(s[np + (5 + x)] == popt[5 + x]);
        assert(popt[5 + x] == pe[x]);
    }
    assert(s.len() >= 6);
    lemma_perms_obj_parse(s, np + 5, p);
    let np2 = np + 5 + pe.len() as int;
    assert(sp_perms_at(s, np + 5) == Some((perms_finalize(p), np2)));
    let st3 = PartialClaims {
        group_id: Some(c.group_id),
        exp: Some(c.exp),
        permissions: Some(perms_finalize(p)),
    };
    assert(sp_claim_value(s, np + 5, 3, st2) == Some((st3, np2)));
    assert(np2 + 1 == s.len());
    assert(s[np2] == 125) by {
        assert(s[np + (5 + pe.len() as int - 1)] == popt[5 + pe.len() as int - 1]);
        assert(popt.len() == 5 + pe.len());
        assert(np2 == s.len() - 1);
        assert((lit6 + uid + lit8 + dec + popt + seq![125u8])[s.len() - 1] == 125);
    }
    assert(s[np2] != 44);
    assert(sp_claim_pairs(s, np + 1, st2, (fuel0 - 2) as nat) == Some(
        Claims {
            group_id: c.group_id,
            exp: c.exp,
            permissions: Some(perms_finalize(p)),
        },
    ));
}

/// The codec round trip: the blob the encoder emits for any claims value
/// decodes back to that value, with a present capability set's fields all
/// resolved (an unset field means granted, so resolution loses nothing).
pub proof fn lemma_claims_round_trip(c: Claims)
    ensures
        spec_parse_claims(spec_encode_claims(c)) == Some(claims_normalize(c)),
{
    match c.permissions {
        None => lemma_claims_round_trip_bare(c),
        Some(p) => lemma_claims_round_trip_caps(c, p),
    }
}

/// A dot with no dot after it (up to `upto`) is the last dot.
proof fn lemma_last_dot_region(s: Seq<u8>, b: int, upto: int)
    requires
        0 <= b < upto <= s.len(),
        s[b] == 46,
        forall|x: int| b < x < upto ==> #[trigger] s[x] != 46,
    ensures
        sp_last_dot(s, upto) == b,
    decreases upto - b,
{
    if upto > b + 1 {
        lemma_last_dot_region(s, b, upto - 1);
    }
}

/// What verifying the canonical token of a claims value yields, at any
/// instant: the claims themselves (fields of a present capability set
/// resolved) until the expiry has passed, `Expired` after. Holds whenever
/// the signature tag is drawn from a dot-free ASCII alphabet, as the
/// signing routine's is.
pub(crate) proof fn lemma_token_validates(key: Seq<u8>, c: Claims, now2: u64)
    requires
        forall|i: int| 0 <= i < hs256_tag(key, spec_message(c)).len() ==> '\0'
            <= #[trigger] hs256_tag(key, spec_message(c))[i] <= '\u{7f}',
        forall|i: int| 0 <= i < hs256_tag(key, spec_message(c)).len()
            ==> #[trigger] hs256_tag(key, spec_message(c))[i] != '.',
    ensures
        spec_validate(key, spec_token(key, c), now2) == if c.exp < now2 {
            Err::<Claims, VerifyError>(VerifyError::Expired)
        } else {
            Ok::<Claims, VerifyError>(claims_normalize(c))
        },
{
    let msg = spec_message(c);
    let tag = hs256_tag(key, msg);
    let token = spec_token(key, c);
    let bh = spec_b64u_encode(header_json());
    let bp = spec_b64u_encode(spec_encode_claims(c));
    lemma_b64u_encode_ascii(header_json());
    lemma_b64u_encode_ascii(spec_encode_claims(c));
    assert(msg == bh + seq![46u8] + bp);
    assert forall|x: int| 0 <= x < msg.len() implies #[trigger] msg[x] < 128 && (x != bh.len()
        ==> msg[x] != 46) by {
        if x < bh.len() {
            assert(msg[x] == bh[x]);
        } else if x == bh.len() {
            assert(msg[x] == 46);
        } else {
            assert(msg[x] == bp[x - bh.len() - 1]);
        }
    }
    assert(msg[bh.len() as int] == 46);

    // The token is ASCII, so its bytes are its characters.
    assert(token == ascii_chars(msg) + seq!['.'] + tag);
    assert forall|i: int| 0 <= i < token.len() implies '\0' <= #[trigger] token[i]
        <= '\u{7f}' by {
        if i < msg.len() {
            assert(token[i] == ascii_chars(msg)[i]);
            assert(ascii_chars(msg)[i] == msg[i] as char);
        } else if i == msg.len() {
            assert(token[i] == '.');
        } else {
            assert(token[i] == tag[i - msg.len() - 1]);
        }
    }
    assert(vstd::utf8::is_ascii_chars(token));
    let bytes = token.map(|i: int, ch: char| ch as u8);
    assert(bytes.len() == token.len());
    assert forall|x: int| 0 <= x < msg.len() implies #[trigger] bytes[x] == msg[x] by {
        assert(token[x] == ascii_chars(msg)[x]);
        assert(ascii_chars(msg)[x] == msg[x] as char);
        assert(bytes[x] == token[x] as u8);
    }
    assert(bytes[msg.len() as int] == 46) by {
        assert(token[msg.len() as int] == '.');
    }
    assert forall|x: int| msg.len() < x < bytes.len() implies #[trigger] bytes[x] != 46 by {
        assert(token[x] == tag[x - msg.len() - 1]);
        assert(token[x] != '.');
        assert('\0' <= token[x] <= '\u{7f}');
        if bytes[x] == 46 {
            assert(token[x] as u8 == '.' as u8);
        }
    }

    // The two separating dots.
    lemma_last_dot_region(bytes, msg.len() as int, bytes.len() as int);
    let d2 = msg.len() as int;
    assert(sp_last_dot(bytes, bytes.len() as int) == d2);
    assert forall|x: int| (bh.len() as int) < x < d2 implies #[trigger] bytes[x] != 46 by {
        assert(bytes[x] == msg[x]);
    }
    assert(bytes[bh.len() as int] == 46);
    lemma_last_dot_region(bytes, bh.len() as int, d2);
    let d1 = bh.len() as int;

    // The signature is the tag itself.
    assert(bytes.subrange(0, d2) =~= msg);
    assert(token.subrange(d2 + 1, token.len() as int) =~= tag);
    assert(hs256_tag(key, bytes.subrange(0, d2)) == tag);

    // The claims blob round-trips.
    assert(bytes.subrange(d1 + 1, d2) =~= bp) by {
        assert forall|x: int| 0 <= x < bp.len() implies #[trigger] bytes[d1 + 1 + x]
            == bp[x] by {
            assert(bytes[d1 + 1 + x] == msg[d1 + 1 + x]);
            assert(msg[d1 + 1 + x] == bp[x]);
        }
    }
    lemma_b64_round_trip(spec_encode_claims(c));
    assert(spec_b64u_decode(bytes.subrange(d1 + 1, d2)) == Some(spec_encode_claims(c)));
    lemma_claims_round_trip(c);
    assert(claims_normalize(c).exp == c.exp);
}

} // verus!
