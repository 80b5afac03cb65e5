//! The claims decoder: a recursive-descent reader of the machine-emitted
//! JSON claims blob.
//!
//! Grammar accepted: one object of `"key":value` pairs without whitespace,
//! as serializers emit it. The group id is a quoted hyphenated hex id, the
//! expiry a plain decimal, the capability set a nested object of booleans.
//! Both the compact and the long-form field names are accepted, in any
//! order; a duplicate of a known field is rejected; an unknown field is
//! skipped when its value is a string, number, boolean or null. Within the
//! capability object a missing field resolves to granted, as old tokens
//! expect.

use vstd::prelude::*;

use crate::caps::Permissions;
use crate::caps::resolve_flag;
use crate::claims::{
    Claims, spec_dec_digits, spec_dec_u64, kb_ae, kb_can_add_expenses, kb_can_delete_group, kb_can_edit_expenses,
    kb_can_manage_members, kb_can_update_payment, kb_dg, kb_ee, kb_exp, kb_g, kb_group_id, kb_mm,
    kb_p, kb_permissions, kb_up,
};
use crate::hexid::{parse_id_at, spec_parse_id};

verus! {

pub open spec fn is_digit(c: u8) -> bool {
    48 <= c <= 57
}

/// Characters that may continue a JSON number being skipped.
pub open spec fn is_numch(c: u8) -> bool {
    is_digit(c) || c == 45 || c == 43 || c == 46 || c == 101 || c == 69
}

/// Index of the quote closing a string whose content starts at `pos`; a
/// backslash escapes the following byte.
pub open spec fn sp_str_end(s: Seq<u8>, pos: int) -> Option<int>
    decreases s.len() - pos,
{
    if pos < 0 || pos >= s.len() {
        None
    } else if s[pos] == 34 {
        Some(pos)
    } else if s[pos] == 92 {
        if pos + 1 < s.len() {
            sp_str_end(s, pos + 2)
        } else {
            None
        }
    } else {
        sp_str_end(s, pos + 1)
    }
}

/// First index at or after `pos` not holding a decimal digit.
pub open spec fn sp_digits_end(s: Seq<u8>, pos: int) -> int
    decreases s.len() - pos,
{
    if pos < 0 || pos >= s.len() {
        pos
    } else if is_digit(s[pos]) {
        sp_digits_end(s, pos + 1)
    } else {
        pos
    }
}

/// First index at or after `pos` not holding a number character.
pub open spec fn sp_numch_end(s: Seq<u8>, pos: int) -> int
    decreases s.len() - pos,
{
    if pos < 0 || pos >= s.len() {
        pos
    } else if is_numch(s[pos]) {
        sp_numch_end(s, pos + 1)
    } else {
        pos
    }
}

/// Everything up to the digits' end is a digit.
pub proof fn lemma_digits_end(s: Seq<u8>, pos: int)
    requires
        0 <= pos <= s.len(),
    ensures
        pos <= sp_digits_end(s, pos) <= s.len(),
        forall|x: int| pos <= x < sp_digits_end(s, pos) ==> is_digit(#[trigger] s[x]),
    decreases s.len() - pos,
{
    if pos < s.len() && is_digit(s[pos]) {
        lemma_digits_end(s, pos + 1);
    }
}

/// Value of the decimal digits in `s[a .. b)`.
pub open spec fn sp_dec_acc(s: Seq<u8>, a: int, b: int) -> int
    decreases b - a,
{
    if b <= a {
        0
    } else {
        sp_dec_acc(s, a, b - 1) * 10 + (s[b - 1] - 48)
    }
}

/// Ten to the `k`-th power.
pub open spec fn pow10(k: nat) -> int
    decreases k,
{
    if k == 0 {
        1
    } else {
        10 * pow10((k - 1) as nat)
    }
}

/// A digit run not starting with zero is worth at least ten to one less
/// than its length.
proof fn lemma_dec_acc_floor(s: Seq<u8>, a: int, b: int)
    requires
        a < b,
        forall|x: int| a <= x < b ==> is_digit(#[trigger] s[x]),
        s[a] != 48,
    ensures
        sp_dec_acc(s, a, b) >= pow10((b - a - 1) as nat),
    decreases b - a,
{
    if b == a + 1 {
    } else {
        lemma_dec_acc_floor(s, a, b - 1);
        assert(sp_dec_acc(s, a, b - 1) * 10 + (s[b - 1] - 48) >= 10 * pow10((b - a - 2) as nat))
            by (nonlinear_arith)
            requires
                sp_dec_acc(s, a, b - 1) >= pow10((b - a - 2) as nat),
                s[b - 1] - 48 >= 0,
        ;
        assert(pow10((b - a - 1) as nat) == 10 * pow10((b - a - 2) as nat));
    }
}

/// Ten to the 20th and 21st, beyond any 64-bit value.
proof fn lemma_pow10_values()
    ensures
        pow10(20) == 100000000000000000000,
        pow10(21) == 1000000000000000000000,
{
    reveal_with_fuel(pow10, 22);
}

/// The expiry value at `pos`: a run of decimal digits without a redundant
/// leading zero, small enough for 64 bits.
pub open spec fn sp_exp_at(s: Seq<u8>, pos: int) -> Option<(u64, int)> {
    let e2 = sp_digits_end(s, pos);
    if e2 > pos && !(s[pos] == 48 && e2 > pos + 1) {
        let val = sp_dec_acc(s, pos, e2);
        if val <= u64::MAX {
            Some(((val as u64), e2))
        } else {
            None
        }
    } else {
        None
    }
}

/// The boolean literal at `pos`.
pub open spec fn sp_bool_at(s: Seq<u8>, pos: int) -> Option<(bool, int)> {
    if pos >= 0 && pos + 4 <= s.len() && s[pos] == 116 && s[pos + 1] == 114 && s[pos + 2] == 117
        && s[pos + 3] == 101 {
        Some((true, pos + 4))
    } else if pos >= 0 && pos + 5 <= s.len() && s[pos] == 102 && s[pos + 1] == 97 && s[pos + 2]
        == 108 && s[pos + 3] == 115 && s[pos + 4] == 101 {
        Some((false, pos + 5))
    } else {
        None
    }
}

/// Position after the unknown value at `pos`: a string, a number, a boolean
/// or null. Container values are not accepted.
pub open spec fn sp_skip_value(s: Seq<u8>, pos: int) -> Option<int> {
    if pos < 0 || pos >= s.len() {
        None
    } else if s[pos] == 34 {
        match sp_str_end(s, pos + 1) {
            Some(e) => Some(e + 1),
            None => None,
        }
    } else if s[pos] == 45 || is_digit(s[pos]) {
        Some(sp_numch_end(s, pos + 1))
    } else if sp_bool_at(s, pos) is Some {
        Some(sp_bool_at(s, pos).unwrap().1)
    } else if pos + 4 <= s.len() && s[pos] == 110 && s[pos + 1] == 117 && s[pos + 2] == 108 && s[
        pos + 3] == 108 {
        Some(pos + 4)
    } else {
        None
    }
}

/// Scan for the quote closing a string whose content starts at `pos`.
fn scan_str_end(v: &Vec<u8>, pos: usize) -> (r: Option<usize>)
    requires
        pos <= v@.len(),
    ensures
        match r {
            Some(e) => sp_str_end(v@, pos as int) == Some(e as int) && pos <= e < v@.len(),
            None => sp_str_end(v@, pos as int) is None,
        },
{
    let n = v.len();
    let mut cur: usize = pos;
    loop
        invariant
            pos <= cur <= n,
            n == v@.len(),
            sp_str_end(v@, pos as int) == sp_str_end(v@, cur as int),
        decreases n - cur,
    {
        if cur >= n {
            return None;
        }
        let c = v[cur];
        if c == 34 {
            return Some(cur);
        }
        if c == 92 {
            if cur + 1 < n {
                cur = cur + 2;
            } else {
                return None;
            }
        } else {
            cur = cur + 1;
        }
    }
}

/// Scan past the decimal digits starting at `pos`.
fn scan_digits_end(v: &Vec<u8>, pos: usize) -> (e: usize)
    requires
        pos <= v@.len(),
    ensures
        e as int == sp_digits_end(v@, pos as int),
        pos <= e <= v@.len(),
{
    let n = v.len();
    let mut cur: usize = pos;
    loop
        invariant
            pos <= cur <= n,
            n == v@.len(),
            sp_digits_end(v@, pos as int) == sp_digits_end(v@, cur as int),
        decreases n - cur,
    {
        if cur >= n {
            return cur;
        }
        let c = v[cur];
        if 48 <= c && c <= 57 {
            cur = cur + 1;
        } else {
            return cur;
        }
    }
}

/// Scan past the number characters starting at `pos`.
fn scan_numch_end(v: &Vec<u8>, pos: usize) -> (e: usize)
    requires
        pos <= v@.len(),
    ensures
        e as int == sp_numch_end(v@, pos as int),
        pos <= e <= v@.len(),
{
    let n = v.len();
    let mut cur: usize = pos;
    loop
        invariant
            pos <= cur <= n,
            n == v@.len(),
            sp_numch_end(v@, pos as int) == sp_numch_end(v@, cur as int),
        decreases n - cur,
    {
        if cur >= n {
            return cur;
        }
        let c = v[cur];
        if (48 <= c && c <= 57) || c == 45 || c == 43 || c == 46 || c == 101 || c == 69 {
            cur = cur + 1;
        } else {
            return cur;
        }
    }
}

/// Read the expiry number at `pos`.
fn parse_exp_at(v: &Vec<u8>, pos: usize) -> (r: Option<(u64, usize)>)
    requires
        pos <= v@.len(),
    ensures
        match r {
            Some(p) => sp_exp_at(v@, pos as int) == Some((p.0, p.1 as int)) && pos < p.1
                <= v@.len(),
            None => sp_exp_at(v@, pos as int) is None,
        },
{
    let e = scan_digits_end(v, pos);
    proof {
        lemma_digits_end(v@, pos as int);
        lemma_pow10_values();
    }
    if e == pos {
        return None;
    }
    if v[pos] == 48 && e > pos + 1 {
        return None;
    }
    if e - pos > 20 {
        proof {
            lemma_dec_acc_floor(v@, pos as int, e as int);
            lemma_pow10_monotone(20, (e - pos - 1) as nat);
        }
        return None;
    }
    let mut acc: u128 = 0;
    let mut j: usize = pos;
    while j < e
        invariant
            pos <= j <= e <= v@.len(),
            e as int == sp_digits_end(v@, pos as int),
            e - pos <= 20,
            forall|x: int| pos <= x < e ==> is_digit(#[trigger] v@[x]),
            acc as int == sp_dec_acc(v@, pos as int, j as int),
            (acc as int) < pow10((j - pos) as nat),
            pow10(20) == 100000000000000000000,
            pow10(21) == 1000000000000000000000,
        decreases e - j,
    {
        proof {
            lemma_pow10_monotone((j - pos + 1) as nat, 20);
            assert(pow10((j - pos + 1) as nat) == 10 * pow10((j - pos) as nat));
            assert((acc as int) * 10 + (v@[j as int] - 48) < 10 * pow10((j - pos) as nat))
                by (nonlinear_arith)
                requires
                    (acc as int) < pow10((j - pos) as nat),
                    v@[j as int] - 48 < 10,
            ;
            assert(0 <= (acc as int) * 10 + (v@[j as int] - 48)) by (nonlinear_arith)
                requires
                    0 <= acc as int,
                    0 <= v@[j as int] - 48,
            ;
        }
        let d = v[j];
        acc = acc * 10 + ((d - 48) as u128);
        j += 1;
    }
    if acc > 0xffffffffffffffff {
        None
    } else {
        Some((acc as u64, e))
    }
}

/// Powers of ten grow with the exponent.
proof fn lemma_pow10_monotone(a: nat, b: nat)
    requires
        a <= b,
    ensures
        pow10(a) <= pow10(b),
        pow10(a) >= 1,
    decreases b,
{
    if a < b {
        lemma_pow10_monotone(a, (b - 1) as nat);
        assert(pow10(b) == 10 * pow10((b - 1) as nat));
        assert(10 * pow10((b - 1) as nat) >= pow10((b - 1) as nat)) by (nonlinear_arith)
            requires
                pow10((b - 1) as nat) >= 1,
        ;
    } else if a == b && a == 0 {
    } else {
        lemma_pow10_monotone((a - 1) as nat, (b - 1) as nat);
        assert(pow10(b) == 10 * pow10((b - 1) as nat));
        assert(10 * pow10((b - 1) as nat) >= 1) by (nonlinear_arith)
            requires
                pow10((b - 1) as nat) >= 1,
        ;
    }
}

/// Read the boolean literal at `pos`.
fn parse_bool_at(v: &Vec<u8>, pos: usize) -> (r: Option<(bool, usize)>)
    requires
        pos <= v@.len(),
    ensures
        match r {
            Some(p) => sp_bool_at(v@, pos as int) == Some((p.0, p.1 as int)) && pos < p.1
                <= v@.len(),
            None => sp_bool_at(v@, pos as int) is None,
        },
{
    let n = v.len();
    if n - pos >= 4 && v[pos] == 116 && v[pos + 1] == 114 && v[pos + 2] == 117 && v[pos + 3]
        == 101 {
        Some((true, pos + 4))
    } else if n - pos >= 5 && v[pos] == 102 && v[pos + 1] == 97 && v[pos + 2] == 108 && v[pos + 3]
        == 115 && v[pos + 4] == 101 {
        Some((false, pos + 5))
    } else {
        None
    }
}

/// Skip the unknown primitive value at `pos`.
fn skip_value_at(v: &Vec<u8>, pos: usize) -> (r: Option<usize>)
    requires
        pos <= v@.len(),
    ensures
        match r {
            Some(np) => sp_skip_value(v@, pos as int) == Some(np as int) && pos < np <= v@.len(),
            None => sp_skip_value(v@, pos as int) is None,
        },
{
    let n = v.len();
    if pos >= n {
        return None;
    }
    let c = v[pos];
    if c == 34 {
        match scan_str_end(v, pos + 1) {
            Some(e) => Some(e + 1),
            None => None,
        }
    } else if c == 45 || (48 <= c && c <= 57) {
        Some(scan_numch_end(v, pos + 1))
    } else {
        match parse_bool_at(v, pos) {
            Some(p) => Some(p.1),
            None => {
                if n - pos >= 4 && v[pos] == 110 && v[pos + 1] == 117 && v[pos + 2] == 108 && v[pos
                    + 3] == 108 {
                    Some(pos + 4)
                } else {
                    None
                }
            },
        }
    }
}


/// Which known field a key names: 0 `g`, 1 `group_id`, 2 `exp`, 3 `p`,
/// 4 `permissions`, 5-9 the compact capability fields, 10-14 their long
/// forms, 15 anything else.
pub open spec fn sp_key_code(key: Seq<u8>) -> int {
    if key == kb_g() {
        0
    } else if key == kb_group_id() {
        1
    } else if key == kb_exp() {
        2
    } else if key == kb_p() {
        3
    } else if key == kb_permissions() {
        4
    } else if key == kb_dg() {
        5
    } else if key == kb_mm() {
        6
    } else if key == kb_up() {
        7
    } else if key == kb_ae() {
        8
    } else if key == kb_ee() {
        9
    } else if key == kb_can_delete_group() {
        10
    } else if key == kb_can_manage_members() {
        11
    } else if key == kb_can_update_payment() {
        12
    } else if key == kb_can_add_expenses() {
        13
    } else if key == kb_can_edit_expenses() {
        14
    } else {
        15
    }
}

fn key_bytes_g() -> (r: Vec<u8>)
    ensures
        r@ == kb_g(),
{
    let mut kv: Vec<u8> = Vec::new();
    kv.push(103);
    proof {
        assert(kv@ =~= kb_g());
    }
    kv
}

fn key_bytes_group_id() -> (r: Vec<u8>)
    ensures
        r@ == kb_group_id(),
{
    let mut kv: Vec<u8> = Vec::new();
    kv.push(103);
    kv.push(114);
    kv.push(111);
    kv.push(117);
    kv.push(112);
    kv.push(95);
    kv.push(105);
    kv.push(100);
    proof {
        assert(kv@ =~= kb_group_id());
    }
    kv
}

fn key_bytes_exp() -> (r: Vec<u8>)
    ensures
        r@ == kb_exp(),
{
    let mut kv: Vec<u8> = Vec::new();
    kv.push(101);
    kv.push(120);
    kv.push(112);
    proof {
        assert(kv@ =~= kb_exp());
    }
    kv
}

fn key_bytes_p() -> (r: Vec<u8>)
    ensures
        r@ == kb_p(),
{
    let mut kv: Vec<u8> = Vec::new();
    kv.push(112);
    proof {
        assert(kv@ =~= kb_p());
    }
    kv
}

fn key_bytes_permissions() -> (r: Vec<u8>)
    ensures
        r@ == kb_permissions(),
{
    let mut kv: Vec<u8> = Vec::new();
    kv.push(112);
    kv.push(101);
    kv.push(114);
    kv.push(109);
    kv.push(105);
    kv.push(115);
    kv.push(115);
    kv.push(105);
    kv.push(111);
    kv.push(110);
    kv.push(115);
    proof {
        assert(kv@ =~= kb_permissions());
    }
    kv
}

fn key_bytes_dg() -> (r: Vec<u8>)
    ensures
        r@ == kb_dg(),
{
    let mut kv: Vec<u8> = Vec::new();
    kv.push(100);
    kv.push(103);
    proof {
        assert(kv@ =~= kb_dg());
    }
    kv
}

fn key_bytes_mm() -> (r: Vec<u8>)
    ensures
        r@ == kb_mm(),
{
    let mut kv: Vec<u8> = Vec::new();
    kv.push(109);
    kv.push(109);
    proof {
        assert(kv@ =~= kb_mm());
    }
    kv
}

fn key_bytes_up() -> (r: Vec<u8>)
    ensures
        r@ == kb_up(),
{
    let mut kv: Vec<u8> = Vec::new();
    kv.push(117);
    kv.push(112);
    proof {
        assert(kv@ =~= kb_up());
    }
    kv
}

fn key_bytes_ae() -> (r: Vec<u8>)
    ensures
        r@ == kb_ae(),
{
    let mut kv: Vec<u8> = Vec::new();
    kv.push(97);
    kv.push(101);
    proof {
        assert(kv@ =~= kb_ae());
    }
    kv
}

fn key_bytes_ee() -> (r: Vec<u8>)
    ensures
        r@ == kb_ee(),
{
    let mut kv: Vec<u8> = Vec::new();
    kv.push(101);
    kv.push(101);
    proof {
        assert(kv@ =~= kb_ee());
    }
    kv
}

fn key_bytes_can_delete_group() -> (r: Vec<u8>)
    ensures
        r@ == kb_can_delete_group(),
{
    let mut kv: Vec<u8> = Vec::new();
    kv.push(99);
    kv.push(97);
    kv.push(110);
    kv.push(95);
    kv.push(100);
    kv.push(101);
    kv.push(108);
    kv.push(101);
    kv.push(116);
    kv.push(101);
    kv.push(95);
    kv.push(103);
    kv.push(114);
    kv.push(111);
    kv.push(117);
    kv.push(112);
    proof {
        assert(kv@ =~= kb_can_delete_group());
    }
    kv
}

fn key_bytes_can_manage_members() -> (r: Vec<u8>)
    ensures
        r@ == kb_can_manage_members(),
{
    let mut kv: Vec<u8> = Vec::new();
    kv.push(99);
    kv.push(97);
    kv.push(110);
    kv.push(95);
    kv.push(109);
    kv.push(97);
    kv.push(110);
    kv.push(97);
    kv.push(103);
    kv.push(101);
    kv.push(95);
    kv.push(109);
    kv.push(101);
    kv.push(109);
    kv.push(98);
    kv.push(101);
    kv.push(114);
    kv.push(115);
    proof {
        assert(kv@ =~= kb_can_manage_members());
    }
    kv
}

fn key_bytes_can_update_payment() -> (r: Vec<u8>)
    ensures
        r@ == kb_can_update_payment(),
{
    let mut kv: Vec<u8> = Vec::new();
    kv.push(99);
    kv.push(97);
    kv.push(110);
    kv.push(95);
    kv.push(117);
    kv.push(112);
    kv.push(100);
    kv.push(97);
    kv.push(116);
    kv.push(101);
    kv.push(95);
    kv.push(112);
    kv.push(97);
    kv.push(121);
    kv.push(109);
    kv.push(101);
    kv.push(110);
    kv.push(116);
    proof {
        assert(kv@ =~= kb_can_update_payment());
    }
    kv
}

fn key_bytes_can_add_expenses() -> (r: Vec<u8>)
    ensures
        r@ == kb_can_add_expenses(),
{
    let mut kv: Vec<u8> = Vec::new();
    kv.push(99);
    kv.push(97);
    kv.push(110);
    kv.push(95);
    kv.push(97);
    kv.push(100);
    kv.push(100);
    kv.push(95);
    kv.push(101);
    kv.push(120);
    kv.push(112);
    kv.push(101);
    kv.push(110);
    kv.push(115);
    kv.push(101);
    kv.push(115);
    proof {
        assert(kv@ =~= kb_can_add_expenses());
    }
    kv
}

fn key_bytes_can_edit_expenses() -> (r: Vec<u8>)
    ensures
        r@ == kb_can_edit_expenses(),
{
    let mut kv: Vec<u8> = Vec::new();
    kv.push(99);
    kv.push(97);
    kv.push(110);
    kv.push(95);
    kv.push(101);
    kv.push(100);
    kv.push(105);
    kv.push(116);
    kv.push(95);
    kv.push(101);
    kv.push(120);
    kv.push(112);
    kv.push(101);
    kv.push(110);
    kv.push(115);
    kv.push(101);
    kv.push(115);
    proof {
        assert(kv@ =~= kb_can_edit_expenses());
    }
    kv
}

/// Whether the bytes `v[a .. b)` equal a pattern.
fn range_eq(v: &Vec<u8>, a: usize, b: usize, pat: &Vec<u8>) -> (r: bool)
    requires
        a <= b <= v@.len(),
    ensures
        r == (v@.subrange(a as int, b as int) == pat@),
{
    let ghost key = v@.subrange(a as int, b as int);
    if b - a != pat.len() {
        proof {
            assert(key.len() == b - a);
        }
        return false;
    }
    let m = pat.len();
    let mut i: usize = 0;
    while i < m
        invariant
            a <= b <= v@.len(),
            m == pat@.len(),
            b - a == m,
            i <= m,
            key == v@.subrange(a as int, b as int),
            forall|x: int| 0 <= x < i ==> key[x] == pat@[x],
        decreases m - i,
    {
        if v[a + i] != pat[i] {
            proof {
                assert(key[i as int] == v@[a as int + i]);
            }
            return false;
        }
        proof {
            assert(key[i as int] == v@[a as int + i]);
        }
        i += 1;
    }
    proof {
        assert(key =~= pat@);
    }
    true
}

/// Classify the key `v[a .. b)`.
fn key_code_at(v: &Vec<u8>, a: usize, b: usize) -> (r: u8)
    requires
        a <= b <= v@.len(),
    ensures
        r as int == sp_key_code(v@.subrange(a as int, b as int)),
{
    if range_eq(v, a, b, &key_bytes_g()) {
        return 0;
    }
    if range_eq(v, a, b, &key_bytes_group_id()) {
        return 1;
    }
    if range_eq(v, a, b, &key_bytes_exp()) {
        return 2;
    }
    if range_eq(v, a, b, &key_bytes_p()) {
        return 3;
    }
    if range_eq(v, a, b, &key_bytes_permissions()) {
        return 4;
    }
    if range_eq(v, a, b, &key_bytes_dg()) {
        return 5;
    }
    if range_eq(v, a, b, &key_bytes_mm()) {
        return 6;
    }
    if range_eq(v, a, b, &key_bytes_up()) {
        return 7;
    }
    if range_eq(v, a, b, &key_bytes_ae()) {
        return 8;
    }
    if range_eq(v, a, b, &key_bytes_ee()) {
        return 9;
    }
    if range_eq(v, a, b, &key_bytes_can_delete_group()) {
        return 10;
    }
    if range_eq(v, a, b, &key_bytes_can_manage_members()) {
        return 11;
    }
    if range_eq(v, a, b, &key_bytes_can_update_payment()) {
        return 12;
    }
    if range_eq(v, a, b, &key_bytes_can_add_expenses()) {
        return 13;
    }
    if range_eq(v, a, b, &key_bytes_can_edit_expenses()) {
        return 14;
    }
    15
}

/// The capability-object state before any field was seen.
pub open spec fn perms_unseen() -> Permissions {
    Permissions {
        can_delete_group: None,
        can_manage_members: None,
        can_update_payment: None,
        can_add_expenses: None,
        can_edit_expenses: None,
    }
}

/// Default the fields a parsed capability object left unseen: a missing
/// field means granted, so each becomes a concrete boolean.
pub open spec fn perms_finalize(st: Permissions) -> Permissions {
    Permissions {
        can_delete_group: Some(resolve_flag(st.can_delete_group)),
        can_manage_members: Some(resolve_flag(st.can_manage_members)),
        can_update_payment: Some(resolve_flag(st.can_update_payment)),
        can_add_expenses: Some(resolve_flag(st.can_add_expenses)),
        can_edit_expenses: Some(resolve_flag(st.can_edit_expenses)),
    }
}

/// One capability field's value: a boolean for a known field (rejected as a
/// duplicate when already seen), anything primitive for an unknown one.
pub open spec fn sp_perm_value(s: Seq<u8>, vpos: int, code: int, st: Permissions) -> Option<
    (Permissions, int),
> {
    if code == 5 || code == 10 {
        if st.can_delete_group is Some {
            None
        } else {
            match sp_bool_at(s, vpos) {
                Some(p) => Some(
                    (
                        Permissions {
                            can_delete_group: Some(p.0), can_manage_members: st.can_manage_members, can_update_payment: st.can_update_payment, can_add_expenses: st.can_add_expenses, can_edit_expenses: st.can_edit_expenses
                        },
                        p.1,
                    ),
                ),
                None => None,
            }
        }
    } else if code == 6 || code == 11 {
        if st.can_manage_members is Some {
            None
        } else {
            match sp_bool_at(s, vpos) {
                Some(p) => Some(
                    (
                        Permissions {
                            can_delete_group: st.can_delete_group, can_manage_members: Some(p.0), can_update_payment: st.can_update_payment, can_add_expenses: st.can_add_expenses, can_edit_expenses: st.can_edit_expenses
                        },
                        p.1,
                    ),
                ),
                None => None,
            }
        }
    } else if code == 7 || code == 12 {
        if st.can_update_payment is Some {
            None
        } else {
            match sp_bool_at(s, vpos) {
                Some(p) => Some(
                    (
                        Permissions {
                            can_delete_group: st.can_delete_group, can_manage_members: st.can_manage_members, can_update_payment: Some(p.0), can_add_expenses: st.can_add_expenses, can_edit_expenses: st.can_edit_expenses
                        },
                        p.1,
                    ),
                ),
                None => None,
            }
        }
    } else if code == 8 || code == 13 {
        if st.can_add_expenses is Some {
            None
        } else {
            match sp_bool_at(s, vpos) {
                Some(p) => Some(
                    (
                        Permissions {
                            can_delete_group: st.can_delete_group, can_manage_members: st.can_manage_members, can_update_payment: st.can_update_payment, can_add_expenses: Some(p.0), can_edit_expenses: st.can_edit_expenses
                        },
                        p.1,
                    ),
                ),
                None => None,
            }
        }
    } else if code == 9 || code == 14 {
        if st.can_edit_expenses is Some {
            None
        } else {
            match sp_bool_at(s, vpos) {
                Some(p) => Some(
                    (
                        Permissions {
                            can_delete_group: st.can_delete_group, can_manage_members: st.can_manage_members, can_update_payment: st.can_update_payment, can_add_expenses: st.can_add_expenses, can_edit_expenses: Some(p.0)
                        },
                        p.1,
                    ),
                ),
                None => None,
            }
        }
    } else {
        match sp_skip_value(s, vpos) {
            Some(np) => Some((st, np)),
            None => None,
        }
    }
}

/// The capability pairs from `pos` on (just after `{` or a comma), ending
/// at the object's closing brace.
pub open spec fn sp_perm_pairs(s: Seq<u8>, pos: int, st: Permissions, fuel: nat) -> Option<
    (Permissions, int),
>
    decreases fuel,
{
    if fuel == 0 {
        None
    } else if !(0 <= pos && pos < s.len() && s[pos] == 34) {
        None
    } else {
        match sp_str_end(s, pos + 1) {
            None => None,
            Some(e) => {
                if !(e + 1 < s.len() && s[e + 1] == 58) {
                    None
                } else {
                    match sp_perm_value(s, e + 2, sp_key_code(s.subrange(pos + 1, e)), st) {
                        None => None,
                        Some((st2, np)) => {
                            if 0 <= np < s.len() && s[np] == 44 {
                                sp_perm_pairs(s, np + 1, st2, (fuel - 1) as nat)
                            } else if 0 <= np < s.len() && s[np] == 125 {
                                Some((perms_finalize(st2), np + 1))
                            } else {
                                None
                            }
                        },
                    }
                }
            },
        }
    }
}

/// The capability object at `pos`.
pub open spec fn sp_perms_at(s: Seq<u8>, pos: int) -> Option<(Permissions, int)> {
    if 0 <= pos && pos < s.len() && s[pos] == 123 {
        if pos + 1 < s.len() && s[pos + 1] == 125 {
            Some((perms_finalize(perms_unseen()), pos + 2))
        } else {
            sp_perm_pairs(s, pos + 1, perms_unseen(), s.len() as nat)
        }
    } else {
        None
    }
}

/// Concrete booleans for everything a parsed capability object left unseen.
fn finalize_perms(st: &Permissions) -> (r: Permissions)
    ensures
        r == perms_finalize(*st),
{
    Permissions {
        can_delete_group: Some(st.has_delete_group()),
        can_manage_members: Some(st.has_manage_members()),
        can_update_payment: Some(st.has_update_payment()),
        can_add_expenses: Some(st.has_add_expenses()),
        can_edit_expenses: Some(st.has_edit_expenses()),
    }
}

/// Read the capability object at `pos`.
fn parse_perms_at(v: &Vec<u8>, pos: usize) -> (r: Option<(Permissions, usize)>)
    requires
        pos <= v@.len(),
    ensures
        match r {
            Some(p) => sp_perms_at(v@, pos as int) == Some((p.0, p.1 as int)) && pos < p.1
                <= v@.len(),
            None => sp_perms_at(v@, pos as int) is None,
        },
{
    let n = v.len();
    if pos >= n || v[pos] != 123 {
        return None;
    }
    if pos + 1 < n && v[pos + 1] == 125 {
        let st0 = Permissions {
            can_delete_group: None,
            can_manage_members: None,
            can_update_payment: None,
            can_add_expenses: None,
            can_edit_expenses: None,
        };
        return Some((finalize_perms(&st0), pos + 2));
    }
    let mut st = Permissions {
        can_delete_group: None,
        can_manage_members: None,
        can_update_payment: None,
        can_add_expenses: None,
        can_edit_expenses: None,
    };
    let mut cur: usize = pos + 1;
    let ghost mut fuel: nat = n as nat;
    loop
        invariant
            n == v@.len(),
            pos < cur <= n,
            fuel >= n + 1 - cur,
            sp_perms_at(v@, pos as int) == sp_perm_pairs(v@, cur as int, st, fuel),
        decreases fuel,
    {
        proof {
            assert(fuel >= 1);
        }
        if cur >= n || v[cur] != 34 {
            return None;
        }
        let e = match scan_str_end(v, cur + 1) {
            Some(e) => e,
            None => {
                return None;
            },
        };
        if e + 1 >= n || v[e + 1] != 58 {
            return None;
        }
        let code = key_code_at(v, cur + 1, e);
        let vpos = e + 2;
        let st2: Permissions;
        let np: usize;
        if code == 5 || code == 10 {
            if st.can_delete_group.is_some() {
                return None;
            }
            match parse_bool_at(v, vpos) {
                Some(p) => {
                    st2 = Permissions {
                        can_delete_group: Some(p.0), can_manage_members: st.can_manage_members, can_update_payment: st.can_update_payment, can_add_expenses: st.can_add_expenses, can_edit_expenses: st.can_edit_expenses
                    };
                    np = p.1;
                },
                None => {
                    return None;
                },
            }
        } else if code == 6 || code == 11 {
            if st.can_manage_members.is_some() {
                return None;
            }
            match parse_bool_at(v, vpos) {
                Some(p) => {
                    st2 = Permissions {
                        can_delete_group: st.can_delete_group, can_manage_members: Some(p.0), can_update_payment: st.can_update_payment, can_add_expenses: st.can_add_expenses, can_edit_expenses: st.can_edit_expenses
                    };
                    np = p.1;
                },
                None => {
                    return None;
                },
            }
        } else if code == 7 || code == 12 {
            if st.can_update_payment.is_some() {
                return None;
            }
            match parse_bool_at(v, vpos) {
                Some(p) => {
                    st2 = Permissions {
                        can_delete_group: st.can_delete_group, can_manage_members: st.can_manage_members, can_update_payment: Some(p.0), can_add_expenses: st.can_add_expenses, can_edit_expenses: st.can_edit_expenses
                    };
                    np = p.1;
                },
                None => {
                    return None;
                },
            }
        } else if code == 8 || code == 13 {
            if st.can_add_expenses.is_some() {
                return None;
            }
            match parse_bool_at(v, vpos) {
                Some(p) => {
                    st2 = Permissions {
                        can_delete_group: st.can_delete_group, can_manage_members: st.can_manage_members, can_update_payment: st.can_update_payment, can_add_expenses: Some(p.0), can_edit_expenses: st.can_edit_expenses
                    };
                    np = p.1;
                },
                None => {
                    return None;
                },
            }
        } else if code == 9 || code == 14 {
            if st.can_edit_expenses.is_some() {
                return None;
            }
            match parse_bool_at(v, vpos) {
                Some(p) => {
                    st2 = Permissions {
                        can_delete_group: st.can_delete_group, can_manage_members: st.can_manage_members, can_update_payment: st.can_update_payment, can_add_expenses: st.can_add_expenses, can_edit_expenses: Some(p.0)
                    };
                    np = p.1;
                },
                None => {
                    return None;
                },
            }
        } else {
            match skip_value_at(v, vpos) {
                Some(np2) => {
                    st2 = Permissions {
                        can_delete_group: st.can_delete_group, can_manage_members: st.can_manage_members, can_update_payment: st.can_update_payment, can_add_expenses: st.can_add_expenses, can_edit_expenses: st.can_edit_expenses
                    };
                    np = np2;
                },
                None => {
                    return None;
                },
            }
        }
        proof {
            assert(sp_perm_value(v@, vpos as int, code as int, st) == Some((st2, np as int)));
        }
        if np < n && v[np] == 44 {
            proof {
                assert(sp_perm_pairs(v@, cur as int, st, fuel) == sp_perm_pairs(
                    v@,
                    np as int + 1,
                    st2,
                    (fuel - 1) as nat,
                ));
                fuel = (fuel - 1) as nat;
            }
            st = st2;
            cur = np + 1;
        } else if np < n && v[np] == 125 {
            proof {
                assert(sp_perm_pairs(v@, cur as int, st, fuel) == Some(
                    (perms_finalize(st2), np as int + 1),
                ));
            }
            return Some((finalize_perms(&st2), np + 1));
        } else {
            return None;
        }
    }
}


/// Parser state for the claims object: which known fields were seen.
pub struct PartialClaims {
    pub group_id: Option<u128>,
    pub exp: Option<u64>,
    pub permissions: Option<Permissions>,
}

/// One claims field's value: a quoted id, a decimal expiry, a capability
/// object, or any primitive for an unknown field. A known field seen twice
/// is rejected.
pub open spec fn sp_claim_value(s: Seq<u8>, vpos: int, code: int, st: PartialClaims) -> Option<
    (PartialClaims, int),
> {
    if code == 0 || code == 1 {
        if st.group_id is Some {
            None
        } else if 0 <= vpos && vpos + 38 <= s.len() && s[vpos] == 34 && s[vpos + 37] == 34 {
            match spec_parse_id(s.subrange(vpos + 1, vpos + 37)) {
                Some(gid) => Some(
                    (
                        PartialClaims {
                            group_id: Some(gid),
                            exp: st.exp,
                            permissions: st.permissions,
                        },
                        vpos + 38,
                    ),
                ),
                None => None,
            }
        } else {
            None
        }
    } else if code == 2 {
        if st.exp is Some {
            None
        } else {
            match sp_exp_at(s, vpos) {
                Some(p) => Some(
                    (
                        PartialClaims {
                            group_id: st.group_id,
                            exp: Some(p.0),
                            permissions: st.permissions,
                        },
                        p.1,
                    ),
                ),
                None => None,
            }
        }
    } else if code == 3 || code == 4 {
        if st.permissions is Some {
            None
        } else {
            match sp_perms_at(s, vpos) {
                Some(p) => Some(
                    (
                        PartialClaims {
                            group_id: st.group_id,
                            exp: st.exp,
                            permissions: Some(p.0),
                        },
                        p.1,
                    ),
                ),
                None => None,
            }
        }
    } else {
        match sp_skip_value(s, vpos) {
            Some(np) => Some((st, np)),
            None => None,
        }
    }
}

/// The claims pairs from `pos` on (just after `{` or a comma), ending at a
/// closing brace that must end the buffer, with both required fields seen.
pub open spec fn sp_claim_pairs(s: Seq<u8>, pos: int, st: PartialClaims, fuel: nat) -> Option<
    Claims,
>
    decreases fuel,
{
    if fuel == 0 {
        None
    } else if !(0 <= pos && pos < s.len() && s[pos] == 34) {
        None
    } else {
        match sp_str_end(s, pos + 1) {
            None => None,
            Some(e) => {
                if !(e + 1 < s.len() && s[e + 1] == 58) {
                    None
                } else {
                    match sp_claim_value(s, e + 2, sp_key_code(s.subrange(pos + 1, e)), st) {
                        None => None,
                        Some((st2, np)) => {
                            if 0 <= np < s.len() && s[np] == 44 {
                                sp_claim_pairs(s, np + 1, st2, (fuel - 1) as nat)
                            } else if 0 <= np < s.len() && s[np] == 125 && np + 1 == s.len() {
                                match (st2.group_id, st2.exp) {
                                    (Some(gid), Some(expv)) => Some(
                                        Claims {
                                            group_id: gid,
                                            exp: expv,
                                            permissions: st2.permissions,
                                        },
                                    ),
                                    _ => None,
                                }
                            } else {
                                None
                            }
                        },
                    }
                }
            },
        }
    }
}

/// A claims value as the decoder returns it: a present capability set has
/// every field resolved to a concrete boolean; an absent one stays absent.
pub open spec fn claims_normalize(c: Claims) -> Claims {
    Claims {
        group_id: c.group_id,
        exp: c.exp,
        permissions: match c.permissions {
            Some(p) => Some(perms_finalize(p)),
            None => None,
        },
    }
}

/// The claims carried by a JSON blob, or `None` when the blob is not a
/// claims object of the accepted grammar.
pub open spec fn spec_parse_claims(s: Seq<u8>) -> Option<Claims> {
    if s.len() >= 1 && s[0] == 123 {
        sp_claim_pairs(
            s,
            1,
            PartialClaims { group_id: None, exp: None, permissions: None },
            s.len() as nat,
        )
    } else {
        None
    }
}

/// Read a claims blob.
pub fn parse_claims(v: &Vec<u8>) -> (r: Option<Claims>)
    ensures
        r == spec_parse_claims(v@),
{
    let n = v.len();
    if n < 1 || v[0] != 123 {
        return None;
    }
    let mut st = PartialClaims { group_id: None, exp: None, permissions: None };
    let mut cur: usize = 1;
    let ghost mut fuel: nat = n as nat;
    loop
        invariant
            n == v@.len(),
            0 < cur <= n,
            fuel >= n + 1 - cur,
            spec_parse_claims(v@) == sp_claim_pairs(v@, cur as int, st, fuel),
        decreases fuel,
    {
        proof {
            assert(fuel >= 1);
        }
        if cur >= n || v[cur] != 34 {
            return None;
        }
        let e = match scan_str_end(v, cur + 1) {
            Some(e) => e,
            None => {
                return None;
            },
        };
        if e + 1 >= n || v[e + 1] != 58 {
            return None;
        }
        let code = key_code_at(v, cur + 1, e);
        let vpos = e + 2;
        let st2: PartialClaims;
        let np: usize;
        if code == 0 || code == 1 {
            if st.group_id.is_some() {
                return None;
            }
            if n - vpos < 38 || v[vpos] != 34 || v[vpos + 37] != 34 {
                return None;
            }
            match parse_id_at(v, vpos + 1) {
                Some(gid) => {
                    st2 = PartialClaims {
                        group_id: Some(gid),
                        exp: st.exp,
                        permissions: st.permissions,
                    };
                    np = vpos + 38;
                },
                None => {
                    return None;
                },
            }
        } else if code == 2 {
            if st.exp.is_some() {
                return None;
            }
            match parse_exp_at(v, vpos) {
                Some(p) => {
                    st2 = PartialClaims {
                        group_id: st.group_id,
                        exp: Some(p.0),
                        permissions: st.permissions,
                    };
                    np = p.1;
                },
                None => {
                    return None;
                },
            }
        } else if code == 3 || code == 4 {
            if st.permissions.is_some() {
                return None;
            }
            match parse_perms_at(v, vpos) {
                Some(p) => {
                    st2 = PartialClaims {
                        group_id: st.group_id,
                        exp: st.exp,
                        permissions: Some(p.0),
                    };
                    np = p.1;
                },
                None => {
                    return None;
                },
            }
        } else {
            match skip_value_at(v, vpos) {
                Some(np2) => {
                    st2 = PartialClaims {
                        group_id: st.group_id,
                        exp: st.exp,
                        permissions: st.permissions,
                    };
                    np = np2;
                },
                None => {
                    return None;
                },
            }
        }
        proof {
            assert(sp_claim_value(v@, vpos as int, code as int, st) == Some((st2, np as int)));
        }
        if np < n && v[np] == 44 {
            proof {
                assert(sp_claim_pairs(v@, cur as int, st, fuel) == sp_claim_pairs(
                    v@,
                    np as int + 1,
                    st2,
                    (fuel - 1) as nat,
                ));
                fuel = (fuel - 1) as nat;
            }
            st = st2;
            cur = np + 1;
        } else if np < n && v[np] == 125 && np + 1 == n {
            match (st2.group_id, st2.exp) {
                (Some(gid), Some(expv)) => {
                    return Some(
                        Claims { group_id: gid, exp: expv, permissions: st2.permissions },
                    );
                },
                _ => {
                    return None;
                },
            }
        } else {
            return None;
        }
    }
}


/// The digits' value depends only on the bytes in the window.
proof fn lemma_dec_acc_congruence(s1: Seq<u8>, s2: Seq<u8>, a: int, b: int)
    requires
        forall|x: int| a <= x < b ==> s1[x] == s2[x],
    ensures
        sp_dec_acc(s1, a, b) == sp_dec_acc(s2, a, b),
    decreases b - a,
{
    if b > a {
        lemma_dec_acc_congruence(s1, s2, a, b - 1);
    }
}

/// Reading rendered digits back yields the rendered value.
proof fn lemma_dec_digits_acc(v: int)
    requires
        v >= 0,
    ensures
        sp_dec_acc(spec_dec_digits(v), 0, spec_dec_digits(v).len() as int) == v,
    decreases v,
{
    if v > 0 {
        vstd::arithmetic::div_mod::lemma_div_pos_is_pos(v, 10);
        vstd::arithmetic::div_mod::lemma_div_decreases(v, 10);
        lemma_dec_digits_acc(v / 10);
        let s = spec_dec_digits(v);
        let pre = spec_dec_digits(v / 10);
        assert(s == pre + seq![(48 + v % 10) as u8]);
        assert(s[s.len() - 1] == (48 + v % 10) as u8);
        lemma_dec_acc_congruence(s, pre, 0, pre.len() as int);
        vstd::arithmetic::div_mod::lemma_mod_division_less_than_divisor(v, 10);
        vstd::arithmetic::div_mod::lemma_fundamental_div_mod(v, 10);
        assert((v / 10) * 10 + v % 10 == v) by (nonlinear_arith)
            requires
                v == 10 * (v / 10) + v % 10,
        ;
    }
}

/// The decimal formatter and the number reader invert each other: every
/// expiry value parses back to itself.
pub proof fn lemma_dec_round_trip(v: u64)
    ensures
        sp_dec_acc(spec_dec_u64(v), 0, spec_dec_u64(v).len() as int) == v as int,
{
    if v == 0 {
        assert(spec_dec_u64(0) == seq![48u8]);
        assert(sp_dec_acc(seq![48u8], 0, 0) == 0);
        assert(sp_dec_acc(seq![48u8], 0, 1) == 0);
    } else {
        lemma_dec_digits_acc(v as int);
    }
}

} // verus!
