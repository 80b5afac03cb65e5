//! The textual form of a group id: 32 lowercase hex digits in the familiar
//! hyphenated 8-4-4-4-12 shape, carrying a 128-bit value. The parser accepts
//! either letter case; the formatter emits lowercase.

use vstd::prelude::*;

verus! {

/// Sixteen to the `k`-th power.
pub open spec fn pow16(k: nat) -> int
    decreases k,
{
    if k == 0 {
        1
    } else {
        16 * pow16((k - 1) as nat)
    }
}

/// The lowercase hex digit for a value below sixteen.
pub open spec fn hex_digit(v: int) -> u8 {
    if v < 10 {
        (48 + v) as u8
    } else {
        (87 + v) as u8
    }
}

/// Value of one hex digit byte (either case), or -1 when it is none.
pub open spec fn hex_val(c: u8) -> int {
    if 48 <= c <= 57 {
        c - 48
    } else if 97 <= c <= 102 {
        c - 97 + 10
    } else if 65 <= c <= 70 {
        c - 65 + 10
    } else {
        -1
    }
}

/// The `k`-th hex digit value of `g`, counting from the least significant.
pub open spec fn nib_of(g: u128, k: int) -> int {
    ((g as int) / pow16(k as nat)) % 16
}

/// Which of the 32 digits sits at string position `i`, skipping hyphens.
pub open spec fn id_digit_index(i: int) -> int {
    if i < 8 {
        i
    } else if i < 13 {
        i - 1
    } else if i < 18 {
        i - 2
    } else if i < 23 {
        i - 3
    } else {
        i - 4
    }
}

/// Whether string position `i` holds a hyphen.
pub open spec fn id_hyphen_at(i: int) -> bool {
    i == 8 || i == 13 || i == 18 || i == 23
}

/// The byte at position `i` of the formatted id.
pub open spec fn id_char_at(g: u128, i: int) -> u8 {
    if id_hyphen_at(i) {
        45u8
    } else {
        hex_digit(nib_of(g, 31 - id_digit_index(i)))
    }
}

/// The 36-byte hyphenated lowercase hex form of a 128-bit id.
pub open spec fn spec_id_str(g: u128) -> Seq<u8> {
    Seq::new(36, |i: int| id_char_at(g, i))
}

/// How many of the first `j` positions hold digits rather than hyphens.
pub open spec fn id_digit_count(j: int) -> int {
    j - (if j > 8 {
        1int
    } else {
        0
    }) - (if j > 13 {
        1int
    } else {
        0
    }) - (if j > 18 {
        1int
    } else {
        0
    }) - (if j > 23 {
        1int
    } else {
        0
    })
}

/// Value accumulated over the first `j` positions of a hyphenated id:
/// hyphens must sit exactly at their four places and every other byte must
/// be a hex digit.
pub open spec fn sp_id_acc(s: Seq<u8>, j: int) -> Option<int>
    decreases j,
{
    if j <= 0 {
        Some(0)
    } else {
        match sp_id_acc(s, j - 1) {
            None => None,
            Some(a) => {
                if id_hyphen_at(j - 1) {
                    if s[j - 1] == 45 {
                        Some(a)
                    } else {
                        None
                    }
                } else if hex_val(s[j - 1]) >= 0 {
                    Some(a * 16 + hex_val(s[j - 1]))
                } else {
                    None
                }
            },
        }
    }
}

/// Parse a 36-byte hyphenated hex id; `None` for anything else.
pub open spec fn spec_parse_id(s: Seq<u8>) -> Option<u128> {
    if s.len() == 36 {
        match sp_id_acc(s, 36) {
            Some(v) => Some(v as u128),
            None => None,
        }
    } else {
        None
    }
}

/// The accumulated value stays below sixteen to the number of digits read.
proof fn lemma_id_acc_bound(s: Seq<u8>, j: int)
    requires
        0 <= j <= 36,
    ensures
        match sp_id_acc(s, j) {
            Some(a) => 0 <= a < pow16(id_digit_count(j) as nat),
            None => true,
        },
    decreases j,
{
    if j > 0 {
        lemma_id_acc_bound(s, j - 1);
        if sp_id_acc(s, j) is Some {
            let a = sp_id_acc(s, j - 1).unwrap();
            if !id_hyphen_at(j - 1) {
                let d = id_digit_count(j - 1) as nat;
                assert(id_digit_count(j) == d + 1);
                assert(pow16((d + 1) as nat) == 16 * pow16(d));
                assert(a * 16 + hex_val(s[j - 1]) < 16 * pow16(d)) by (nonlinear_arith)
                    requires
                        0 <= a < pow16(d),
                        0 <= hex_val(s[j - 1]) < 16,
                ;
                assert(0 <= a * 16 + hex_val(s[j - 1])) by (nonlinear_arith)
                    requires
                        0 <= a,
                        0 <= hex_val(s[j - 1]),
                ;
            }
        }
    }
}

/// Once the accumulator has failed, it stays failed.
proof fn lemma_id_acc_none(s: Seq<u8>, j1: int, j2: int)
    requires
        0 <= j1 <= j2,
        sp_id_acc(s, j1) is None,
    ensures
        sp_id_acc(s, j2) is None,
    decreases j2 - j1,
{
    if j1 < j2 {
        lemma_id_acc_none(s, j1, j2 - 1);
    }
}

/// Sixteen to the 32nd is exactly one beyond the largest 128-bit value.
proof fn lemma_pow16_32()
    ensures
        pow16(32) == 0x100000000000000000000000000000000,
        pow16(31) == 0x10000000000000000000000000000000,
{
    reveal_with_fuel(pow16, 33);
}

/// The lowercase hex digit of a small value.
fn hex_digit_of(v: u8) -> (r: u8)
    requires
        v < 16,
    ensures
        r == hex_digit(v as int),
{
    if v < 10 {
        48 + v
    } else {
        87 + v
    }
}

/// The value of a hex digit byte, either case.
fn hex_val_of(c: u8) -> (r: Option<u8>)
    ensures
        match r {
            Some(v) => hex_val(c) == v as int && v < 16,
            None => hex_val(c) == -1,
        },
{
    if 48 <= c && c <= 57 {
        Some(c - 48)
    } else if 97 <= c && c <= 102 {
        Some(c - 97 + 10)
    } else if 65 <= c && c <= 70 {
        Some(c - 65 + 10)
    } else {
        None
    }
}

/// Format a 128-bit id as 36 bytes of hyphenated lowercase hex.
pub fn id_str_bytes(g: u128) -> (r: Vec<u8>)
    ensures
        r@ == spec_id_str(g),
{
    // Hex digits, least significant first.
    let mut tmp: Vec<u8> = Vec::new();
    let mut cur: u128 = g;
    let mut k: usize = 0;
    proof {
        assert(pow16(0) == 1);
    }
    while k < 32
        invariant
            k <= 32,
            tmp@.len() == k,
            (cur as int) == (g as int) / pow16(k as nat),
            forall|x: int| 0 <= x < k ==> tmp@[x] == hex_digit(nib_of(g, x)),
        decreases 32 - k,
    {
        tmp.push(hex_digit_of((cur % 16) as u8));
        proof {
            assert(cur as int % 16 == nib_of(g, k as int));
            lemma_pow16_monotone(0, k as nat);
            vstd::arithmetic::div_mod::lemma_div_denominator(g as int, pow16(k as nat), 16);
            assert(pow16((k + 1) as nat) == 16 * pow16(k as nat));
            assert(pow16(k as nat) * 16 == 16 * pow16(k as nat)) by (nonlinear_arith);
        }
        cur = cur / 16;
        k += 1;
    }
    let mut out: Vec<u8> = Vec::new();
    let mut i: usize = 0;
    while i < 36
        invariant
            i <= 36,
            out@.len() == i,
            tmp@.len() == 32,
            forall|x: int| 0 <= x < 32 ==> tmp@[x] == hex_digit(nib_of(g, x)),
            forall|x: int| 0 <= x < i ==> out@[x] == id_char_at(g, x),
        decreases 36 - i,
    {
        if i == 8 || i == 13 || i == 18 || i == 23 {
            out.push(45);
        } else {
            let k2: usize = if i < 8 {
                i
            } else if i < 13 {
                i - 1
            } else if i < 18 {
                i - 2
            } else if i < 23 {
                i - 3
            } else {
                i - 4
            };
            out.push(tmp[31 - k2]);
            proof {
                assert(k2 as int == id_digit_index(i as int));
            }
        }
        i += 1;
    }
    proof {
        assert(out@ =~= spec_id_str(g));
    }
    out
}

/// Parse the 36 bytes starting at `start` as a hyphenated hex id.
pub fn parse_id_at(v: &Vec<u8>, start: usize) -> (r: Option<u128>)
    requires
        start + 36 <= v@.len(),
    ensures
        r == spec_parse_id(v@.subrange(start as int, start as int + 36)),
{
    let ghost sub = v@.subrange(start as int, start as int + 36);
    let n = v.len();
    let mut acc: u128 = 0;
    let mut j: usize = 0;
    proof {
        lemma_pow16_32();
    }
    while j < 36
        invariant
            j <= 36,
            n == v@.len(),
            start + 36 <= n,
            sub == v@.subrange(start as int, start as int + 36),
            sp_id_acc(sub, j as int) == Some(acc as int),
            (acc as int) < pow16(id_digit_count(j as int) as nat),
            pow16(32) == 0x100000000000000000000000000000000,
            pow16(31) == 0x10000000000000000000000000000000,
        decreases 36 - j,
    {
        proof {
            assert(sub[j as int] == v@[start as int + j as int]);
            lemma_id_acc_bound(sub, j as int);
        }
        let c = v[start + j];
        if j == 8 || j == 13 || j == 18 || j == 23 {
            if c != 45 {
                proof {
                    assert(sp_id_acc(sub, j as int + 1) is None);
                    lemma_id_acc_none(sub, j as int + 1, 36);
                }
                return None;
            }
        } else {
            match hex_val_of(c) {
                Some(hv) => {
                    proof {
                        let dc = id_digit_count(j as int) as nat;
                        assert(id_digit_count(j as int + 1) == dc + 1);
                        assert(pow16((dc + 1) as nat) == 16 * pow16(dc));
                        assert(dc + 1 <= 32);
                        lemma_pow16_monotone(dc + 1, 32);
                        assert((acc as int) * 16 + (hv as int) < 16 * pow16(dc)) by (nonlinear_arith)
                            requires
                                0 <= (acc as int) < pow16(dc),
                                0 <= (hv as int) < 16,
                        ;
                    }
                    acc = acc * 16 + (hv as u128);
                },
                None => {
                    proof {
                        assert(sp_id_acc(sub, j as int + 1) is None);
                        lemma_id_acc_none(sub, j as int + 1, 36);
                    }
                    return None;
                },
            }
        }
        j += 1;
    }
    Some(acc)
}

/// Powers of sixteen grow with the exponent.
proof fn lemma_pow16_monotone(a: nat, b: nat)
    requires
        a <= b,
    ensures
        pow16(a) <= pow16(b),
        pow16(a) >= 1,
    decreases b,
{
    if a < b {
        lemma_pow16_monotone(a, (b - 1) as nat);
        assert(pow16(b) == 16 * pow16((b - 1) as nat));
        assert(16 * pow16((b - 1) as nat) >= pow16((b - 1) as nat)) by (nonlinear_arith)
            requires
                pow16((b - 1) as nat) >= 1,
        ;
    } else if a == b && a == 0 {
    } else {
        lemma_pow16_monotone((a - 1) as nat, (b - 1) as nat);
        assert(pow16(b) == 16 * pow16((b - 1) as nat));
        assert(16 * pow16((b - 1) as nat) >= 1) by (nonlinear_arith)
            requires
                pow16((b - 1) as nat) >= 1,
        ;
    }
}


/// Reading the formatted id back accumulates exactly the digits already
/// rendered: after `j` positions, the value of the leading digits.
proof fn lemma_id_acc_of_str(g: u128, j: int)
    requires
        0 <= j <= 36,
    ensures
        sp_id_acc(spec_id_str(g), j) == Some(
            (g as int) / pow16((32 - id_digit_count(j)) as nat),
        ),
    decreases j,
{
    let s = spec_id_str(g);
    if j == 0 {
        lemma_pow16_32();
        vstd::arithmetic::div_mod::lemma_basic_div(g as int, pow16(32));
    } else {
        lemma_id_acc_of_str(g, j - 1);
        let dc = id_digit_count(j - 1);
        assert(s[j - 1] == id_char_at(g, j - 1));
        if id_hyphen_at(j - 1) {
            assert(id_digit_count(j) == dc);
        } else {
            assert(id_digit_index(j - 1) == dc);
            assert(id_digit_count(j) == dc + 1);
            let k = 31 - dc;
            let q = (g as int) / pow16(k as nat);
            assert(0 <= nib_of(g, k) < 16) by {
                vstd::arithmetic::div_mod::lemma_mod_division_less_than_divisor(q, 16);
                lemma_pow16_monotone(0, k as nat);
                vstd::arithmetic::div_mod::lemma_div_pos_is_pos(g as int, pow16(k as nat));
            }
            assert(hex_val(hex_digit(nib_of(g, k))) == nib_of(g, k));
            // One more digit shifts the accumulated prefix by sixteen.
            lemma_pow16_monotone(0, k as nat);
            vstd::arithmetic::div_mod::lemma_div_denominator(g as int, pow16(k as nat), 16);
            assert(pow16((k + 1) as nat) == 16 * pow16(k as nat));
            assert(pow16(k as nat) * 16 == 16 * pow16(k as nat)) by (nonlinear_arith);
            vstd::arithmetic::div_mod::lemma_fundamental_div_mod(q, 16);
            assert(q == ((g as int) / pow16((k + 1) as nat)) * 16 + nib_of(g, k))
                by (nonlinear_arith)
                requires
                    q == 16 * (q / 16) + q % 16,
                    q / 16 == (g as int) / pow16((k + 1) as nat),
                    q % 16 == nib_of(g, k),
            ;
            assert(32 - id_digit_count(j) == k);
            assert(32 - dc == k + 1);
        }
    }
}

/// The formatter and the parser invert each other: every id parses back to
/// itself.
pub proof fn lemma_id_round_trip(g: u128)
    ensures
        spec_parse_id(spec_id_str(g)) == Some(g),
{
    lemma_id_acc_of_str(g, 36);
    assert(id_digit_count(36) == 32);
    assert(pow16(0) == 1);
    vstd::arithmetic::div_mod::lemma_div_by_self(1);
    assert((g as int) / 1 == g as int) by {
        vstd::arithmetic::div_mod::lemma_div_basics(g as int);
    }
}

} // verus!
