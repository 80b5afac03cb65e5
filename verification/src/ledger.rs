//! The ledger engine: a pure function turning a group's transaction history
//! into each member's net balance.
//!
//! Amounts are integers in minor units of their transaction currency; an
//! exchange rate is a rational `num / den` and normalizing an amount into the
//! group currency truncates toward zero. An expense or income is divided
//! equally over its split set, with the rounding remainder settled within the
//! transaction: the first legs carry one extra minor unit each, so the legs
//! of one transaction always add up exactly to its normalized amount.
//!
//! A transaction leg referencing a member id absent from the member list is
//! silently dropped rather than failing (a deliberately permissive policy),
//! and an expense or income with an empty split set is a no-op, never a
//! division error.

use vstd::prelude::*;
use vstd::string::StrSliceExecFns;

verus! {

/// A group member as the ledger sees it: an id and a display name.
#[derive(Debug, Clone)]
pub struct Member {
    pub id: u128,
    pub name: String,
}

/// The kind of a transaction. A transfer carries its target here, so an
/// expense-with-target or a transfer-with-split is unrepresentable.
#[derive(Debug, Clone, PartialEq, Eq, Structural)]
pub enum TxKind {
    Expense,
    Transfer { target: Option<u128> },
    Income,
}

/// An exchange rate as a rational: an amount is normalized into the group
/// currency as `amount * num / den`. A rate of one is `num == den == 1`.
#[derive(Debug, Clone, PartialEq, Eq, Structural)]
pub struct Rate {
    pub num: u32,
    pub den: u32,
}

/// One transaction of a group's history, holding exactly what the balance
/// computation reads.
#[derive(Debug, Clone)]
pub struct Transaction {
    pub amount: i64,
    pub paid_by: u128,
    pub kind: TxKind,
    pub currency: String,
    pub rate: Rate,
    pub split_between: Vec<u128>,
}

/// One member's net balance: positive means the member is owed money,
/// negative means the member owes money.
#[derive(Debug, Clone)]
pub struct Balance {
    pub user_id: u128,
    pub user_name: String,
    pub balance: i128,
}

/// The mathematical content of a `Member`.
pub struct MemberModel {
    pub id: u128,
    pub name: Seq<char>,
}

/// The mathematical content of a `Transaction`.
pub struct TxModel {
    pub amount: int,
    pub paid_by: u128,
    pub kind: TxKind,
    pub currency: Seq<char>,
    pub rate_num: int,
    pub rate_den: int,
    pub split: Seq<u128>,
}

impl View for Member {
    type V = MemberModel;

    open spec fn view(&self) -> MemberModel {
        MemberModel { id: self.id, name: self.name@ }
    }
}

impl View for Transaction {
    type V = TxModel;

    open spec fn view(&self) -> TxModel {
        TxModel {
            amount: self.amount as int,
            paid_by: self.paid_by,
            kind: self.kind,
            currency: self.currency@,
            rate_num: self.rate.num as int,
            rate_den: self.rate.den as int,
            split: self.split_between@,
        }
    }
}

/// Largest amount, in minor units, a transaction may carry.
pub const AMOUNT_LIMIT: i64 = 1_000_000_000_000_000;

/// Largest numerator or denominator of an exchange rate.
pub const RATE_LIMIT: u32 = 1_000_000_000;

/// Largest number of legs in one split set.
pub const SPLIT_LIMIT: usize = 1_000_000;

/// Largest number of transactions in one history.
pub const TXS_LIMIT: usize = 1_000_000;

impl Rate {
    pub open spec fn wf_spec(self) -> bool {
        &&& 1 <= self.den <= RATE_LIMIT
        &&& self.num <= RATE_LIMIT
    }

    /// The rate of one: no conversion (the transaction is already in the
    /// group currency).
    pub fn one() -> (r: Rate)
        ensures
            r.num == 1,
            r.den == 1,
            r.wf_spec(),
    {
        Rate { num: 1, den: 1 }
    }
}

impl TxModel {
    /// Bounds under which the engine's arithmetic cannot overflow its
    /// 128-bit accumulators.
    pub open spec fn wf(self) -> bool {
        &&& -(AMOUNT_LIMIT as int) <= self.amount <= AMOUNT_LIMIT as int
        &&& 1 <= self.rate_den <= RATE_LIMIT as int
        &&& 0 <= self.rate_num <= RATE_LIMIT as int
        &&& self.split.len() <= SPLIT_LIMIT as int
    }
}

impl Transaction {
    /// True when the transaction lies within the machine bounds the engine
    /// requires (`TxModel::wf`). Callers outside verified code test this
    /// before asking for balances.
    pub fn is_within_limits(&self) -> (r: bool)
        ensures
            r == self@.wf(),
    {
        -AMOUNT_LIMIT <= self.amount && self.amount <= AMOUNT_LIMIT
            && 1 <= self.rate.den && self.rate.den <= RATE_LIMIT
            && self.rate.num <= RATE_LIMIT
            && self.split_between.len() <= SPLIT_LIMIT
    }
}

/// The views of a member list.
pub open spec fn member_views(ms: Seq<Member>) -> Seq<MemberModel> {
    ms.map(|i: int, m: Member| m@)
}

/// The views of a transaction list.
pub open spec fn tx_views(ts: Seq<Transaction>) -> Seq<TxModel> {
    ts.map(|i: int, t: Transaction| t@)
}

/// Index of the first member with the given id, or -1 when no member has it.
/// Legs referencing an absent id are dropped; with duplicate ids the first
/// member receives the leg, as a linear search would find it.
pub open spec fn first_index_of(members: Seq<MemberModel>, id: u128) -> int
    decreases members.len(),
{
    if members.len() == 0 {
        -1
    } else if members[0].id == id {
        0
    } else {
        let rest = first_index_of(members.drop_first(), id);
        if rest == -1 {
            -1
        } else {
            rest + 1
        }
    }
}

/// Division truncating toward zero (the remainder carries the dividend's
/// sign), for a positive divisor.
pub open spec fn div_trunc(a: int, b: int) -> int {
    if a >= 0 {
        a / b
    } else {
        -((-a) / b)
    }
}

/// The sign of an integer: -1, 0 or 1.
pub open spec fn sign_of(x: int) -> int {
    if x > 0 {
        1
    } else if x < 0 {
        -1
    } else {
        0
    }
}

/// A transaction's amount normalized into the group currency:
/// `amount * num / den`, truncated toward zero.
pub open spec fn norm_amount(t: TxModel) -> int {
    div_trunc(t.amount * t.rate_num, t.rate_den)
}

/// The j-th leg's share when `total` is divided over `n` legs: the truncated
/// quotient, with the remainder settled one minor unit at a time over the
/// first legs, so that the `n` shares add up exactly to `total`.
pub open spec fn share_at(total: int, n: int, j: int) -> int {
    let q = div_trunc(total, n);
    let r = total - q * n;
    if j < abs_of(r) {
        q + sign_of(r)
    } else {
        q
    }
}

/// Absolute value.
pub open spec fn abs_of(x: int) -> int {
    if x >= 0 {
        x
    } else {
        -x
    }
}

/// Sum of the shares owed to member index `i` by the first `j` legs of a
/// split of `total` over `n == split.len()` legs.
pub open spec fn split_sum_prefix(
    members: Seq<MemberModel>,
    split: Seq<u128>,
    total: int,
    i: int,
    j: int,
) -> int
    decreases j,
{
    if j <= 0 {
        0
    } else {
        split_sum_prefix(members, split, total, i, j - 1) + (
        if first_index_of(members, split[j - 1]) == i {
            share_at(total, split.len() as int, j - 1)
        } else {
            0
        })
    }
}

/// What one expense-shaped transaction does to member index `i`: the payer
/// gains the normalized total and each split leg owes its share. An empty
/// split set is a no-op. (An income is the exact negation.)
pub open spec fn expense_delta_at(
    members: Seq<MemberModel>,
    payer: u128,
    total: int,
    split: Seq<u128>,
    i: int,
) -> int {
    if split.len() == 0 {
        0
    } else {
        (if first_index_of(members, payer) == i {
            total
        } else {
            0
        }) - split_sum_prefix(members, split, total, i, split.len() as int)
    }
}

/// What one transfer does to member index `i`: the payer is owed the amount
/// back and the target owes it; the split set is ignored.
pub open spec fn transfer_delta_at(
    members: Seq<MemberModel>,
    payer: u128,
    target: Option<u128>,
    total: int,
    i: int,
) -> int {
    (if first_index_of(members, payer) == i {
        total
    } else {
        0
    }) + (match target {
        Some(to) => if first_index_of(members, to) == i {
            -total
        } else {
            0
        },
        None => 0,
    })
}

/// What one transaction does to member index `i`.
pub open spec fn tx_delta_at(members: Seq<MemberModel>, t: TxModel, i: int) -> int {
    match t.kind {
        TxKind::Expense => expense_delta_at(members, t.paid_by, norm_amount(t), t.split, i),
        TxKind::Income => -expense_delta_at(members, t.paid_by, norm_amount(t), t.split, i),
        TxKind::Transfer { target } => transfer_delta_at(
            members,
            t.paid_by,
            target,
            norm_amount(t),
            i,
        ),
    }
}

/// Member index `i`'s balance after the whole history: the sum of what each
/// transaction did to it.
pub open spec fn spec_balance(members: Seq<MemberModel>, txs: Seq<TxModel>, i: int) -> int
    decreases txs.len(),
{
    if txs.len() == 0 {
        0
    } else {
        spec_balance(members, txs.drop_last(), i) + tx_delta_at(members, txs.last(), i)
    }
}

/// Bound on one normalized amount.
pub open spec fn norm_limit() -> int {
    (AMOUNT_LIMIT as int) * (RATE_LIMIT as int)
}

/// Bound on what one transaction can do to one member.
pub open spec fn tx_delta_limit() -> int {
    2 * norm_limit() + (SPLIT_LIMIT as int) * (norm_limit() + 1)
}

/// The truncated quotient and its remainder behave as expected: the quotient
/// never exceeds the dividend in magnitude and the remainder is smaller than
/// the divisor and carries the dividend's sign.
pub proof fn lemma_div_trunc_rem(a: int, b: int)
    requires
        b >= 1,
    ensures
        abs_of(div_trunc(a, b)) <= abs_of(a),
        abs_of(a - div_trunc(a, b) * b) < b,
        a >= 0 ==> a - div_trunc(a, b) * b >= 0 && div_trunc(a, b) >= 0,
        a < 0 ==> a - div_trunc(a, b) * b <= 0 && div_trunc(a, b) <= 0,
{
    if a >= 0 {
        vstd::arithmetic::div_mod::lemma_fundamental_div_mod(a, b);
        vstd::arithmetic::div_mod::lemma_mod_division_less_than_divisor(a, b);
        vstd::arithmetic::div_mod::lemma_div_nonincreasing(a, b);
        vstd::arithmetic::div_mod::lemma_div_pos_is_pos(a, b);
        assert(a == b * (a / b) + a % b);
        assert(b * (a / b) == (a / b) * b) by (nonlinear_arith);
        assert(a - div_trunc(a, b) * b == a % b);
    } else {
        let m = -a;
        vstd::arithmetic::div_mod::lemma_fundamental_div_mod(m, b);
        vstd::arithmetic::div_mod::lemma_mod_division_less_than_divisor(m, b);
        vstd::arithmetic::div_mod::lemma_div_nonincreasing(m, b);
        vstd::arithmetic::div_mod::lemma_div_pos_is_pos(m, b);
        assert(m == b * (m / b) + m % b);
        assert(div_trunc(a, b) == -(m / b));
        assert(a - (-(m / b)) * b == -(m - (m / b) * b)) by (nonlinear_arith)
            requires
                m == -a,
        ;
        assert(m - (m / b) * b == m % b) by (nonlinear_arith)
            requires
                m == b * (m / b) + m % b,
        ;
        assert(a - div_trunc(a, b) * b == -(m % b));
    }
}

/// One share never exceeds the whole by more than one minor unit.
pub proof fn lemma_share_bound(total: int, n: int, j: int)
    requires
        n >= 1,
    ensures
        abs_of(share_at(total, n, j)) <= abs_of(total) + 1,
{
    lemma_div_trunc_rem(total, n);
}

/// The first `j` legs of a split owe member `i` at most `j` shares.
pub proof fn lemma_split_sum_prefix_bound(
    members: Seq<MemberModel>,
    split: Seq<u128>,
    total: int,
    i: int,
    j: int,
)
    requires
        0 <= j <= split.len(),
        split.len() >= 1,
    ensures
        abs_of(split_sum_prefix(members, split, total, i, j)) <= j * (abs_of(total) + 1),
    decreases j,
{
    if j > 0 {
        lemma_split_sum_prefix_bound(members, split, total, i, j - 1);
        lemma_share_bound(total, split.len() as int, j - 1);
        assert((j - 1) * (abs_of(total) + 1) + (abs_of(total) + 1) == j * (abs_of(total) + 1))
            by (nonlinear_arith);
    }
}

/// A well-formed transaction's normalized amount stays within `norm_limit`.
pub proof fn lemma_norm_bound(t: TxModel)
    requires
        t.wf(),
    ensures
        abs_of(norm_amount(t)) <= norm_limit(),
{
    lemma_div_trunc_rem(t.amount * t.rate_num, t.rate_den);
    assert(abs_of(t.amount * t.rate_num) <= norm_limit()) by (nonlinear_arith)
        requires
            -(AMOUNT_LIMIT as int) <= t.amount <= AMOUNT_LIMIT as int,
            0 <= t.rate_num <= RATE_LIMIT as int,
            norm_limit() == (AMOUNT_LIMIT as int) * (RATE_LIMIT as int),
    ;
}

/// No transaction within the machine bounds moves one member's balance by
/// more than `tx_delta_limit`.
pub proof fn lemma_tx_delta_bound(members: Seq<MemberModel>, t: TxModel, i: int)
    requires
        t.wf(),
    ensures
        abs_of(tx_delta_at(members, t, i)) <= tx_delta_limit(),
{
    lemma_norm_bound(t);
    match t.kind {
        TxKind::Expense | TxKind::Income => {
            lemma_expense_delta_bound(members, t.paid_by, norm_amount(t), t.split, i);
        },
        TxKind::Transfer { target } => {},
    }
}

/// Bound on the expense-shaped delta, in the terms the engine's inner loop
/// sees.
pub proof fn lemma_expense_delta_bound(
    members: Seq<MemberModel>,
    payer: u128,
    total: int,
    split: Seq<u128>,
    i: int,
)
    requires
        abs_of(total) <= norm_limit(),
        split.len() <= SPLIT_LIMIT,
    ensures
        abs_of(expense_delta_at(members, payer, total, split, i)) <= tx_delta_limit(),
{
    if split.len() > 0 {
        lemma_split_sum_prefix_bound(members, split, total, i, split.len() as int);
        assert(split.len() as int * (abs_of(total) + 1) <= (SPLIT_LIMIT as int) * (norm_limit()
            + 1)) by (nonlinear_arith)
            requires
                0 < split.len() as int <= SPLIT_LIMIT as int,
                0 <= abs_of(total) <= norm_limit(),
        ;
    }
}

/// Looking up an id is finding the first index holding it.
pub proof fn lemma_first_index_properties(members: Seq<MemberModel>, id: u128)
    ensures
        -1 <= first_index_of(members, id) < members.len(),
        first_index_of(members, id) >= 0 ==> members[first_index_of(members, id)].id == id
            && (forall|j: int| 0 <= j < first_index_of(members, id) ==> members[j].id != id),
        first_index_of(members, id) == -1 ==> (forall|j: int|
            0 <= j < members.len() ==> members[j].id != id),
    decreases members.len(),
{
    if members.len() == 0 {
    } else if members[0].id == id {
    } else {
        let rest = members.drop_first();
        lemma_first_index_properties(rest, id);
        assert(forall|j: int| 0 <= j < rest.len() ==> #[trigger] rest[j] == members[j + 1]);
        let fi = first_index_of(members, id);
        if first_index_of(rest, id) >= 0 {
            assert(fi == first_index_of(rest, id) + 1);
            assert(members[fi].id == rest[fi - 1].id);
            assert forall|j: int| 0 <= j < fi implies members[j].id != id by {
                if j > 0 {
                    assert(members[j] == rest[j - 1]);
                }
            }
        } else {
            assert forall|j: int| 0 <= j < members.len() implies members[j].id != id by {
                if j > 0 {
                    assert(members[j] == rest[j - 1]);
                }
            }
        }
    }
}

/// Linear search for the first member carrying the given id.
fn find_first(members: &Vec<Member>, id: u128) -> (r: Option<usize>)
    ensures
        match r {
            Some(k) => 0 <= k < members@.len() && first_index_of(member_views(members@), id)
                == k as int,
            None => first_index_of(member_views(members@), id) == -1,
        },
{
    proof {
        lemma_first_index_properties(member_views(members@), id);
    }
    let ghost views = member_views(members@);
    let n = members.len();
    let mut j: usize = 0;
    while j < n
        invariant
            n == members@.len(),
            views == member_views(members@),
            j <= n,
            forall|x: int| 0 <= x < j ==> (#[trigger] views[x]).id != id,
            -1 <= first_index_of(views, id) < views.len(),
            first_index_of(views, id) >= 0 ==> views[first_index_of(views, id)].id == id,
            first_index_of(views, id) == -1 ==> (forall|x: int|
                0 <= x < views.len() ==> (#[trigger] views[x]).id != id),
            first_index_of(views, id) >= 0 ==> (forall|x: int|
                0 <= x < first_index_of(views, id) ==> (#[trigger] views[x]).id != id),
        decreases n - j,
    {
        proof {
            assert(views[j as int].id == members@[j as int].id);
        }
        if members[j].id == id {
            proof {
                let fi = first_index_of(views, id);
                assert(fi != -1);
                assert(fi >= j);
                assert(fi <= j);
            }
            return Some(j);
        }
        j += 1;
    }
    None
}

/// Truncating signed division by a positive divisor, on 128-bit values.
fn div_trunc_i128(a: i128, b: i128) -> (q: i128)
    requires
        b >= 1,
        a != i128::MIN,
    ensures
        q as int == div_trunc(a as int, b as int),
{
    proof {
        lemma_div_trunc_rem(a as int, b as int);
    }
    if a >= 0 {
        ((a as u128) / (b as u128)) as i128
    } else {
        let m: u128 = ((-a) as u128) / (b as u128);
        -(m as i128)
    }
}

/// Move one member's balance by `delta`, if a member carries the id; a leg
/// referencing an absent id is dropped.
fn apply_leg(bal: &mut Vec<i128>, members: &Vec<Member>, id: u128, delta: i128)
    requires
        old(bal)@.len() == members@.len(),
        forall|i: int| 0 <= i < old(bal)@.len() ==> i128::MIN <= #[trigger] old(bal)@[i] + delta
            <= i128::MAX,
    ensures
        final(bal)@.len() == old(bal)@.len(),
        forall|i: int| 0 <= i < final(bal)@.len() ==> #[trigger] final(bal)@[i] == old(bal)@[i] + (
        if first_index_of(member_views(members@), id) == i {
            delta as int
        } else {
            0
        }),
{
    match find_first(members, id) {
        Some(k) => {
            let cur = bal[k];
            bal[k] = cur + delta;
        },
        None => {},
    }
}

/// Apply the expense-shaped part of one transaction: the payer leg and one
/// leg per split entry, all with direction `positive` (an income is an
/// expense run backwards). Requires a non-empty split.
fn apply_split_legs(
    bal: &mut Vec<i128>,
    members: &Vec<Member>,
    payer: u128,
    norm: i128,
    split: &Vec<u128>,
    positive: bool,
    Ghost(b0): Ghost<int>,
)
    requires
        old(bal)@.len() == members@.len(),
        1 <= split@.len() <= SPLIT_LIMIT,
        abs_of(norm as int) <= norm_limit(),
        0 <= b0,
        b0 + tx_delta_limit() <= i128::MAX,
        forall|i: int| 0 <= i < old(bal)@.len() ==> abs_of(#[trigger] old(bal)@[i] as int) <= b0,
    ensures
        final(bal)@.len() == old(bal)@.len(),
        forall|i: int| 0 <= i < final(bal)@.len() ==> #[trigger] final(bal)@[i] as int == old(
            bal,
        )@[i] + (
        if positive {
            1
        } else {
            -1 as int
        }) * expense_delta_at(member_views(members@), payer, norm as int, split@, i),
        forall|i: int| 0 <= i < final(bal)@.len() ==> abs_of(#[trigger] final(bal)@[i] as int)
            <= b0 + tx_delta_limit(),
{
    let ghost views = member_views(members@);
    let ghost dir: int = if positive { 1 } else { -1 };
    let n = split.len();
    let q = div_trunc_i128(norm, n as i128);
    proof {
        lemma_div_trunc_rem(norm as int, n as int);
    }
    let rem: i128 = norm - q * (n as i128);
    let rem_abs: u128 = if rem >= 0 {
        rem as u128
    } else {
        (-rem) as u128
    };
    let step: i128 = if rem > 0 {
        1
    } else if rem < 0 {
        -1
    } else {
        0
    };

    // The payer leg.
    if positive {
        apply_leg(bal, members, payer, norm);
    } else {
        apply_leg(bal, members, payer, -norm);
    }
    proof {
        assert forall|i: int| 0 <= i < bal@.len() implies abs_of(bal@[i] as int) <= b0
            + norm_limit() by {
            assert(old(bal)@[i] + dir * (if first_index_of(views, payer) == i {
                norm as int
            } else {
                0
            }) == bal@[i]);
        }
    }
    let ghost bal1 = bal@;

    // One leg per split entry.
    let mut j: usize = 0;
    while j < n
        invariant
            n == split@.len(),
            1 <= n <= SPLIT_LIMIT,
            j <= n,
            views == member_views(members@),
            dir == if positive {
                1int
            } else {
                -1int
            },
            bal@.len() == bal1.len() == members@.len(),
            0 <= b0,
            b0 + tx_delta_limit() <= i128::MAX,
            abs_of(norm as int) <= norm_limit(),
            q as int == div_trunc(norm as int, n as int),
            rem as int == norm - q * (n as int),
            abs_of(rem as int) < n,
            rem_abs as int == abs_of(rem as int),
            step as int == sign_of(rem as int),
            forall|i: int| 0 <= i < bal@.len() ==> #[trigger] bal@[i] as int == bal1[i] - dir
                * split_sum_prefix(views, split@, norm as int, i, j as int),
            forall|i: int| 0 <= i < bal1.len() ==> abs_of(#[trigger] bal1[i] as int) <= b0
                + norm_limit(),
            forall|i: int| 0 <= i < bal@.len() ==> abs_of(#[trigger] bal@[i] as int) <= b0
                + norm_limit() + (j as int) * (norm_limit() + 1),
        decreases n - j,
    {
        let extra: i128 = if (j as u128) < rem_abs {
            step
        } else {
            0
        };
        let share: i128 = q + extra;
        proof {
            assert(share as int == share_at(norm as int, n as int, j as int));
            lemma_share_bound(norm as int, n as int, j as int);
            lemma_split_sum_prefix_bound(views, split@, norm as int, 0, j as int);
            assert((j as int) * (norm_limit() + 1) + (norm_limit() + 1) == ((j + 1) as int) * (
            norm_limit() + 1)) by (nonlinear_arith);
            assert((j as int + 1) * (norm_limit() + 1) <= (SPLIT_LIMIT as int) * (norm_limit()
                + 1)) by (nonlinear_arith)
                requires
                    0 <= j as int + 1 <= SPLIT_LIMIT as int,
                    norm_limit() >= 0,
            ;
            assert(abs_of(share as int) <= norm_limit() + 1);
            assert(b0 + norm_limit() + (j as int) * (norm_limit() + 1) + (norm_limit() + 1) <= b0
                + tx_delta_limit());
            assert forall|i: int| 0 <= i < bal@.len() implies i128::MIN <= (#[trigger] bal@[i])
                + share <= i128::MAX && i128::MIN <= bal@[i] + (-share) <= i128::MAX by {
                lemma_leg_fits(bal@[i] as int, share as int, b0, j as int);
                lemma_leg_fits(bal@[i] as int, -(share as int), b0, j as int);
            }
        }
        if positive {
            apply_leg(bal, members, split[j], -share);
        } else {
            apply_leg(bal, members, split[j], share);
        }
        proof {
            assert forall|i: int| 0 <= i < bal@.len() implies #[trigger] bal@[i] as int == bal1[i]
                - dir * split_sum_prefix(views, split@, norm as int, i, j as int + 1) by {
                assert(split_sum_prefix(views, split@, norm as int, i, j as int + 1)
                    == split_sum_prefix(views, split@, norm as int, i, j as int) + (
                if first_index_of(views, split@[j as int]) == i {
                    share_at(norm as int, n as int, j as int)
                } else {
                    0
                }));
            }
            assert forall|i: int| 0 <= i < bal@.len() implies abs_of(#[trigger] bal@[i] as int)
                <= b0 + norm_limit() + (j as int + 1) * (norm_limit() + 1) by {
                lemma_split_sum_prefix_bound(views, split@, norm as int, i, j as int + 1);
                assert((j as int + 1) * (abs_of(norm as int) + 1) <= (j as int + 1) * (norm_limit()
                    + 1)) by (nonlinear_arith)
                    requires
                        0 <= j as int + 1,
                        abs_of(norm as int) <= norm_limit(),
                ;
            }
        }
        j += 1;
    }
    proof {
        assert forall|i: int| 0 <= i < bal@.len() implies #[trigger] bal@[i] as int == old(
            bal,
        )@[i] + dir * expense_delta_at(views, payer, norm as int, split@, i) by {
            assert(bal@[i] as int == bal1[i] - dir * split_sum_prefix(
                views,
                split@,
                norm as int,
                i,
                n as int,
            ));
        }
        assert forall|i: int| 0 <= i < bal@.len() implies abs_of(#[trigger] bal@[i] as int) <= b0
            + tx_delta_limit() by {
            assert((n as int) * (norm_limit() + 1) <= (SPLIT_LIMIT as int) * (norm_limit() + 1))
                by (nonlinear_arith)
                requires
                    0 <= n as int <= SPLIT_LIMIT as int,
                    norm_limit() >= 0,
            ;
        }
    }
}

proof fn lemma_leg_fits(b: int, s: int, b0: int, jj: int)
    requires
        0 <= b0,
        0 <= jj,
        abs_of(b) <= b0 + norm_limit() + jj * (norm_limit() + 1),
        abs_of(s) <= norm_limit() + 1,
        b0 + norm_limit() + jj * (norm_limit() + 1) + (norm_limit() + 1) <= b0 + tx_delta_limit(),
        b0 + tx_delta_limit() <= i128::MAX,
    ensures
        i128::MIN <= b + s <= i128::MAX,
{
}


/// Per-member net balances for a group: one `Balance` per member, in member
/// order, each holding exactly the sum of what every transaction in the
/// history did to that member (`spec_balance`). The group currency is the
/// unit of the results; transactions already carry the exchange rate into it.
pub fn compute_balances(
    members: &Vec<Member>,
    transactions: &Vec<Transaction>,
    group_currency: &String,
) -> (r: Vec<Balance>)
    requires
        transactions@.len() <= TXS_LIMIT,
        forall|k: int| 0 <= k < transactions@.len() ==> (#[trigger] transactions@[k])@.wf(),
    ensures
        r@.len() == members@.len(),
        forall|i: int| 0 <= i < members@.len() ==> (#[trigger] r@[i]).user_id == members@[i].id,
        forall|i: int| 0 <= i < members@.len() ==> (#[trigger] r@[i]).user_name@
            == members@[i].name@,
        forall|i: int| 0 <= i < members@.len() ==> (#[trigger] r@[i]).balance as int
            == spec_balance(member_views(members@), tx_views(transactions@), i),
{
    let ghost views = member_views(members@);
    let ghost txms = tx_views(transactions@);
    let n_members = members.len();

    let mut bal: Vec<i128> = Vec::new();
    let mut i0: usize = 0;
    while i0 < n_members
        invariant
            i0 <= n_members,
            bal@.len() == i0,
            forall|i: int| 0 <= i < i0 ==> #[trigger] bal@[i] == 0,
        decreases n_members - i0,
    {
        bal.push(0);
        i0 += 1;
    }

    let n_txs = transactions.len();
    let mut k: usize = 0;
    while k < n_txs
        invariant
            n_txs == transactions@.len(),
            n_txs <= TXS_LIMIT,
            forall|x: int| 0 <= x < transactions@.len() ==> (#[trigger] transactions@[x])@.wf(),
            views == member_views(members@),
            txms == tx_views(transactions@),
            k <= n_txs,
            bal@.len() == members@.len(),
            forall|i: int| 0 <= i < bal@.len() ==> #[trigger] bal@[i] as int == spec_balance(
                views,
                txms.take(k as int),
                i,
            ),
            forall|i: int| 0 <= i < bal@.len() ==> abs_of(#[trigger] bal@[i] as int) <= (k as int)
                * tx_delta_limit(),
        decreases n_txs - k,
    {
        let t = &transactions[k];
        proof {
            assert(transactions@[k as int]@.wf());
            assert(t@ == txms[k as int]);
        }
        proof {
            assert(abs_of((t.amount as int) * (t.rate.num as int)) <= norm_limit())
                by (nonlinear_arith)
                requires
                    -(AMOUNT_LIMIT as int) <= t.amount as int <= AMOUNT_LIMIT as int,
                    0 <= t.rate.num as int <= RATE_LIMIT as int,
                    norm_limit() == (AMOUNT_LIMIT as int) * (RATE_LIMIT as int),
            ;
        }
        let a: i128 = (t.amount as i128) * (t.rate.num as i128);
        let norm: i128 = div_trunc_i128(a, t.rate.den as i128);
        proof {
            lemma_div_trunc_rem(a as int, t.rate.den as int);
            assert(norm as int == norm_amount(t@));
            assert(abs_of(norm as int) <= norm_limit());
        }
        let ghost pre = bal@;
        let ghost bound0 = (k as int) * tx_delta_limit();
        proof {
            assert(bound0 + tx_delta_limit() == (k as int + 1) * tx_delta_limit())
                by (nonlinear_arith)
                requires
                    bound0 == (k as int) * tx_delta_limit(),
            ;
            assert((k as int + 1) * tx_delta_limit() <= (TXS_LIMIT as int) * tx_delta_limit())
                by (nonlinear_arith)
                requires
                    0 <= k as int + 1 <= TXS_LIMIT as int,
                    0 <= tx_delta_limit(),
            ;
            assert((TXS_LIMIT as int) * tx_delta_limit() <= i128::MAX);
            assert(0 <= bound0) by (nonlinear_arith)
                requires
                    bound0 == (k as int) * tx_delta_limit(),
                    0 <= k as int,
                    0 <= tx_delta_limit(),
            ;
        }
        match &t.kind {
            TxKind::Expense => {
                if t.split_between.len() > 0 {
                    apply_split_legs(
                        &mut bal,
                        members,
                        t.paid_by,
                        norm,
                        &t.split_between,
                        true,
                        Ghost(bound0),
                    );
                }
            },
            TxKind::Income => {
                if t.split_between.len() > 0 {
                    apply_split_legs(
                        &mut bal,
                        members,
                        t.paid_by,
                        norm,
                        &t.split_between,
                        false,
                        Ghost(bound0),
                    );
                }
            },
            TxKind::Transfer { target } => {
                apply_leg(&mut bal, members, t.paid_by, norm);
                proof {
                    assert forall|i: int| 0 <= i < bal@.len() implies i128::MIN
                        <= (#[trigger] bal@[i]) + (-norm) <= i128::MAX && i128::MIN <= bal@[i]
                        + norm <= i128::MAX by {
                        assert(abs_of(pre[i] as int) <= bound0);
                    }
                }
                if let Some(to) = target {
                    apply_leg(&mut bal, members, *to, -norm);
                }
            },
        }
        proof {
            let tm = txms[k as int];
            assert(txms.take(k as int + 1).drop_last() =~= txms.take(k as int));
            assert(txms.take(k as int + 1).last() == tm);
            assert forall|i: int| 0 <= i < bal@.len() implies #[trigger] bal@[i] as int == pre[i]
                + tx_delta_at(views, tm, i) by {
                match tm.kind {
                    TxKind::Expense => {
                        if tm.split.len() == 0 {
                        }
                    },
                    TxKind::Income => {
                        if tm.split.len() == 0 {
                        }
                    },
                    TxKind::Transfer { target } => {
                    },
                }
            }
            assert forall|i: int| 0 <= i < bal@.len() implies #[trigger] bal@[i] as int
                == spec_balance(views, txms.take(k as int + 1), i) by {
                assert(pre[i] as int == spec_balance(views, txms.take(k as int), i));
            }
            assert forall|i: int| 0 <= i < bal@.len() implies abs_of(#[trigger] bal@[i] as int)
                <= (k as int + 1) * tx_delta_limit() by {
                lemma_tx_delta_bound(views, tm, i);
                assert(abs_of(pre[i] as int) <= bound0);
            }
        }
        k += 1;
    }
    proof {
        assert(txms.take(n_txs as int) =~= txms);
    }

    let mut out: Vec<Balance> = Vec::new();
    let mut i1: usize = 0;
    while i1 < n_members
        invariant
            i1 <= n_members,
            out@.len() == i1,
            n_members == members@.len(),
            bal@.len() == members@.len(),
            views == member_views(members@),
            txms == tx_views(transactions@),
            forall|i: int| 0 <= i < bal@.len() ==> #[trigger] bal@[i] as int == spec_balance(
                views,
                txms,
                i,
            ),
            forall|i: int| 0 <= i < i1 ==> (#[trigger] out@[i]).user_id == members@[i].id,
            forall|i: int| 0 <= i < i1 ==> (#[trigger] out@[i]).user_name@ == members@[i].name@,
            forall|i: int| 0 <= i < i1 ==> (#[trigger] out@[i]).balance as int == spec_balance(
                views,
                txms,
                i,
            ),
        decreases n_members - i1,
    {
        out.push(
            Balance {
                user_id: members[i1].id,
                user_name: members[i1].name.clone(),
                balance: bal[i1],
            },
        );
        i1 += 1;
    }
    out
}


/// The wire name of a transfer.
pub open spec fn transfer_name() -> Seq<char> {
    seq!['t', 'r', 'a', 'n', 's', 'f', 'e', 'r']
}

/// The wire name of an income.
pub open spec fn income_name() -> Seq<char> {
    seq!['i', 'n', 'c', 'o', 'm', 'e']
}

/// The kind a wire name denotes: `transfer` and `income` are themselves,
/// anything else is an expense (the permissive default the service has
/// always applied to unknown kind strings). Only a transfer keeps a target.
pub open spec fn spec_kind_of(name: Seq<char>, target: Option<u128>) -> TxKind {
    if name == transfer_name() {
        TxKind::Transfer { target }
    } else if name == income_name() {
        TxKind::Income
    } else {
        TxKind::Expense
    }
}

/// Turn a wire kind string and optional transfer target into a kind.
pub fn kind_of(kind_name: &str, transfer_to: Option<u128>) -> (r: TxKind)
    ensures
        r == spec_kind_of(kind_name@, transfer_to),
{
    let n = kind_name.unicode_len();
    if n == 8 {
        let m = kind_name.get_char(0) == 't' && kind_name.get_char(1) == 'r'
            && kind_name.get_char(2) == 'a' && kind_name.get_char(3) == 'n'
            && kind_name.get_char(4) == 's' && kind_name.get_char(5) == 'f'
            && kind_name.get_char(6) == 'e' && kind_name.get_char(7) == 'r';
        if m {
            proof {
                assert(kind_name@ =~= transfer_name());
            }
            return TxKind::Transfer { target: transfer_to };
        }
    }
    if n == 6 {
        let m = kind_name.get_char(0) == 'i' && kind_name.get_char(1) == 'n'
            && kind_name.get_char(2) == 'c' && kind_name.get_char(3) == 'o'
            && kind_name.get_char(4) == 'm' && kind_name.get_char(5) == 'e';
        if m {
            proof {
                assert(kind_name@ =~= income_name());
            }
            return TxKind::Income;
        }
    }
    proof {
        assert(transfer_name().len() == 8);
        assert(income_name().len() == 6);
    }
    TxKind::Expense
}

/// The split rows to store for a transaction: none for a transfer (its
/// split set is ignored), the request's set for everything else.
pub fn stored_splits(kind: &TxKind, split_between: &Vec<u128>) -> (r: Vec<u128>)
    ensures
        r@ == (match kind {
            TxKind::Transfer { target } => Seq::<u128>::empty(),
            _ => split_between@,
        }),
{
    match kind {
        TxKind::Transfer { target } => Vec::new(),
        _ => {
            let n = split_between.len();
            let mut out: Vec<u128> = Vec::new();
            let mut i: usize = 0;
            while i < n
                invariant
                    i <= n,
                    n == split_between@.len(),
                    out@.len() == i,
                    forall|x: int| 0 <= x < i ==> out@[x] == split_between@[x],
                decreases n - i,
            {
                out.push(split_between[i]);
                i += 1;
            }
            proof {
                assert(out@ =~= split_between@);
            }
            out
        },
    }
}

} // verus!
