//! The two global laws of the ledger engine.
//!
//! First: for a history of expense-kind transactions whose payers and split
//! members all belong to the group, the returned balances add up to zero —
//! every minor unit someone is owed is owed by someone.
//!
//! Second: the balances are invariant under any permutation of the
//! transaction list, since each transaction's contribution is independent and
//! balances add commutatively.

use vstd::prelude::*;

use crate::ledger::{
    MemberModel, TxKind, TxModel, abs_of, div_trunc, first_index_of, lemma_div_trunc_rem,
    lemma_first_index_properties, norm_amount, share_at, sign_of, spec_balance, split_sum_prefix,
    tx_delta_at,
};

verus! {

/// Sum of the balances of member indices `0 .. u`.
pub open spec fn sum_balances(members: Seq<MemberModel>, txs: Seq<TxModel>, u: int) -> int
    decreases u,
{
    if u <= 0 {
        0
    } else {
        sum_balances(members, txs, u - 1) + spec_balance(members, txs, u - 1)
    }
}

/// Sum over member indices `0 .. u` of what one transaction does to each.
pub open spec fn sum_tx_delta(members: Seq<MemberModel>, t: TxModel, u: int) -> int
    decreases u,
{
    if u <= 0 {
        0
    } else {
        sum_tx_delta(members, t, u - 1) + tx_delta_at(members, t, u - 1)
    }
}

/// Sum over member indices `0 .. u` of a value landing on the first holder
/// of `id` (and nowhere else).
spec fn sum_hit(members: Seq<MemberModel>, id: u128, x: int, u: int) -> int
    decreases u,
{
    if u <= 0 {
        0
    } else {
        sum_hit(members, id, x, u - 1) + (
        if first_index_of(members, id) == u - 1 {
            x
        } else {
            0
        })
    }
}

/// Sum over member indices `0 .. u` of the first `j` split legs each owes.
spec fn sum_ssp(members: Seq<MemberModel>, split: Seq<u128>, total: int, j: int, u: int) -> int
    decreases u,
{
    if u <= 0 {
        0
    } else {
        sum_ssp(members, split, total, j, u - 1) + split_sum_prefix(
            members,
            split,
            total,
            u - 1,
            j,
        )
    }
}

/// Sum of the first `j` shares of a split of `total` over `n` legs.
pub open spec fn shares_sum(total: int, n: int, j: int) -> int
    decreases j,
{
    if j <= 0 {
        0
    } else {
        shares_sum(total, n, j - 1) + share_at(total, n, j - 1)
    }
}

/// A value landing on the first holder of an id sums, over all members, to
/// that value when the id is held and to nothing when it is not.
proof fn lemma_sum_hit(members: Seq<MemberModel>, id: u128, x: int, u: int)
    requires
        0 <= u,
    ensures
        sum_hit(members, id, x, u) == if 0 <= first_index_of(members, id) < u {
            x
        } else {
            0
        },
    decreases u,
{
    if u > 0 {
        lemma_sum_hit(members, id, x, u - 1);
    }
}

/// The first `j` shares add up to `j` quotients plus the part of the
/// remainder already settled.
proof fn lemma_shares_sum(total: int, n: int, j: int)
    requires
        1 <= n,
        0 <= j <= n,
    ensures
        shares_sum(total, n, j) == j * div_trunc(total, n) + sign_of(
            total - div_trunc(total, n) * n,
        ) * (
        if j <= abs_of(total - div_trunc(total, n) * n) {
            j
        } else {
            abs_of(total - div_trunc(total, n) * n)
        }),
    decreases j,
{
    let q = div_trunc(total, n);
    let r = total - q * n;
    if j > 0 {
        lemma_shares_sum(total, n, j - 1);
        assert(shares_sum(total, n, j) == shares_sum(total, n, j - 1) + share_at(total, n, j - 1));
        assert((j - 1) * q + q == j * q) by (nonlinear_arith);
        if j - 1 < abs_of(r) {
            assert(share_at(total, n, j - 1) == q + sign_of(r));
            assert(sign_of(r) * (j - 1) + sign_of(r) == sign_of(r) * j) by (nonlinear_arith);
        } else {
            assert(share_at(total, n, j - 1) == q);
        }
    } else {
        assert(0 * q == 0) by (nonlinear_arith);
        assert(sign_of(r) * 0 == 0) by (nonlinear_arith);
    }
}

/// All `n` shares of a split of `total` over `n` legs add up exactly to
/// `total`: the remainder is settled within the transaction.
pub proof fn lemma_shares_sum_total(total: int, n: int)
    requires
        1 <= n,
    ensures
        shares_sum(total, n, n) == total,
{
    let q = div_trunc(total, n);
    let r = total - q * n;
    lemma_div_trunc_rem(total, n);
    lemma_shares_sum(total, n, n);
    let s = sign_of(r);
    let ar = abs_of(r);
    assert(ar < n);
    assert(s * ar == r) by (nonlinear_arith)
        requires
            r > 0 ==> s == 1 && ar == r,
            r < 0 ==> s == -1 && ar == -r,
            r == 0 ==> s == 0 && ar == 0,
    ;
    assert(n * q == q * n) by (nonlinear_arith);
}

/// Splitting off the last leg of a split sum.
proof fn lemma_sum_ssp_step(
    members: Seq<MemberModel>,
    split: Seq<u128>,
    total: int,
    j: int,
    u: int,
)
    requires
        1 <= j <= split.len(),
        0 <= u,
    ensures
        sum_ssp(members, split, total, j, u) == sum_ssp(members, split, total, j - 1, u) + sum_hit(
            members,
            split[j - 1],
            share_at(total, split.len() as int, j - 1),
            u,
        ),
    decreases u,
{
    if u > 0 {
        lemma_sum_ssp_step(members, split, total, j, u - 1);
    }
}

/// With no legs yet, the split sum over any number of members is zero.
proof fn lemma_sum_ssp_zero(members: Seq<MemberModel>, split: Seq<u128>, total: int, u: int)
    requires
        0 <= u,
    ensures
        sum_ssp(members, split, total, 0, u) == 0,
    decreases u,
{
    if u > 0 {
        lemma_sum_ssp_zero(members, split, total, u - 1);
    }
}

/// When every one of the first `j` split legs references a present member,
/// the split legs' sums over all members add up to the first `j` shares.
proof fn lemma_sum_ssp_total(members: Seq<MemberModel>, split: Seq<u128>, total: int, j: int)
    requires
        0 <= j <= split.len(),
        forall|jj: int| 0 <= jj < j ==> first_index_of(members, #[trigger] split[jj]) >= 0,
    ensures
        sum_ssp(members, split, total, j, members.len() as int) == shares_sum(
            total,
            split.len() as int,
            j,
        ),
    decreases j,
{
    if j == 0 {
        lemma_sum_ssp_zero(members, split, total, members.len() as int);
    } else {
        let u = members.len() as int;
        let n = split.len() as int;
        lemma_sum_ssp_total(members, split, total, j - 1);
        lemma_sum_ssp_step(members, split, total, j, u);
        lemma_first_index_properties(members, split[j - 1]);
        lemma_sum_hit(members, split[j - 1], share_at(total, n, j - 1), u);
        assert(0 <= first_index_of(members, split[j - 1]) < u);
        assert(sum_hit(members, split[j - 1], share_at(total, n, j - 1), u) == share_at(
            total,
            n,
            j - 1,
        ));
        assert(shares_sum(total, n, j) == shares_sum(total, n, j - 1) + share_at(total, n, j - 1));
    }
}

/// An expense's per-member deltas decompose into the payer's gain and the
/// split legs' debts.
proof fn lemma_sum_tx_delta_expense(members: Seq<MemberModel>, t: TxModel, u: int)
    requires
        t.kind == TxKind::Expense,
        0 <= u,
    ensures
        sum_tx_delta(members, t, u) == if t.split.len() == 0 {
            0
        } else {
            sum_hit(members, t.paid_by, norm_amount(t), u) - sum_ssp(
                members,
                t.split,
                norm_amount(t),
                t.split.len() as int,
                u,
            )
        },
    decreases u,
{
    if u > 0 {
        lemma_sum_tx_delta_expense(members, t, u - 1);
    }
}

/// One expense whose payer and split members are all present moves no money
/// into or out of the group: its per-member deltas add up to zero.
proof fn lemma_expense_delta_zero_sum(members: Seq<MemberModel>, t: TxModel)
    requires
        t.kind == TxKind::Expense,
        t.split.len() > 0 ==> first_index_of(members, t.paid_by) >= 0,
        forall|jj: int| 0 <= jj < t.split.len() ==> first_index_of(
            members,
            #[trigger] t.split[jj],
        ) >= 0,
    ensures
        sum_tx_delta(members, t, members.len() as int) == 0,
{
    let u = members.len() as int;
    lemma_sum_tx_delta_expense(members, t, u);
    if t.split.len() > 0 {
        lemma_first_index_properties(members, t.paid_by);
        lemma_sum_hit(members, t.paid_by, norm_amount(t), u);
        lemma_sum_ssp_total(members, t.split, norm_amount(t), t.split.len() as int);
        lemma_shares_sum_total(norm_amount(t), t.split.len() as int);
    }
}

/// Splitting off the last transaction of a balance sum.
proof fn lemma_sum_balances_step(members: Seq<MemberModel>, txs: Seq<TxModel>, u: int)
    requires
        txs.len() > 0,
        0 <= u,
    ensures
        sum_balances(members, txs, u) == sum_balances(members, txs.drop_last(), u) + sum_tx_delta(
            members,
            txs.last(),
            u,
        ),
    decreases u,
{
    if u > 0 {
        lemma_sum_balances_step(members, txs, u - 1);
    }
}

/// An empty history sums to zero.
proof fn lemma_sum_balances_empty(members: Seq<MemberModel>, txs: Seq<TxModel>, u: int)
    requires
        txs.len() == 0,
        0 <= u,
    ensures
        sum_balances(members, txs, u) == 0,
    decreases u,
{
    if u > 0 {
        lemma_sum_balances_empty(members, txs, u - 1);
    }
}

/// For a history of expense-kind transactions whose payers and split members
/// all belong to the group, the members' balances add up to exactly zero.
pub proof fn lemma_expense_only_zero_sum(members: Seq<MemberModel>, txs: Seq<TxModel>)
    requires
        forall|k: int| 0 <= k < txs.len() ==> (#[trigger] txs[k]).kind == TxKind::Expense,
        forall|k: int| 0 <= k < txs.len() ==> ((#[trigger] txs[k]).split.len() > 0
            ==> first_index_of(members, txs[k].paid_by) >= 0),
        forall|k: int, jj: int| 0 <= k < txs.len() && 0 <= jj < txs[k].split.len()
            ==> first_index_of(members, #[trigger] txs[k].split[jj]) >= 0,
    ensures
        sum_balances(members, txs, members.len() as int) == 0,
    decreases txs.len(),
{
    let u = members.len() as int;
    if txs.len() == 0 {
        lemma_sum_balances_empty(members, txs, u);
    } else {
        let rest = txs.drop_last();
        assert(forall|k: int| 0 <= k < rest.len() ==> rest[k] == txs[k]);
        lemma_expense_only_zero_sum(members, rest);
        lemma_sum_balances_step(members, txs, u);
        assert(txs.last() == txs[txs.len() - 1]);
        lemma_expense_delta_zero_sum(members, txs.last());
    }
}

/// Removing one transaction takes exactly its contribution out of a balance.
proof fn lemma_spec_balance_remove(
    members: Seq<MemberModel>,
    txs: Seq<TxModel>,
    idx: int,
    i: int,
)
    requires
        0 <= idx < txs.len(),
    ensures
        spec_balance(members, txs, i) == spec_balance(members, txs.remove(idx), i) + tx_delta_at(
            members,
            txs[idx],
            i,
        ),
    decreases txs.len(),
{
    if idx == txs.len() - 1 {
        assert(txs.remove(idx) =~= txs.drop_last());
    } else {
        let shorter = txs.drop_last();
        lemma_spec_balance_remove(members, shorter, idx, i);
        assert(txs.remove(idx).drop_last() =~= shorter.remove(idx));
        assert(txs.remove(idx).last() == txs.last());
    }
}

/// The balances are invariant under any permutation of the transaction
/// list: two histories holding the same transactions the same number of
/// times give every member the same balance.
pub proof fn lemma_balances_permutation_invariant(
    members: Seq<MemberModel>,
    txs1: Seq<TxModel>,
    txs2: Seq<TxModel>,
    i: int,
)
    requires
        txs1.to_multiset() == txs2.to_multiset(),
    ensures
        spec_balance(members, txs1, i) == spec_balance(members, txs2, i),
    decreases txs1.len(),
{
    broadcast use vstd::seq_lib::group_to_multiset_ensures;

    if txs1.len() == 0 {
        assert(txs2.to_multiset().len() == 0);
        assert(txs2.len() == 0);
    } else {
        let t = txs1.last();
        assert(txs1.contains(t));
        assert(txs1.to_multiset().count(t) > 0);
        assert(txs2.to_multiset().count(t) > 0);
        assert(txs2.contains(t));
        let idx = choose|idx: int| 0 <= idx < txs2.len() && txs2[idx] == t;
        assert(txs1.drop_last() =~= txs1.remove(txs1.len() - 1));
        assert(txs1.remove(txs1.len() - 1).to_multiset() =~= txs1.to_multiset().remove(t));
        assert(txs2.remove(idx).to_multiset() =~= txs2.to_multiset().remove(t));
        lemma_balances_permutation_invariant(members, txs1.drop_last(), txs2.remove(idx), i);
        lemma_spec_balance_remove(members, txs2, idx, i);
    }
}

} // verus!
