use splitledger::ledger::{
    Balance, Member, Rate, Transaction, TxKind, compute_balances, kind_of, stored_splits,
};

fn member(id: u128, name: &str) -> Member {
    Member { id, name: String::from(name) }
}

fn expense(amount: i64, paid_by: u128, split: Vec<u128>) -> Transaction {
    Transaction {
        amount,
        paid_by,
        kind: TxKind::Expense,
        currency: String::from("EUR"),
        rate: Rate::one(),
        split_between: split,
    }
}

fn balances_of(members: &Vec<Member>, txs: &Vec<Transaction>) -> Vec<Balance> {
    compute_balances(members, txs, &String::from("EUR"))
}

fn values(bals: &Vec<Balance>) -> Vec<i128> {
    bals.iter().map(|b| b.balance).collect()
}

#[test]
fn expense_split_three_ways() {
    // Currency EUR, expense of 30 paid by A, split over A, B and C.
    let members = vec![member(1, "A"), member(2, "B"), member(3, "C")];
    let txs = vec![expense(30, 1, vec![1, 2, 3])];
    let bals = balances_of(&members, &txs);
    assert_eq!(values(&bals), vec![20, -10, -10]);
    assert_eq!(bals[0].user_id, 1);
    assert_eq!(bals[0].user_name, "A");
    assert_eq!(bals[1].user_id, 2);
    assert_eq!(bals[2].user_id, 3);
}

#[test]
fn transfer_moves_debt_only_between_the_two() {
    // Transfer of 15 from A to B: A is owed it back, B owes it, C unchanged.
    let members = vec![member(1, "A"), member(2, "B"), member(3, "C")];
    let txs = vec![Transaction {
        amount: 15,
        paid_by: 1,
        kind: TxKind::Transfer { target: Some(2) },
        currency: String::from("EUR"),
        rate: Rate::one(),
        split_between: vec![],
    }];
    let bals = balances_of(&members, &txs);
    assert_eq!(values(&bals), vec![15, -15, 0]);
}

#[test]
fn income_is_an_expense_run_backwards() {
    // Income of 100 received by A, split over A and B.
    let members = vec![member(1, "A"), member(2, "B")];
    let txs = vec![Transaction {
        amount: 100,
        paid_by: 1,
        kind: TxKind::Income,
        currency: String::from("EUR"),
        rate: Rate::one(),
        split_between: vec![1, 2],
    }];
    let bals = balances_of(&members, &txs);
    assert_eq!(values(&bals), vec![-50, 50]);
}

#[test]
fn empty_split_is_a_no_op() {
    let members = vec![member(1, "A"), member(2, "B")];
    let txs = vec![expense(30, 1, vec![])];
    let bals = balances_of(&members, &txs);
    assert_eq!(values(&bals), vec![0, 0]);
}

#[test]
fn absent_member_leg_is_dropped() {
    // Payer 9 is not in the group; only the split legs land.
    let members = vec![member(1, "A"), member(2, "B")];
    let txs = vec![expense(10, 9, vec![1, 2])];
    let bals = balances_of(&members, &txs);
    assert_eq!(values(&bals), vec![-5, -5]);
}

#[test]
fn exchange_rate_converts_into_group_currency() {
    // 10 units at a rate of 3/2 are worth 15.
    let members = vec![member(1, "A"), member(2, "B")];
    let txs = vec![Transaction {
        amount: 10,
        paid_by: 1,
        kind: TxKind::Expense,
        currency: String::from("USD"),
        rate: Rate { num: 3, den: 2 },
        split_between: vec![2],
    }];
    let bals = balances_of(&members, &txs);
    assert_eq!(values(&bals), vec![15, -15]);
}

#[test]
fn remainder_settles_within_the_transaction() {
    // 10 over three legs: shares 4, 3, 3 — they add up to the whole amount.
    let members = vec![member(1, "A"), member(2, "B"), member(3, "C"), member(4, "D")];
    let txs = vec![expense(10, 1, vec![2, 3, 4])];
    let bals = balances_of(&members, &txs);
    assert_eq!(values(&bals), vec![10, -4, -3, -3]);
    assert_eq!(values(&bals).iter().sum::<i128>(), 0);
}

#[test]
fn negative_amount_is_processed_literally() {
    let members = vec![member(1, "A"), member(2, "B")];
    let txs = vec![expense(-10, 1, vec![2])];
    let bals = balances_of(&members, &txs);
    assert_eq!(values(&bals), vec![-10, 10]);
}

#[test]
fn expense_only_history_sums_to_zero() {
    let members = vec![member(1, "A"), member(2, "B"), member(3, "C")];
    let txs = vec![
        expense(30, 1, vec![1, 2, 3]),
        expense(7, 2, vec![1, 3]),
        expense(100, 3, vec![2]),
        expense(13, 2, vec![1, 2, 3]),
    ];
    let bals = balances_of(&members, &txs);
    assert_eq!(values(&bals).iter().sum::<i128>(), 0);
}

#[test]
fn balances_do_not_depend_on_transaction_order() {
    let members = vec![member(1, "A"), member(2, "B"), member(3, "C")];
    let t1 = expense(30, 1, vec![1, 2, 3]);
    let t2 = Transaction {
        amount: 15,
        paid_by: 2,
        kind: TxKind::Transfer { target: Some(1) },
        currency: String::from("EUR"),
        rate: Rate::one(),
        split_between: vec![],
    };
    let t3 = Transaction {
        amount: 100,
        paid_by: 3,
        kind: TxKind::Income,
        currency: String::from("EUR"),
        rate: Rate::one(),
        split_between: vec![1, 2],
    };
    let order_a = vec![t1.clone(), t2.clone(), t3.clone()];
    let order_b = vec![t3, t1, t2];
    assert_eq!(
        values(&balances_of(&members, &order_a)),
        values(&balances_of(&members, &order_b))
    );
}

#[test]
fn duplicate_split_entries_each_owe_a_share() {
    // B appears twice: two of the three shares land on B.
    let members = vec![member(1, "A"), member(2, "B")];
    let txs = vec![expense(9, 1, vec![2, 2, 1])];
    let bals = balances_of(&members, &txs);
    assert_eq!(values(&bals), vec![6, -6]);
}

#[test]
fn transfer_without_target_credits_only_the_payer() {
    let members = vec![member(1, "A"), member(2, "B")];
    let txs = vec![Transaction {
        amount: 8,
        paid_by: 1,
        kind: TxKind::Transfer { target: None },
        currency: String::from("EUR"),
        rate: Rate::one(),
        split_between: vec![],
    }];
    let bals = balances_of(&members, &txs);
    assert_eq!(values(&bals), vec![8, 0]);
}

#[test]
fn no_members_no_balances() {
    let members: Vec<Member> = vec![];
    let txs = vec![expense(30, 1, vec![1])];
    let bals = balances_of(&members, &txs);
    assert!(bals.is_empty());
}

#[test]
fn within_limits_accepts_the_edge_and_rejects_beyond() {
    let mut t = expense(splitledger::ledger::AMOUNT_LIMIT, 1, vec![1]);
    assert!(t.is_within_limits());
    t.amount = splitledger::ledger::AMOUNT_LIMIT + 1;
    assert!(!t.is_within_limits());
    t.amount = 1;
    t.rate = Rate { num: 1, den: 0 };
    assert!(!t.is_within_limits());
}

#[test]
fn kind_names_map_to_kinds_and_default_to_expense() {
    assert_eq!(kind_of("transfer", Some(7)), TxKind::Transfer { target: Some(7) });
    assert_eq!(kind_of("transfer", None), TxKind::Transfer { target: None });
    assert_eq!(kind_of("income", Some(7)), TxKind::Income);
    assert_eq!(kind_of("expense", None), TxKind::Expense);
    // Unknown kind strings have always meant an expense.
    assert_eq!(kind_of("reimbursement", None), TxKind::Expense);
    assert_eq!(kind_of("", None), TxKind::Expense);
}

#[test]
fn transfers_store_no_split_rows() {
    let split = vec![1u128, 2, 3];
    assert!(stored_splits(&TxKind::Transfer { target: Some(2) }, &split).is_empty());
    assert_eq!(stored_splits(&TxKind::Expense, &split), split);
    assert_eq!(stored_splits(&TxKind::Income, &split), split);
}
