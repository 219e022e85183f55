use ypbank::compare::{compare_transactions, count_differences, index_transactions, Difference, InsertOutcome, TransactionIndex};
use ypbank::transaction::{Transaction, TransactionStatus, TransactionType};

fn trn(id: u64, amount: u64) -> Transaction {
    Transaction::new(
        id,
        TransactionType::Transfer,
        TransactionStatus::Success,
        1000 + id,
        1,
        2,
        amount,
        format!("payment {id}"),
    )
}

#[test]
fn index_sorts_by_id_and_keeps_first() {
    let (index, conflicts) = index_transactions(vec![trn(3, 10), trn(1, 10), trn(3, 99), trn(2, 5), trn(1, 10)]);
    let ids: Vec<u64> = index.transactions().iter().map(|t| t.id()).collect();
    assert_eq!(ids, vec![1, 2, 3]);
    assert_eq!(*index.transactions()[2], trn(3, 10));
    assert_eq!(index.get(3), Some(&trn(3, 10)));
    assert!(index.contains(2));
    assert!(!index.contains(4));
    assert_eq!(index.get(4), None);
    assert_eq!(conflicts, vec![3]);
}

#[test]
fn index_insert_outcomes() {
    let mut index = TransactionIndex::new();
    assert_eq!(index.insert(trn(5, 1)), InsertOutcome::Inserted);
    assert_eq!(index.insert(trn(5, 1)), InsertOutcome::Duplicate);
    assert_eq!(index.insert(trn(5, 2)), InsertOutcome::Conflict);
    assert_eq!(index.insert(trn(4, 2)), InsertOutcome::Inserted);
    assert_eq!(index.transactions().len(), 2);
    assert_eq!(index.transactions()[0].id(), 4);
    assert_eq!(*index.transactions()[1], trn(5, 1));
}

#[test]
fn compare_reports_each_kind_of_difference() {
    let (first, _) = index_transactions(vec![trn(1, 10), trn(2, 20), trn(3, 30)]);
    let (second, _) = index_transactions(vec![trn(4, 40), trn(2, 21), trn(1, 10)]);
    let differences = compare_transactions(&first, &second);
    assert_eq!(
        differences,
        vec![
            Difference::Different { id: 2 },
            Difference::MissingInSecond { id: 3 },
            Difference::MissingInFirst { id: 4 },
        ]
    );
}

#[test]
fn compare_identical_indexes() {
    let (first, _) = index_transactions(vec![trn(1, 10), trn(2, 20)]);
    let (second, _) = index_transactions(vec![trn(2, 20), trn(1, 10)]);
    assert!(compare_transactions(&first, &second).is_empty());
    assert!(compare_transactions(&first, &first).is_empty());
}

#[test]
fn difference_counts() {
    let d = vec![
        Difference::MissingInFirst { id: 1 },
        Difference::Different { id: 2 },
        Difference::MissingInFirst { id: 3 },
    ];
    let counts = count_differences(&d);
    assert_eq!(counts.different, 1);
    assert_eq!(counts.missing_in_second, 0);
    assert_eq!(counts.missing_in_first, 2);
}
