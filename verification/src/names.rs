//! The names that the textual formats give transaction types and statuses.

use vstd::prelude::*;

use crate::chars::chars_equal;
use crate::transaction::{TransactionStatus, TransactionType};

verus! {

/// The name of a transaction type.
pub open spec fn tx_type_name(t: TransactionType) -> Seq<char> {
    match t {
        TransactionType::Deposit => seq!['D', 'E', 'P', 'O', 'S', 'I', 'T'],
        TransactionType::Transfer => seq!['T', 'R', 'A', 'N', 'S', 'F', 'E', 'R'],
        TransactionType::Withdrawal => seq!['W', 'I', 'T', 'H', 'D', 'R', 'A', 'W', 'A', 'L'],
    }
}

/// The name of a transaction status.
pub open spec fn tx_status_name(s: TransactionStatus) -> Seq<char> {
    match s {
        TransactionStatus::Success => seq!['S', 'U', 'C', 'C', 'E', 'S', 'S'],
        TransactionStatus::Failure => seq!['F', 'A', 'I', 'L', 'U', 'R', 'E'],
        TransactionStatus::Pending => seq!['P', 'E', 'N', 'D', 'I', 'N', 'G'],
    }
}

/// The type that a name stands for.
pub open spec fn tx_type_from_name(name: Seq<char>) -> Option<TransactionType> {
    if name == tx_type_name(TransactionType::Deposit) {
        Some(TransactionType::Deposit)
    } else if name == tx_type_name(TransactionType::Transfer) {
        Some(TransactionType::Transfer)
    } else if name == tx_type_name(TransactionType::Withdrawal) {
        Some(TransactionType::Withdrawal)
    } else {
        None
    }
}

/// The status that a name stands for.
pub open spec fn tx_status_from_name(name: Seq<char>) -> Option<TransactionStatus> {
    if name == tx_status_name(TransactionStatus::Success) {
        Some(TransactionStatus::Success)
    } else if name == tx_status_name(TransactionStatus::Failure) {
        Some(TransactionStatus::Failure)
    } else if name == tx_status_name(TransactionStatus::Pending) {
        Some(TransactionStatus::Pending)
    } else {
        None
    }
}

/// Each name reads back as what it names.
pub proof fn lemma_names_roundtrip(t: TransactionType, s: TransactionStatus)
    ensures
        tx_type_from_name(tx_type_name(t)) == Some(t),
        tx_status_from_name(tx_status_name(s)) == Some(s),
{
    assert(tx_type_name(TransactionType::Deposit) != tx_type_name(TransactionType::Transfer));
    assert(tx_type_name(TransactionType::Deposit)[0] != tx_type_name(TransactionType::Withdrawal)[0]);
    assert(tx_type_name(TransactionType::Transfer)[0] != tx_type_name(TransactionType::Withdrawal)[0]);
    assert(tx_status_name(TransactionStatus::Success)[0] != tx_status_name(TransactionStatus::Failure)[0]);
    assert(tx_status_name(TransactionStatus::Success)[0] != tx_status_name(TransactionStatus::Pending)[0]);
    assert(tx_status_name(TransactionStatus::Failure)[0] != tx_status_name(TransactionStatus::Pending)[0]);
}

/// The name of a transaction type.
pub fn tx_type_name_chars(t: TransactionType) -> (r: Vec<char>)
    ensures
        r@ == tx_type_name(t),
{
    match t {
        TransactionType::Deposit => vec!['D', 'E', 'P', 'O', 'S', 'I', 'T'],
        TransactionType::Transfer => vec!['T', 'R', 'A', 'N', 'S', 'F', 'E', 'R'],
        TransactionType::Withdrawal => vec!['W', 'I', 'T', 'H', 'D', 'R', 'A', 'W', 'A', 'L'],
    }
}

/// The name of a transaction status.
pub fn tx_status_name_chars(s: TransactionStatus) -> (r: Vec<char>)
    ensures
        r@ == tx_status_name(s),
{
    match s {
        TransactionStatus::Success => vec!['S', 'U', 'C', 'C', 'E', 'S', 'S'],
        TransactionStatus::Failure => vec!['F', 'A', 'I', 'L', 'U', 'R', 'E'],
        TransactionStatus::Pending => vec!['P', 'E', 'N', 'D', 'I', 'N', 'G'],
    }
}

/// The type that a name stands for.
pub fn tx_type_named(name: &[char]) -> (r: Option<TransactionType>)
    ensures
        r == tx_type_from_name(name@),
{
    let deposit = tx_type_name_chars(TransactionType::Deposit);
    let transfer = tx_type_name_chars(TransactionType::Transfer);
    let withdrawal = tx_type_name_chars(TransactionType::Withdrawal);
    if chars_equal(name, deposit.as_slice()) {
        Some(TransactionType::Deposit)
    } else if chars_equal(name, transfer.as_slice()) {
        Some(TransactionType::Transfer)
    } else if chars_equal(name, withdrawal.as_slice()) {
        Some(TransactionType::Withdrawal)
    } else {
        None
    }
}

/// The status that a name stands for.
pub fn tx_status_named(name: &[char]) -> (r: Option<TransactionStatus>)
    ensures
        r == tx_status_from_name(name@),
{
    let success = tx_status_name_chars(TransactionStatus::Success);
    let failure = tx_status_name_chars(TransactionStatus::Failure);
    let pending = tx_status_name_chars(TransactionStatus::Pending);
    if chars_equal(name, success.as_slice()) {
        Some(TransactionStatus::Success)
    } else if chars_equal(name, failure.as_slice()) {
        Some(TransactionStatus::Failure)
    } else if chars_equal(name, pending.as_slice()) {
        Some(TransactionStatus::Pending)
    } else {
        None
    }
}

} // verus!
