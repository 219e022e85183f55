//! The transaction record and its two enumerations.

use vstd::prelude::*;

verus! {

/// Kinds of bank transactions.
#[derive(Clone, Copy, PartialEq, Eq, Structural, Debug)]
pub enum TransactionType {
    /// Money put into an account.
    Deposit,
    /// Money moved between two users.
    Transfer,
    /// Money taken out of an account.
    Withdrawal,
}

/// Processing states of a transaction.
#[derive(Clone, Copy, PartialEq, Eq, Structural, Debug)]
pub enum TransactionStatus {
    /// Completed.
    Success,
    /// Failed.
    Failure,
    /// Not processed yet.
    Pending,
}

/// The mathematical value of a transaction: its fields, the description
/// taken as a sequence of characters.
pub struct TransactionModel {
    pub id: u64,
    pub tx_type: TransactionType,
    pub tx_status: TransactionStatus,
    pub timestamp: u64,
    pub from_user_id: u64,
    pub to_user_id: u64,
    pub amount: u64,
    pub description: Seq<char>,
}

/// A financial transaction.
#[derive(Debug)]
pub struct Transaction {
    id: u64,
    tx_type: TransactionType,
    tx_status: TransactionStatus,
    timestamp: u64,
    from_user_id: u64,
    to_user_id: u64,
    amount: u64,
    description: String,
}

impl View for Transaction {
    type V = TransactionModel;

    closed spec fn view(&self) -> TransactionModel {
        TransactionModel {
            id: self.id,
            tx_type: self.tx_type,
            tx_status: self.tx_status,
            timestamp: self.timestamp,
            from_user_id: self.from_user_id,
            to_user_id: self.to_user_id,
            amount: self.amount,
            description: self.description@,
        }
    }
}

impl Transaction {
    /// Builds a transaction from its fields.
    pub fn new(
        id: u64,
        tx_type: TransactionType,
        tx_status: TransactionStatus,
        timestamp: u64,
        from_user_id: u64,
        to_user_id: u64,
        amount: u64,
        description: String,
    ) -> (t: Self)
        ensures
            t@ == (TransactionModel {
                id,
                tx_type,
                tx_status,
                timestamp,
                from_user_id,
                to_user_id,
                amount,
                description: description@,
            }),
    {
        Transaction {
            id,
            tx_type,
            tx_status,
            timestamp,
            from_user_id,
            to_user_id,
            amount,
            description,
        }
    }

    /// The transaction's id.
    pub fn id(&self) -> (r: u64)
        ensures
            r == self@.id,
    {
        self.id
    }

    /// The transaction's type.
    pub fn tx_type(&self) -> (r: TransactionType)
        ensures
            r == self@.tx_type,
    {
        self.tx_type
    }

    /// The transaction's status.
    pub fn tx_status(&self) -> (r: TransactionStatus)
        ensures
            r == self@.tx_status,
    {
        self.tx_status
    }

    /// When the transaction happened (Unix time).
    pub fn timestamp(&self) -> (r: u64)
        ensures
            r == self@.timestamp,
    {
        self.timestamp
    }

    /// The sending user.
    pub fn from_user_id(&self) -> (r: u64)
        ensures
            r == self@.from_user_id,
    {
        self.from_user_id
    }

    /// The receiving user.
    pub fn to_user_id(&self) -> (r: u64)
        ensures
            r == self@.to_user_id,
    {
        self.to_user_id
    }

    /// The amount moved.
    pub fn amount(&self) -> (r: u64)
        ensures
            r == self@.amount,
    {
        self.amount
    }

    /// The free-text description.
    pub fn description(&self) -> (r: &String)
        ensures
            r@ == self@.description,
    {
        &self.description
    }
}

impl PartialEq for Transaction {
    fn eq(&self, other: &Self) -> (r: bool) {
        self.id == other.id && self.tx_type == other.tx_type && self.tx_status == other.tx_status
            && self.timestamp == other.timestamp && self.from_user_id == other.from_user_id
            && self.to_user_id == other.to_user_id && self.amount == other.amount
            && self.description == other.description
    }
}

impl vstd::std_specs::cmp::PartialEqSpecImpl for Transaction {
    open spec fn obeys_eq_spec() -> bool {
        true
    }

    open spec fn eq_spec(&self, other: &Self) -> bool {
        self@ == other@
    }
}

} // verus!
