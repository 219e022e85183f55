//! The binary record format.
//!
//! A record is the magic `YPBN`, the size of the record body as a big-endian
//! `u32`, then the body: id (`u64`), type code (`u8`), sender, receiver,
//! amount and timestamp (`u64` each), status code (`u8`), the description's
//! length in bytes (`u32`) and the description in UTF-8. All integers are
//! big-endian.

use vstd::prelude::*;

use crate::bytes::{
    be_bytes, be_value, extend_bytes, lemma_be_roundtrip, push_u32_be, push_u64_be, string_from_utf8, u32_be_at,
    u64_be_at,
};
use crate::error::{outcome_of, FormatError, FormatErrorModel, ReadOutcome};
use crate::transaction::{Transaction, TransactionModel, TransactionStatus, TransactionType};

verus! {

/// Size of the fixed part of a record body: five `u64`, two `u8` and one `u32`.
pub const FIXED_RECORD_SIZE: u64 = 46;

/// The four bytes that open every record.
pub open spec fn record_magic() -> Seq<u8> {
    seq![0x59u8, 0x50u8, 0x42u8, 0x4Eu8]
}

/// The type a binary code stands for.
pub open spec fn type_from_code(code: u8) -> Option<TransactionType> {
    if code == 0 {
        Some(TransactionType::Deposit)
    } else if code == 1 {
        Some(TransactionType::Transfer)
    } else if code == 2 {
        Some(TransactionType::Withdrawal)
    } else {
        None
    }
}

/// The binary code of a type.
pub open spec fn type_code(t: TransactionType) -> u8 {
    match t {
        TransactionType::Deposit => 0,
        TransactionType::Transfer => 1,
        TransactionType::Withdrawal => 2,
    }
}

/// The status a binary code stands for.
pub open spec fn status_from_code(code: u8) -> Option<TransactionStatus> {
    if code == 0 {
        Some(TransactionStatus::Success)
    } else if code == 1 {
        Some(TransactionStatus::Failure)
    } else if code == 2 {
        Some(TransactionStatus::Pending)
    } else {
        None
    }
}

/// The binary code of a status.
pub open spec fn status_code(s: TransactionStatus) -> u8 {
    match s {
        TransactionStatus::Success => 0,
        TransactionStatus::Failure => 1,
        TransactionStatus::Pending => 2,
    }
}

/// The value of a decoded description, or the error it ends in.
pub open spec fn string_result(r: Result<String, FormatError>) -> Result<Seq<char>, FormatErrorModel> {
    match r {
        Ok(s) => Ok(s@),
        Err(e) => Err(e@),
    }
}

/// The value of a decoded record body, or the error it ends in.
pub open spec fn record_result(r: Result<Transaction, FormatError>) -> Result<TransactionModel, FormatErrorModel> {
    match r {
        Ok(t) => Ok(t@),
        Err(e) => Err(e@),
    }
}

/// Reading the description length at `p`, checking it against the size that
/// the header declares, and reading the description: its result and the
/// position after what was consumed.
pub open spec fn bin_read_description(s: Seq<u8>, p: int, declared: u32) -> (Result<Seq<char>, FormatErrorModel>, int) {
    let n = s.len() as int;
    if n - p < 4 {
        (Err(FormatErrorModel::UnexpectedEof), n)
    } else {
        let dl = be_value(s.subrange(p, p + 4));
        if FIXED_RECORD_SIZE + dl != declared {
            (Err(FormatErrorModel::RecordSizeMismatch { declared, actual: (FIXED_RECORD_SIZE + dl) as u64 }), p + 4)
        } else if n - (p + 4) < dl {
            (Err(FormatErrorModel::UnexpectedEof), n)
        } else {
            let d = s.subrange(p + 4, p + 4 + dl);
            if vstd::utf8::valid_utf8(d) {
                (Ok(vstd::utf8::decode_utf8(d)), p + 4 + dl)
            } else {
                (Err(FormatErrorModel::InvalidUtf8), p + 4 + dl)
            }
        }
    }
}

/// Reading a record body that starts at `p` and whose header declares size `declared`.
pub open spec fn bin_read_body(s: Seq<u8>, p: int, declared: u32) -> (Result<TransactionModel, FormatErrorModel>, int) {
    let n = s.len() as int;
    if declared < FIXED_RECORD_SIZE {
        (Err(FormatErrorModel::RecordTooSmall { declared }), p)
    } else if n - p < 9 {
        (Err(FormatErrorModel::UnexpectedEof), n)
    } else if type_from_code(s[p + 8]) is None {
        (Err(FormatErrorModel::IllegalTypeCode { code: s[p + 8] }), p + 9)
    } else if n - p < 42 {
        (Err(FormatErrorModel::UnexpectedEof), n)
    } else if status_from_code(s[p + 41]) is None {
        (Err(FormatErrorModel::IllegalStatusCode { code: s[p + 41] }), p + 42)
    } else {
        let (d, q) = bin_read_description(s, p + 42, declared);
        match d {
            Err(e) => (Err(e), q),
            Ok(description) => (
                Ok(TransactionModel {
                    id: be_value(s.subrange(p, p + 8)) as u64,
                    tx_type: type_from_code(s[p + 8])->0,
                    tx_status: status_from_code(s[p + 41])->0,
                    timestamp: be_value(s.subrange(p + 33, p + 41)) as u64,
                    from_user_id: be_value(s.subrange(p + 9, p + 17)) as u64,
                    to_user_id: be_value(s.subrange(p + 17, p + 25)) as u64,
                    amount: be_value(s.subrange(p + 25, p + 33)) as u64,
                    description,
                }),
                q,
            ),
        }
    }
}

/// Reading the record at `p` of `s`: what it comes to and the position
/// after what was consumed.
pub open spec fn bin_read_record(s: Seq<u8>, p: int) -> (ReadOutcome, int) {
    let n = s.len() as int;
    if p >= n {
        (ReadOutcome::End, p)
    } else if n - p < 4 {
        (ReadOutcome::Failed(FormatErrorModel::UnexpectedEof), n)
    } else if s.subrange(p, p + 4) != record_magic() {
        (ReadOutcome::Failed(FormatErrorModel::BadMagic), p + 4)
    } else if n - p < 8 {
        (ReadOutcome::Failed(FormatErrorModel::UnexpectedEof), n)
    } else {
        let (r, q) = bin_read_body(s, p + 8, be_value(s.subrange(p + 4, p + 8)) as u32);
        match r {
            Ok(t) => (ReadOutcome::Record(t), q),
            Err(e) => (ReadOutcome::Failed(e), q),
        }
    }
}

/// The bytes of one record.
pub open spec fn bin_encode(t: TransactionModel) -> Seq<u8> {
    let d = vstd::utf8::encode_utf8(t.description);
    record_magic() + be_bytes(((FIXED_RECORD_SIZE + d.len()) as u32) as nat, 4) + bin_encode_body(t)
}

/// The bytes of a record body.
pub open spec fn bin_encode_body(t: TransactionModel) -> Seq<u8> {
    let d = vstd::utf8::encode_utf8(t.description);
    be_bytes(t.id as nat, 8) + seq![type_code(t.tx_type)] + be_bytes(t.from_user_id as nat, 8)
        + be_bytes(t.to_user_id as nat, 8) + be_bytes(t.amount as nat, 8) + be_bytes(
        t.timestamp as nat,
        8,
    ) + seq![status_code(t.tx_status)] + be_bytes((d.len() as u32) as nat, 4) + d
}

/// Records written one after another.
pub open spec fn bin_encode_all(ts: Seq<TransactionModel>) -> Seq<u8>
    decreases ts.len(),
{
    if ts.len() == 0 {
        seq![]
    } else {
        bin_encode(ts[0]) + bin_encode_all(ts.drop_first())
    }
}

/// Reading records from position `p` on until the input ends or a read
/// fails: the records read, and the error reading ended in, if any.
pub open spec fn bin_read_all(s: Seq<u8>, p: int) -> (Seq<TransactionModel>, Option<FormatErrorModel>)
    decreases s.len() - p,
{
    if p < 0 || p >= s.len() {
        (seq![], None)
    } else {
        let (o, q) = bin_read_record(s, p);
        match o {
            ReadOutcome::Record(t) => if q <= p {
                (seq![t], None)
            } else {
                let (ts, e) = bin_read_all(s, q);
                (seq![t] + ts, e)
            },
            ReadOutcome::Failed(e) => (seq![], Some(e)),
            ReadOutcome::End => (seq![], None),
        }
    }
}

/// A transaction whose record size fits the `u32` of the record header.
pub open spec fn bin_encodable(t: TransactionModel) -> bool {
    FIXED_RECORD_SIZE + vstd::utf8::encode_utf8(t.description).len() <= u32::MAX
}

/// Reading the bytes of a record, wherever they stand, gives back the
/// record and moves past exactly those bytes.
pub proof fn lemma_bin_record_roundtrip(t: TransactionModel, s: Seq<u8>, p: int)
    requires
        bin_encodable(t),
        0 <= p,
        p + bin_encode(t).len() <= s.len(),
        s.subrange(p, p + bin_encode(t).len()) == bin_encode(t),
    ensures
        bin_read_record(s, p) == (ReadOutcome::Record(t), p + bin_encode(t).len()),
{
    let d = vstd::utf8::encode_utf8(t.description);
    let l = d.len() as int;
    let size = ((FIXED_RECORD_SIZE + d.len()) as u32) as nat;
    let e = bin_encode(t);
    crate::bytes::lemma_pow256_values();
    lemma_be_roundtrip(size, 4);
    lemma_be_roundtrip(t.id as nat, 8);
    lemma_be_roundtrip(t.from_user_id as nat, 8);
    lemma_be_roundtrip(t.to_user_id as nat, 8);
    lemma_be_roundtrip(t.amount as nat, 8);
    lemma_be_roundtrip(t.timestamp as nat, 8);
    lemma_be_roundtrip((l as u32) as nat, 4);
    assert(e.len() == 54 + l);
    let b = p + 8;
    assert(s.subrange(p, p + 4) =~= record_magic()) by {
        assert(s.subrange(p, p + 4) =~= e.subrange(0, 4));
    }
    assert(s.subrange(p + 4, p + 8) =~= be_bytes(size, 4)) by {
        assert(s.subrange(p + 4, p + 8) =~= e.subrange(4, 8));
    }
    assert(s.subrange(b, b + 8) =~= be_bytes(t.id as nat, 8)) by {
        assert(s.subrange(b, b + 8) =~= e.subrange(8, 16));
    }
    assert(s[b + 8] == type_code(t.tx_type)) by {
        assert(s[b + 8] == e[16]);
    }
    assert(s.subrange(b + 9, b + 17) =~= be_bytes(t.from_user_id as nat, 8)) by {
        assert(s.subrange(b + 9, b + 17) =~= e.subrange(17, 25));
    }
    assert(s.subrange(b + 17, b + 25) =~= be_bytes(t.to_user_id as nat, 8)) by {
        assert(s.subrange(b + 17, b + 25) =~= e.subrange(25, 33));
    }
    assert(s.subrange(b + 25, b + 33) =~= be_bytes(t.amount as nat, 8)) by {
        assert(s.subrange(b + 25, b + 33) =~= e.subrange(33, 41));
    }
    assert(s.subrange(b + 33, b + 41) =~= be_bytes(t.timestamp as nat, 8)) by {
        assert(s.subrange(b + 33, b + 41) =~= e.subrange(41, 49));
    }
    assert(s[b + 41] == status_code(t.tx_status)) by {
        assert(s[b + 41] == e[49]);
    }
    assert(s.subrange(b + 42, b + 46) =~= be_bytes((l as u32) as nat, 4)) by {
        assert(s.subrange(b + 42, b + 46) =~= e.subrange(50, 54));
    }
    assert(s.subrange(b + 46, b + 46 + l) =~= d) by {
        assert(s.subrange(b + 46, b + 46 + l) =~= e.subrange(54, 54 + l));
    }
    vstd::utf8::encode_utf8_valid_utf8(t.description);
    vstd::utf8::encode_utf8_decode_utf8(t.description);
}

/// Reading back what was written: the records that a sequence of
/// transactions is written as read back as those transactions, in order,
/// and reading ends without error.
pub proof fn bin_write_read_roundtrip(ts: Seq<TransactionModel>)
    requires
        forall|i: int| 0 <= i < ts.len() ==> bin_encodable(#[trigger] ts[i]),
    ensures
        bin_read_all(bin_encode_all(ts), 0) == (ts, Option::<FormatErrorModel>::None),
{
    let s = bin_encode_all(ts);
    assert(s.subrange(0, s.len() as int) =~= s);
    lemma_bin_read_all_from(ts, s, 0);
}

proof fn lemma_bin_read_all_from(ts: Seq<TransactionModel>, s: Seq<u8>, p: int)
    requires
        forall|i: int| 0 <= i < ts.len() ==> bin_encodable(#[trigger] ts[i]),
        0 <= p <= s.len(),
        s.subrange(p, s.len() as int) == bin_encode_all(ts),
    ensures
        bin_read_all(s, p) == (ts, Option::<FormatErrorModel>::None),
    decreases ts.len(),
{
    if ts.len() == 0 {
        assert(s.subrange(p, s.len() as int).len() == 0);
        assert(ts =~= Seq::<TransactionModel>::empty());
    } else {
        let e = bin_encode(ts[0]);
        let rest = bin_encode_all(ts.drop_first());
        assert(bin_encode_all(ts) == e + rest);
        assert(s.subrange(p, p + e.len()) =~= e) by {
            assert(s.subrange(p, p + e.len()) =~= s.subrange(p, s.len() as int).subrange(0, e.len() as int));
        }
        lemma_bin_record_roundtrip(ts[0], s, p);
        assert(e.len() > 0) by {
            assert(e.len() >= 54);
        }
        assert(s.subrange(p + e.len(), s.len() as int) =~= rest) by {
            assert(s.subrange(p + e.len(), s.len() as int) =~= s.subrange(p, s.len() as int).subrange(e.len() as int, (e + rest).len() as int));
        }
        assert forall|i: int| 0 <= i < ts.drop_first().len() implies bin_encodable(#[trigger] ts.drop_first()[i]) by {
            assert(ts.drop_first()[i] == ts[i + 1]);
        }
        lemma_bin_read_all_from(ts.drop_first(), s, p + e.len());
        assert(seq![ts[0]] + ts.drop_first() =~= ts);
    }
}

fn transaction_type_from_raw(tx_type_raw: u8) -> (r: Result<TransactionType, FormatError>)
    ensures
        match r {
            Ok(t) => type_from_code(tx_type_raw) == Some(t),
            Err(e) => type_from_code(tx_type_raw) is None && e@ == (FormatErrorModel::IllegalTypeCode { code: tx_type_raw }),
        },
{
    match tx_type_raw {
        0 => Ok(TransactionType::Deposit),
        1 => Ok(TransactionType::Transfer),
        2 => Ok(TransactionType::Withdrawal),
        _ => Err(FormatError::IllegalTypeCode { code: tx_type_raw }),
    }
}

fn transaction_type_to_raw(tx_type: TransactionType) -> (r: u8)
    ensures
        r == type_code(tx_type),
        type_from_code(r) == Some(tx_type),
{
    match tx_type {
        TransactionType::Deposit => 0,
        TransactionType::Transfer => 1,
        TransactionType::Withdrawal => 2,
    }
}

fn transaction_status_from_raw(tx_status_raw: u8) -> (r: Result<TransactionStatus, FormatError>)
    ensures
        match r {
            Ok(t) => status_from_code(tx_status_raw) == Some(t),
            Err(e) => status_from_code(tx_status_raw) is None && e@ == (FormatErrorModel::IllegalStatusCode { code: tx_status_raw }),
        },
{
    match tx_status_raw {
        0 => Ok(TransactionStatus::Success),
        1 => Ok(TransactionStatus::Failure),
        2 => Ok(TransactionStatus::Pending),
        _ => Err(FormatError::IllegalStatusCode { code: tx_status_raw }),
    }
}

fn transaction_status_to_raw(tx_status: TransactionStatus) -> (r: u8)
    ensures
        r == status_code(tx_status),
        status_from_code(r) == Some(tx_status),
{
    match tx_status {
        TransactionStatus::Success => 0,
        TransactionStatus::Failure => 1,
        TransactionStatus::Pending => 2,
    }
}

fn read_transaction_description(s: &[u8], p: usize, declared: u32) -> (r: (Result<String, FormatError>, usize))
    requires
        p <= s@.len(),
    ensures
        r.1 <= s@.len(),
        (string_result(r.0), r.1 as int) == bin_read_description(s@, p as int, declared),
{
    let n = s.len();
    if n - p < 4 {
        return (Err(FormatError::UnexpectedEof), n);
    }
    let descr_len = u32_be_at(s, p);
    let actual: u64 = FIXED_RECORD_SIZE + descr_len as u64;
    if actual != declared as u64 {
        return (Err(FormatError::RecordSizeMismatch { declared, actual }), p + 4);
    }
    let start = p + 4;
    if descr_len == 0 {
        let ghost d = s@.subrange(start as int, start as int);
        assert(d =~= Seq::<u8>::empty());
        assert(vstd::utf8::valid_utf8(d));
        assert(vstd::utf8::decode_utf8(d) =~= Seq::<char>::empty());
        return (Ok(String::new()), start);
    }
    if ((n - start) as u64) < descr_len as u64 {
        return (Err(FormatError::UnexpectedEof), n);
    }
    let end = start + descr_len as usize;
    let bytes = vstd::slice::slice_to_vec(vstd::slice::slice_subrange(s, start, end));
    match string_from_utf8(bytes) {
        Some(description) => (Ok(description), end),
        None => (Err(FormatError::InvalidUtf8), end),
    }
}

fn read_record_body(s: &[u8], p: usize, declared: u32) -> (r: (Result<Transaction, FormatError>, usize))
    requires
        p <= s@.len(),
    ensures
        r.1 <= s@.len(),
        (record_result(r.0), r.1 as int) == bin_read_body(s@, p as int, declared),
{
    let n = s.len();
    if (declared as u64) < FIXED_RECORD_SIZE {
        return (Err(FormatError::RecordTooSmall { declared }), p);
    }
    if n - p < 9 {
        return (Err(FormatError::UnexpectedEof), n);
    }
    let id = u64_be_at(s, p);
    let tx_type = match transaction_type_from_raw(s[p + 8]) {
        Ok(t) => t,
        Err(e) => return (Err(e), p + 9),
    };
    if n - p < 42 {
        return (Err(FormatError::UnexpectedEof), n);
    }
    let from_user_id = u64_be_at(s, p + 9);
    let to_user_id = u64_be_at(s, p + 17);
    let amount = u64_be_at(s, p + 25);
    let timestamp = u64_be_at(s, p + 33);
    let tx_status = match transaction_status_from_raw(s[p + 41]) {
        Ok(t) => t,
        Err(e) => return (Err(e), p + 42),
    };
    let (description, q) = read_transaction_description(s, p + 42, declared);
    match description {
        Err(e) => (Err(e), q),
        Ok(description) => (
            Ok(
                Transaction::new(
                    id,
                    tx_type,
                    tx_status,
                    timestamp,
                    from_user_id,
                    to_user_id,
                    amount,
                    description,
                ),
            ),
            q,
        ),
    }
}

/// Reads the record at `p`: the result and the position after what was consumed.
fn read_record(s: &[u8], p: usize) -> (r: (Result<Option<Transaction>, FormatError>, usize))
    requires
        p <= s@.len(),
    ensures
        r.1 <= s@.len(),
        (outcome_of(r.0), r.1 as int) == bin_read_record(s@, p as int),
{
    let n = s.len();
    if p == n {
        return (Ok(None), p);
    }
    if n - p < 4 {
        return (Err(FormatError::UnexpectedEof), n);
    }
    if !(s[p] == 0x59 && s[p + 1] == 0x50 && s[p + 2] == 0x42 && s[p + 3] == 0x4E) {
        assert(s@.subrange(p as int, p + 4) != record_magic()) by {
            if s@.subrange(p as int, p + 4) == record_magic() {
                assert(s@.subrange(p as int, p + 4)[0] == s@[p as int]);
                assert(s@.subrange(p as int, p + 4)[1] == s@[p + 1]);
                assert(s@.subrange(p as int, p + 4)[2] == s@[p + 2]);
                assert(s@.subrange(p as int, p + 4)[3] == s@[p + 3]);
            }
        }
        return (Err(FormatError::BadMagic), p + 4);
    }
    assert(s@.subrange(p as int, p + 4) =~= record_magic());
    if n - p < 8 {
        return (Err(FormatError::UnexpectedEof), n);
    }
    let record_size = u32_be_at(s, p + 4);
    let (body, q) = read_record_body(s, p + 8, record_size);
    match body {
        Ok(t) => (Ok(Some(t)), q),
        Err(e) => (Err(e), q),
    }
}

/// Decodes a sequence of binary records held in memory.
pub struct BinTransactionReader {
    input: Vec<u8>,
    pos: usize,
}

impl BinTransactionReader {
    #[verifier::type_invariant]
    spec fn position_in_input(&self) -> bool {
        self.pos <= self.input@.len()
    }

    /// The bytes being decoded.
    pub closed spec fn input(&self) -> Seq<u8> {
        self.input@
    }

    /// How many bytes have been consumed.
    pub closed spec fn position(&self) -> int {
        self.pos as int
    }

    /// A reader positioned at the start of `input`.
    pub fn new(input: Vec<u8>) -> (r: Self)
        ensures
            r.input() == input@,
            r.position() == 0,
    {
        BinTransactionReader { input, pos: 0 }
    }

    /// Decodes the next record: `Ok(None)` at the end of the input,
    /// `Ok(Some(..))` for a record, `Err(..)` when the bytes are no record.
    pub fn read_next(&mut self) -> (r: Result<Option<Transaction>, FormatError>)
        ensures
            final(self).input() == old(self).input(),
            0 <= old(self).position() <= old(self).input().len(),
            0 <= final(self).position() <= final(self).input().len(),
            (outcome_of(r), final(self).position()) == bin_read_record(
                old(self).input(),
                old(self).position(),
            ),
    {
        proof {
            use_type_invariant(&*self);
        }
        let (r, q) = read_record(self.input.as_slice(), self.pos);
        self.pos = q;
        r
    }
}

/// Encodes transactions as binary records into a byte buffer.
pub struct BinTransactionWriter {
    output: Vec<u8>,
}

impl BinTransactionWriter {
    /// A writer that appends to `output`.
    pub fn new(output: Vec<u8>) -> (w: Self)
        ensures
            w.written() == output@,
    {
        BinTransactionWriter { output }
    }

    /// The bytes written so far.
    pub closed spec fn written(&self) -> Seq<u8> {
        self.output@
    }

    fn write_record_header(&mut self, transaction: &Transaction)
        ensures
            final(self).output@ == old(self).output@ + record_magic() + be_bytes(
                ((FIXED_RECORD_SIZE + vstd::utf8::encode_utf8(transaction@.description).len()) as u32) as nat,
                4,
            ),
    {
        let len = transaction.description().as_str().as_bytes().len();
        self.output.push(0x59);
        self.output.push(0x50);
        self.output.push(0x42);
        self.output.push(0x4E);
        assert(self.output@ =~= old(self).output@ + record_magic());
        push_u32_be(&mut self.output, (FIXED_RECORD_SIZE as u128 + len as u128) as u32);
    }

    fn write_transaction_description(&mut self, transaction_description: &String)
        ensures
            final(self).output@ == old(self).output@ + be_bytes(
                (vstd::utf8::encode_utf8(transaction_description@).len() as u32) as nat,
                4,
            ) + vstd::utf8::encode_utf8(transaction_description@),
    {
        let bytes = transaction_description.as_str().as_bytes();
        push_u32_be(&mut self.output, bytes.len() as u32);
        extend_bytes(&mut self.output, bytes);
    }

    fn write_record_body(&mut self, transaction: &Transaction)
        ensures
            final(self).output@ == old(self).output@ + bin_encode_body(transaction@),
    {
        push_u64_be(&mut self.output, transaction.id());
        self.output.push(transaction_type_to_raw(transaction.tx_type()));
        push_u64_be(&mut self.output, transaction.from_user_id());
        push_u64_be(&mut self.output, transaction.to_user_id());
        push_u64_be(&mut self.output, transaction.amount());
        push_u64_be(&mut self.output, transaction.timestamp());
        self.output.push(transaction_status_to_raw(transaction.tx_status()));
        self.write_transaction_description(transaction.description());
        assert(self.output@ =~= old(self).output@ + bin_encode_body(transaction@));
    }

    /// Appends the record of `transaction`.
    pub fn write_next(&mut self, transaction: &Transaction) -> (r: Result<(), FormatError>)
        ensures
            r is Ok,
            final(self).written() == old(self).written() + bin_encode(transaction@),
    {
        self.write_record_header(transaction);
        self.write_record_body(transaction);
        assert(self.output@ =~= old(self).output@ + bin_encode(transaction@));
        Ok(())
    }

    /// Nothing is buffered beyond the output: flushing always succeeds and
    /// changes nothing.
    pub fn flush(&mut self) -> (r: Result<(), FormatError>)
        ensures
            r is Ok,
            final(self).written() == old(self).written(),
    {
        Ok(())
    }

    /// The bytes written so far.
    pub fn output(&self) -> (r: &Vec<u8>)
        ensures
            r@ == self.written(),
    {
        &self.output
    }

    /// Hands out the bytes written so far and empties the buffer.
    pub fn take_output(&mut self) -> (r: Vec<u8>)
        ensures
            r@ == old(self).written(),
            final(self).written() == Seq::<u8>::empty(),
    {
        let mut out = Vec::new();
        std::mem::swap(&mut out, &mut self.output);
        out
    }
}

/// Appending a record to the records written.
pub proof fn lemma_bin_encode_all_push(ts: Seq<TransactionModel>, t: TransactionModel)
    ensures
        bin_encode_all(ts.push(t)) == bin_encode_all(ts) + bin_encode(t),
    decreases ts.len(),
{
    if ts.len() == 0 {
        reveal_with_fuel(bin_encode_all, 2);
        assert(ts.push(t).drop_first() =~= Seq::<TransactionModel>::empty());
        assert(bin_encode_all(ts.push(t)) =~= bin_encode(t));
        assert(bin_encode_all(ts) =~= Seq::<u8>::empty());
        assert(bin_encode_all(ts) + bin_encode(t) =~= bin_encode(t));
    } else {
        lemma_bin_encode_all_push(ts.drop_first(), t);
        assert(ts.push(t).drop_first() =~= ts.drop_first().push(t));
        assert(ts.push(t)[0] == ts[0]);
        assert(bin_encode_all(ts.push(t)) =~= bin_encode(ts[0]) + (bin_encode_all(ts.drop_first()) + bin_encode(t)));
    }
}


/// The type and status bytes that the binary format fixes: a record holds
/// its type at offset 16, 0 for a deposit, 1 for a transfer and 2 for a
/// withdrawal, and its status at offset 49, 0 for success, 1 for failure
/// and 2 for pending.
pub proof fn bin_type_and_status_bytes(t: TransactionModel)
    ensures
        bin_encode(t)[16] == (match t.tx_type {
            TransactionType::Deposit => 0u8,
            TransactionType::Transfer => 1u8,
            TransactionType::Withdrawal => 2u8,
        }),
        bin_encode(t)[49] == (match t.tx_status {
            TransactionStatus::Success => 0u8,
            TransactionStatus::Failure => 1u8,
            TransactionStatus::Pending => 2u8,
        }),
{
    let d = vstd::utf8::encode_utf8(t.description);
    crate::bytes::lemma_be_bytes_len(((FIXED_RECORD_SIZE + d.len()) as u32) as nat, 4);
    crate::bytes::lemma_be_bytes_len(t.id as nat, 8);
    crate::bytes::lemma_be_bytes_len(t.from_user_id as nat, 8);
    crate::bytes::lemma_be_bytes_len(t.to_user_id as nat, 8);
    crate::bytes::lemma_be_bytes_len(t.amount as nat, 8);
    crate::bytes::lemma_be_bytes_len(t.timestamp as nat, 8);
    let body = bin_encode_body(t);
    assert(body[8] == type_code(t.tx_type));
    assert(body[41] == status_code(t.tx_status));
    assert(bin_encode(t)[16] == body[8]);
    assert(bin_encode(t)[49] == body[41]);
}

/// Reading a record takes its type from the byte at offset 16 and its
/// status from the byte at offset 49, as the binary format fixes them:
/// 0, 1, 2 are deposit, transfer, withdrawal, and success, failure,
/// pending; any other type byte in a record of sound size is an error.
pub proof fn bin_read_type_and_status(s: Seq<u8>, p: int)
    requires
        0 <= p,
    ensures
        bin_read_record(s, p).0 matches ReadOutcome::Record(t) ==> {
            &&& p + 50 <= s.len()
            &&& (s[p + 16] == 0 ==> t.tx_type == TransactionType::Deposit)
            &&& (s[p + 16] == 1 ==> t.tx_type == TransactionType::Transfer)
            &&& (s[p + 16] == 2 ==> t.tx_type == TransactionType::Withdrawal)
            &&& s[p + 16] <= 2
            &&& (s[p + 49] == 0 ==> t.tx_status == TransactionStatus::Success)
            &&& (s[p + 49] == 1 ==> t.tx_status == TransactionStatus::Failure)
            &&& (s[p + 49] == 2 ==> t.tx_status == TransactionStatus::Pending)
            &&& s[p + 49] <= 2
        },
        p + 17 <= s.len() && s.subrange(p, p + 4) == record_magic() && be_value(s.subrange(p + 4, p + 8)) as u32
            >= FIXED_RECORD_SIZE && s[p + 16] > 2 ==> bin_read_record(s, p).0
            == ReadOutcome::Failed(FormatErrorModel::IllegalTypeCode { code: s[p + 16] }),
{
}

} // verus!
