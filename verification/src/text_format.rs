//! The text record format.
//!
//! A record is a block of `KEY: value` lines; records are separated by blank
//! lines and lines that start with `#` are comments. Fields may come in any
//! order; a missing sender of a deposit, a missing receiver of a withdrawal
//! and a missing description take defaults (`0`, `0`, empty).

use vstd::prelude::*;

use crate::bytes::{extend_bytes, string_from_utf8};
use crate::chars::{
    chars_start_with, decimal, parse_u64, parse_u64_chars, push_decimal, starts_with, str_chars,
    string_from_chars, trim, trim_bounds,
};
use crate::error::{outcome_of, Field, FormatError, FormatErrorModel, ReadOutcome};
use crate::names::{
    tx_status_from_name, tx_status_name, tx_status_name_chars, tx_status_named, tx_type_from_name,
    tx_type_name, tx_type_name_chars, tx_type_named,
};
use crate::transaction::{Transaction, TransactionModel, TransactionStatus, TransactionType};

verus! {

/// The key that opens the line of a field.
pub open spec fn field_prefix(f: Field) -> Seq<char> {
    match f {
        Field::Id => seq!['T', 'X', '_', 'I', 'D', ':'],
        Field::Type => seq!['T', 'X', '_', 'T', 'Y', 'P', 'E', ':'],
        Field::FromUserId => seq!['F', 'R', 'O', 'M', '_', 'U', 'S', 'E', 'R', '_', 'I', 'D', ':'],
        Field::ToUserId => seq!['T', 'O', '_', 'U', 'S', 'E', 'R', '_', 'I', 'D', ':'],
        Field::Amount => seq!['A', 'M', 'O', 'U', 'N', 'T', ':'],
        Field::Timestamp => seq!['T', 'I', 'M', 'E', 'S', 'T', 'A', 'M', 'P', ':'],
        Field::Status => seq!['S', 'T', 'A', 'T', 'U', 'S', ':'],
        Field::Description => seq!['D', 'E', 'S', 'C', 'R', 'I', 'P', 'T', 'I', 'O', 'N', ':'],
    }
}

fn field_prefix_chars(f: Field) -> (r: Vec<char>)
    ensures
        r@ == field_prefix(f),
{
    match f {
        Field::Id => vec!['T', 'X', '_', 'I', 'D', ':'],
        Field::Type => vec!['T', 'X', '_', 'T', 'Y', 'P', 'E', ':'],
        Field::FromUserId => vec!['F', 'R', 'O', 'M', '_', 'U', 'S', 'E', 'R', '_', 'I', 'D', ':'],
        Field::ToUserId => vec!['T', 'O', '_', 'U', 'S', 'E', 'R', '_', 'I', 'D', ':'],
        Field::Amount => vec!['A', 'M', 'O', 'U', 'N', 'T', ':'],
        Field::Timestamp => vec!['T', 'I', 'M', 'E', 'S', 'T', 'A', 'M', 'P', ':'],
        Field::Status => vec!['S', 'T', 'A', 'T', 'U', 'S', ':'],
        Field::Description => vec!['D', 'E', 'S', 'C', 'R', 'I', 'P', 'T', 'I', 'O', 'N', ':'],
    }
}

/// The fields gathered for one record so far.
pub struct FieldsModel {
    pub id: Option<u64>,
    pub tx_type: Option<TransactionType>,
    pub from_user_id: Option<u64>,
    pub to_user_id: Option<u64>,
    pub amount: Option<u64>,
    pub timestamp: Option<u64>,
    pub tx_status: Option<TransactionStatus>,
    pub description: Option<Seq<char>>,
}

/// No field gathered.
pub open spec fn fields_empty() -> FieldsModel {
    FieldsModel {
        id: None,
        tx_type: None,
        from_user_id: None,
        to_user_id: None,
        amount: None,
        timestamp: None,
        tx_status: None,
        description: None,
    }
}

/// Whether no field has been gathered.
pub open spec fn fields_is_empty(f: FieldsModel) -> bool {
    f.id is None && f.tx_type is None && f.from_user_id is None && f.to_user_id is None
        && f.amount is None && f.timestamp is None && f.tx_status is None && f.description is None
}

/// The value of the numeric field `field`.
pub open spec fn number_field(f: FieldsModel, field: Field) -> Option<u64> {
    match field {
        Field::Id => f.id,
        Field::FromUserId => f.from_user_id,
        Field::ToUserId => f.to_user_id,
        Field::Amount => f.amount,
        _ => f.timestamp,
    }
}

/// `f` with the numeric field `field` set to `v`.
pub open spec fn with_number_field(f: FieldsModel, field: Field, v: u64) -> FieldsModel {
    match field {
        Field::Id => FieldsModel { id: Some(v), ..f },
        Field::FromUserId => FieldsModel { from_user_id: Some(v), ..f },
        Field::ToUserId => FieldsModel { to_user_id: Some(v), ..f },
        Field::Amount => FieldsModel { amount: Some(v), ..f },
        _ => FieldsModel { timestamp: Some(v), ..f },
    }
}

/// Whether a field is one of the five numeric ones.
pub open spec fn is_number_field(field: Field) -> bool {
    field == Field::Id || field == Field::FromUserId || field == Field::ToUserId || field
        == Field::Amount || field == Field::Timestamp
}

/// What a line of text is.
#[derive(Clone, Copy, PartialEq, Eq, Structural, Debug)]
pub enum LineKind {
    /// Blank.
    Empty,
    /// A comment.
    Comment,
    /// A field.
    Field,
    /// There is no line left.
    Eof,
}

/// The value part of a field line: what follows the key, trimmed.
pub open spec fn field_value(line: Seq<char>, field: Field) -> Seq<char> {
    trim(line.subrange(field_prefix(field).len() as int, line.len() as int))
}

/// A description in double quotes, without the quotes.
pub open spec fn description_from_raw(v: Seq<char>) -> Result<Seq<char>, FormatErrorModel> {
    if v.len() >= 2 && v[0] == '"' && v.last() == '"' {
        Ok(v.subrange(1, v.len() - 1))
    } else {
        Err(FormatErrorModel::IllegalDescription)
    }
}

/// Reading the numeric field `field` from `line` into `f`.
pub open spec fn read_number_field(line: Seq<char>, f: FieldsModel, field: Field) -> Result<(LineKind, FieldsModel), FormatErrorModel> {
    if number_field(f, field) is Some {
        Err(FormatErrorModel::DuplicatedField { field })
    } else {
        match parse_u64(field_value(line, field)) {
            Ok(v) => Ok((LineKind::Field, with_number_field(f, field, v))),
            Err(kind) => Err(FormatErrorModel::BadNumber { field, kind }),
        }
    }
}

/// What one line does to the fields gathered so far.
pub open spec fn text_read_line(line: Seq<char>, f: FieldsModel) -> Result<(LineKind, FieldsModel), FormatErrorModel> {
    if trim(line).len() == 0 {
        Ok((LineKind::Empty, f))
    } else if starts_with(line, seq!['#']) {
        Ok((LineKind::Comment, f))
    } else if starts_with(line, field_prefix(Field::Id)) {
        read_number_field(line, f, Field::Id)
    } else if starts_with(line, field_prefix(Field::Type)) {
        if f.tx_type is Some {
            Err(FormatErrorModel::DuplicatedField { field: Field::Type })
        } else {
            let v = field_value(line, Field::Type);
            match tx_type_from_name(v) {
                Some(t) => Ok((LineKind::Field, FieldsModel { tx_type: Some(t), ..f })),
                None => Err(FormatErrorModel::IllegalTypeName { name: v }),
            }
        }
    } else if starts_with(line, field_prefix(Field::FromUserId)) {
        read_number_field(line, f, Field::FromUserId)
    } else if starts_with(line, field_prefix(Field::ToUserId)) {
        read_number_field(line, f, Field::ToUserId)
    } else if starts_with(line, field_prefix(Field::Amount)) {
        read_number_field(line, f, Field::Amount)
    } else if starts_with(line, field_prefix(Field::Timestamp)) {
        read_number_field(line, f, Field::Timestamp)
    } else if starts_with(line, field_prefix(Field::Status)) {
        if f.tx_status is Some {
            Err(FormatErrorModel::DuplicatedField { field: Field::Status })
        } else {
            let v = field_value(line, Field::Status);
            match tx_status_from_name(v) {
                Some(s) => Ok((LineKind::Field, FieldsModel { tx_status: Some(s), ..f })),
                None => Err(FormatErrorModel::IllegalStatusName { name: v }),
            }
        }
    } else if starts_with(line, field_prefix(Field::Description)) {
        if f.description is Some {
            Err(FormatErrorModel::DuplicatedField { field: Field::Description })
        } else {
            match description_from_raw(field_value(line, Field::Description)) {
                Ok(d) => Ok((LineKind::Field, FieldsModel { description: Some(d), ..f })),
                Err(e) => Err(e),
            }
        }
    } else {
        Err(FormatErrorModel::UnparsedLine { line })
    }
}

/// Where the line that starts at `p` ends: just after its newline, or at
/// the end of the input.
pub open spec fn line_end(s: Seq<u8>, p: int) -> int
    decreases s.len() - p,
{
    if p >= s.len() {
        s.len() as int
    } else if s[p] == 10 {
        p + 1
    } else {
        line_end(s, p + 1)
    }
}

pub proof fn lemma_line_end_bounds(s: Seq<u8>, p: int)
    requires
        0 <= p < s.len(),
    ensures
        p < line_end(s, p) <= s.len(),
    decreases s.len() - p,
{
    reveal_with_fuel(line_end, 2);
    if s[p] != 10 && p + 1 < s.len() {
        lemma_line_end_bounds(s, p + 1);
    }
}

/// Gathering fields line by line from `p` on: up to a blank line that
/// follows a field, or the end of the input, or the first line in error.
/// The result, and the position after the lines consumed.
pub open spec fn text_read_fields(s: Seq<u8>, p: int, f: FieldsModel) -> (Result<FieldsModel, FormatErrorModel>, int)
    decreases s.len() - p,
{
    if p < 0 || p >= s.len() {
        (Ok(f), p)
    } else {
        let e = line_end(s, p);
        proof {
            lemma_line_end_bounds(s, p);
        }
        let bytes = s.subrange(p, e);
        if e <= p {
            (Ok(f), p)
        } else if !vstd::utf8::valid_utf8(bytes) {
            (Err(FormatErrorModel::InvalidLineUtf8), e)
        } else {
            match text_read_line(vstd::utf8::decode_utf8(bytes), f) {
                Err(err) => (Err(err), e),
                Ok((kind, g)) => if kind == LineKind::Empty && !fields_is_empty(g) {
                    (Ok(g), e)
                } else {
                    text_read_fields(s, e, g)
                },
            }
        }
    }
}

/// A description line whose value is a lone double quote, met while the
/// record has no description yet: a value that the decoder cannot strip of
/// its quotes, and an input that decoding does not accept.
pub open spec fn lone_quote_line(line: Seq<char>, f: FieldsModel) -> bool {
    &&& starts_with(line, field_prefix(Field::Description))
    &&& f.description is None
    &&& field_value(line, Field::Description) == seq!['"']
}

/// Whether gathering fields from `p` on meets a lone-quote description
/// line before it stops.
pub open spec fn fields_meet_lone_quote(s: Seq<u8>, p: int, f: FieldsModel) -> bool
    decreases s.len() - p,
{
    if p < 0 || p >= s.len() {
        false
    } else {
        let e = line_end(s, p);
        proof {
            lemma_line_end_bounds(s, p);
        }
        let bytes = s.subrange(p, e);
        if e <= p || !vstd::utf8::valid_utf8(bytes) {
            false
        } else if lone_quote_line(vstd::utf8::decode_utf8(bytes), f) {
            true
        } else {
            match text_read_line(vstd::utf8::decode_utf8(bytes), f) {
                Err(_) => false,
                Ok((kind, g)) => if kind == LineKind::Empty && !fields_is_empty(g) {
                    false
                } else {
                    fields_meet_lone_quote(s, e, g)
                },
            }
        }
    }
}

/// A lone-quote description line is a line in error.
pub proof fn lemma_lone_quote_fails(line: Seq<char>, f: FieldsModel)
    requires
        lone_quote_line(line, f),
    ensures
        text_read_line(line, f) == Err::<(LineKind, FieldsModel), FormatErrorModel>(FormatErrorModel::IllegalDescription),
{
    let p = field_prefix(Field::Description);
    assert(line.subrange(0, p.len() as int) == p);
    assert(line[0] == line.subrange(0, p.len() as int)[0]);
    assert(line[0] == 'D');
    crate::text_roundtrip::lemma_trim_nonblank(line);
    assert(!starts_with(line, seq!['#'])) by {
        if starts_with(line, seq!['#']) {
            assert(line.subrange(0, 1)[0] == line[0]);
        }
    }
    assert forall|g: Field| g != Field::Description implies !starts_with(line, #[trigger] field_prefix(g)) by {
        if starts_with(line, field_prefix(g)) {
            assert(line.subrange(0, field_prefix(g).len() as int)[0] == line[0]);
        }
    }
}

/// Whether reading the record at `p` meets a lone-quote description line.
pub open spec fn record_meets_lone_quote(s: Seq<u8>, p: int) -> bool {
    fields_meet_lone_quote(s, p, fields_empty())
}

/// The transaction that gathered fields make, defaults filled in.
pub open spec fn build_transaction(f: FieldsModel) -> Result<TransactionModel, FormatErrorModel> {
    if f.id is None {
        Err(FormatErrorModel::MissedField { field: Field::Id })
    } else if f.tx_type is None {
        Err(FormatErrorModel::MissedField { field: Field::Type })
    } else {
        let tx_type = f.tx_type->0;
        let from = if f.from_user_id is None && tx_type == TransactionType::Deposit {
            Some(0u64)
        } else {
            f.from_user_id
        };
        let to = if f.to_user_id is None && tx_type == TransactionType::Withdrawal {
            Some(0u64)
        } else {
            f.to_user_id
        };
        if from is None {
            Err(FormatErrorModel::MissedField { field: Field::FromUserId })
        } else if to is None {
            Err(FormatErrorModel::MissedField { field: Field::ToUserId })
        } else if f.amount is None {
            Err(FormatErrorModel::MissedField { field: Field::Amount })
        } else if f.timestamp is None {
            Err(FormatErrorModel::MissedField { field: Field::Timestamp })
        } else if f.tx_status is None {
            Err(FormatErrorModel::MissedField { field: Field::Status })
        } else {
            Ok(
                TransactionModel {
                    id: f.id->0,
                    tx_type,
                    tx_status: f.tx_status->0,
                    timestamp: f.timestamp->0,
                    from_user_id: from->0,
                    to_user_id: to->0,
                    amount: f.amount->0,
                    description: match f.description {
                        Some(d) => d,
                        None => Seq::<char>::empty(),
                    },
                },
            )
        }
    }
}

/// Reading the record at `p` of `s`: what it comes to and the position
/// after what was consumed.
pub open spec fn text_read_record(s: Seq<u8>, p: int) -> (ReadOutcome, int) {
    let (r, q) = text_read_fields(s, p, fields_empty());
    match r {
        Err(e) => (ReadOutcome::Failed(e), q),
        Ok(f) => if fields_is_empty(f) {
            (ReadOutcome::End, q)
        } else {
            match build_transaction(f) {
                Ok(t) => (ReadOutcome::Record(t), q),
                Err(e) => (ReadOutcome::Failed(e), q),
            }
        },
    }
}

/// The fields of a text record gathered so far, each set at most once.
pub struct TransactionFields {
    id: Option<u64>,
    tx_type: Option<TransactionType>,
    from_user_id: Option<u64>,
    to_user_id: Option<u64>,
    amount: Option<u64>,
    timestamp: Option<u64>,
    tx_status: Option<TransactionStatus>,
    description: Option<String>,
}

impl View for TransactionFields {
    type V = FieldsModel;

    closed spec fn view(&self) -> FieldsModel {
        FieldsModel {
            id: self.id,
            tx_type: self.tx_type,
            from_user_id: self.from_user_id,
            to_user_id: self.to_user_id,
            amount: self.amount,
            timestamp: self.timestamp,
            tx_status: self.tx_status,
            description: match self.description {
                Some(d) => Some(d@),
                None => None,
            },
        }
    }
}

impl TransactionFields {
    fn empty() -> (r: Self)
        ensures
            r@ == fields_empty(),
    {
        TransactionFields {
            id: None,
            tx_type: None,
            from_user_id: None,
            to_user_id: None,
            amount: None,
            timestamp: None,
            tx_status: None,
            description: None,
        }
    }

    fn is_empty(&self) -> (r: bool)
        ensures
            r == fields_is_empty(self@),
    {
        self.id.is_none() && self.tx_type.is_none() && self.from_user_id.is_none()
            && self.to_user_id.is_none() && self.amount.is_none() && self.timestamp.is_none()
            && self.tx_status.is_none() && self.description.is_none()
    }
}

/// The value part of the field line `line` whose key has length `prefix_len`.
fn field_value_chars(line: &[char], prefix_len: usize) -> (r: Vec<char>)
    requires
        prefix_len <= line@.len(),
    ensures
        r@ == trim(line@.subrange(prefix_len as int, line@.len() as int)),
{
    let (a, b) = trim_bounds(line, prefix_len);
    vstd::slice::slice_to_vec(vstd::slice::slice_subrange(line, a, b))
}

/// The value of a numeric field line, given the field's current value.
fn parse_number_field(line: &[char], field: Field, current: Option<u64>) -> (r: Result<u64, FormatError>)
    requires
        starts_with(line@, field_prefix(field)),
    ensures
        match r {
            Ok(v) => current is None && parse_u64(field_value(line@, field)) == Ok::<u64, crate::error::IntErrorKind>(v),
            Err(e) => if current is Some {
                e@ == (FormatErrorModel::DuplicatedField { field })
            } else {
                parse_u64(field_value(line@, field)) is Err && e@ == (FormatErrorModel::BadNumber {
                    field,
                    kind: parse_u64(field_value(line@, field))->Err_0,
                })
            },
        },
{
    if current.is_some() {
        return Err(FormatError::DuplicatedField { field });
    }
    let prefix = field_prefix_chars(field);
    let value = field_value_chars(line, prefix.len());
    match parse_u64_chars(value.as_slice()) {
        Ok(v) => Ok(v),
        Err(kind) => Err(FormatError::BadNumber { field, kind }),
    }
}

/// The description of a description line, in quotes, without them.
fn transaction_description_from_raw(v: &[char]) -> (r: Result<String, FormatError>)
    ensures
        match description_from_raw(v@) {
            Ok(d) => r matches Ok(s) && s@ == d,
            Err(e) => r matches Err(e2) && e2@ == e,
        },
{
    let n = v.len();
    if n >= 2 && v[0] == '"' && v[n - 1] == '"' {
        Ok(string_from_chars(vstd::slice::slice_subrange(v, 1, n - 1)))
    } else {
        Err(FormatError::IllegalDescription)
    }
}

/// Whether `line` is a lone-quote description line for `fields`.
fn is_lone_quote_line(line: &[char], fields: &TransactionFields) -> (r: bool)
    ensures
        r == lone_quote_line(line@, fields@),
{
    let description = field_prefix_chars(Field::Description);
    if !chars_start_with(line, description.as_slice()) || fields.description.is_some() {
        return false;
    }
    let value = field_value_chars(line, description.len());
    let lone = value.len() == 1 && value[0] == '"';
    proof {
        if lone {
            assert(value@ =~= seq!['"']);
        }
    }
    lone
}

/// Applies one line to the fields gathered so far.
fn read_line_into(line: &[char], fields: &mut TransactionFields) -> (r: Result<LineKind, FormatError>)
    ensures
        r is Err ==> final(fields)@ == old(fields)@,
        match text_read_line(line@, old(fields)@) {
            Ok((k, g)) => r == Ok::<LineKind, FormatError>(k) && final(fields)@ == g,
            Err(e) => r matches Err(e2) && e2@ == e,
        },
{
    let (a, b) = trim_bounds(line, 0);
    assert(line@.subrange(0, line@.len() as int) =~= line@);
    if a == b {
        return Ok(LineKind::Empty);
    }
    let hash = vec!['#'];
    assert(hash@ == seq!['#']);
    if chars_start_with(line, hash.as_slice()) {
        return Ok(LineKind::Comment);
    }
    let id = field_prefix_chars(Field::Id);
    let ty = field_prefix_chars(Field::Type);
    let from = field_prefix_chars(Field::FromUserId);
    let to = field_prefix_chars(Field::ToUserId);
    let amount = field_prefix_chars(Field::Amount);
    let timestamp = field_prefix_chars(Field::Timestamp);
    let status = field_prefix_chars(Field::Status);
    let description = field_prefix_chars(Field::Description);
    if chars_start_with(line, id.as_slice()) {
        let v = parse_number_field(line, Field::Id, fields.id)?;
        fields.id = Some(v);
        Ok(LineKind::Field)
    } else if chars_start_with(line, ty.as_slice()) {
        if fields.tx_type.is_some() {
            return Err(FormatError::DuplicatedField { field: Field::Type });
        }
        let value = field_value_chars(line, ty.len());
        match tx_type_named(value.as_slice()) {
            Some(t) => {
                fields.tx_type = Some(t);
                Ok(LineKind::Field)
            },
            None => Err(FormatError::IllegalTypeName { name: string_from_chars(value.as_slice()) }),
        }
    } else if chars_start_with(line, from.as_slice()) {
        let v = parse_number_field(line, Field::FromUserId, fields.from_user_id)?;
        fields.from_user_id = Some(v);
        Ok(LineKind::Field)
    } else if chars_start_with(line, to.as_slice()) {
        let v = parse_number_field(line, Field::ToUserId, fields.to_user_id)?;
        fields.to_user_id = Some(v);
        Ok(LineKind::Field)
    } else if chars_start_with(line, amount.as_slice()) {
        let v = parse_number_field(line, Field::Amount, fields.amount)?;
        fields.amount = Some(v);
        Ok(LineKind::Field)
    } else if chars_start_with(line, timestamp.as_slice()) {
        let v = parse_number_field(line, Field::Timestamp, fields.timestamp)?;
        fields.timestamp = Some(v);
        Ok(LineKind::Field)
    } else if chars_start_with(line, status.as_slice()) {
        if fields.tx_status.is_some() {
            return Err(FormatError::DuplicatedField { field: Field::Status });
        }
        let value = field_value_chars(line, status.len());
        match tx_status_named(value.as_slice()) {
            Some(st) => {
                fields.tx_status = Some(st);
                Ok(LineKind::Field)
            },
            None => Err(FormatError::IllegalStatusName { name: string_from_chars(value.as_slice()) }),
        }
    } else if chars_start_with(line, description.as_slice()) {
        if fields.description.is_some() {
            return Err(FormatError::DuplicatedField { field: Field::Description });
        }
        let value = field_value_chars(line, description.len());
        let d = transaction_description_from_raw(value.as_slice())?;
        fields.description = Some(d);
        Ok(LineKind::Field)
    } else {
        Err(FormatError::UnparsedLine { line: string_from_chars(line) })
    }
}

fn line_end_at(s: &[u8], p: usize) -> (e: usize)
    requires
        p < s@.len(),
    ensures
        e == line_end(s@, p as int),
        p < e <= s@.len(),
{
    let n = s.len();
    let mut i = p;
    while i < n && s[i] != 10
        invariant
            p <= i <= n,
            n == s@.len(),
            line_end(s@, p as int) == line_end(s@, i as int),
        decreases n - i,
    {
        i = i + 1;
    }
    if i < n {
        i + 1
    } else {
        n
    }
}

/// The gathered fields that a result stands for.
pub open spec fn fields_result(r: Result<TransactionFields, FormatError>) -> Result<FieldsModel, FormatErrorModel> {
    match r {
        Ok(f) => Ok(f@),
        Err(e) => Err(e@),
    }
}

/// Reads the line at `p` into `fields`: what the line was, and the position after it.
fn read_next_field(s: &[u8], p: usize, fields: &mut TransactionFields) -> (r: (Result<LineKind, FormatError>, usize, bool))
    requires
        p <= s@.len(),
    ensures
        r.1 <= s@.len(),
        r.0 is Err ==> final(fields)@ == old(fields)@,
        r.2 == (p < s@.len() && vstd::utf8::valid_utf8(s@.subrange(p as int, line_end(s@, p as int)))
            && lone_quote_line(
            vstd::utf8::decode_utf8(s@.subrange(p as int, line_end(s@, p as int))),
            old(fields)@,
        )),
        p == s@.len() ==> r.0 == Ok::<LineKind, FormatError>(LineKind::Eof) && r.1 == p && final(fields)@ == old(fields)@,
        p < s@.len() ==> {
            let e = line_end(s@, p as int);
            let bytes = s@.subrange(p as int, e);
            &&& r.1 == e
            &&& r.0 != Ok::<LineKind, FormatError>(LineKind::Eof)
            &&& if !vstd::utf8::valid_utf8(bytes) {
                r.0 matches Err(err) && err@ == FormatErrorModel::InvalidLineUtf8
            } else {
                match text_read_line(vstd::utf8::decode_utf8(bytes), old(fields)@) {
                    Ok((k, g)) => r.0 == Ok::<LineKind, FormatError>(k) && final(fields)@ == g,
                    Err(err) => r.0 matches Err(e2) && e2@ == err,
                }
            }
        },
{
    let n = s.len();
    if p == n {
        return (Ok(LineKind::Eof), p, false);
    }
    let e = line_end_at(s, p);
    let bytes = vstd::slice::slice_to_vec(vstd::slice::slice_subrange(s, p, e));
    match string_from_utf8(bytes) {
        None => (Err(FormatError::InvalidLineUtf8), e, false),
        Some(text) => {
            let line = str_chars(text.as_str());
            let lone = is_lone_quote_line(line.as_slice(), fields);
            let r = read_line_into(line.as_slice(), fields);
            (r, e, lone)
        },
    }
}

fn read_transaction_fields(s: &[u8], p: usize) -> (r: (Result<TransactionFields, FormatError>, usize, bool))
    requires
        p <= s@.len(),
    ensures
        r.1 <= s@.len(),
        (fields_result(r.0), r.1 as int) == text_read_fields(s@, p as int, fields_empty()),
        r.2 == fields_meet_lone_quote(s@, p as int, fields_empty()),
{
    let n = s.len();
    let mut fields = TransactionFields::empty();
    let mut q = p;
    loop
        invariant
            q <= n,
            n == s@.len(),
            text_read_fields(s@, p as int, fields_empty()) == text_read_fields(s@, q as int, fields@),
            fields_meet_lone_quote(s@, p as int, fields_empty()) == fields_meet_lone_quote(s@, q as int, fields@),
        decreases n - q,
    {
        let ghost before = fields@;
        proof {
            if q < n {
                lemma_line_end_bounds(s@, q as int);
            }
        }
        let (r, e, lone) = read_next_field(s, q, &mut fields);
        proof {
            if lone {
                lemma_lone_quote_fails(vstd::utf8::decode_utf8(s@.subrange(q as int, e as int)), before);
            }
        }
        match r {
            Err(err) => {
                return (Err(err), e, lone);
            },
            Ok(LineKind::Eof) => {
                return (Ok(fields), q, false);
            },
            Ok(LineKind::Empty) => {
                if !fields.is_empty() {
                    return (Ok(fields), e, false);
                }
                q = e;
            },
            Ok(_) => {
                q = e;
            },
        }
    }
}

fn unwrap_field<T>(value: Option<T>, field: Field) -> (r: Result<T, FormatError>)
    ensures
        match value {
            Some(v) => r == Ok::<T, FormatError>(v),
            None => r matches Err(e) && e@ == FormatErrorModel::MissedField { field },
        },
{
    match value {
        Some(v) => Ok(v),
        None => Err(FormatError::MissedField { field }),
    }
}

/// Reads the record at `p`: the result and the position after what was consumed.
fn read_record(s: &[u8], p: usize) -> (r: (Result<Option<Transaction>, FormatError>, usize))
    requires
        p <= s@.len(),
    ensures
        r.1 <= s@.len(),
        (outcome_of(r.0), r.1 as int) == text_read_record(s@, p as int),
{
    let (r, q, _) = read_transaction_fields(s, p);
    let mut fields = match r {
        Err(e) => return (Err(e), q),
        Ok(f) => f,
    };
    if fields.is_empty() {
        return (Ok(None), q);
    }
    let ghost f0 = fields@;
    let id = match unwrap_field(fields.id, Field::Id) {
        Ok(v) => v,
        Err(e) => return (Err(e), q),
    };
    let tx_type = match unwrap_field(fields.tx_type, Field::Type) {
        Ok(v) => v,
        Err(e) => return (Err(e), q),
    };
    if fields.from_user_id.is_none() && tx_type == TransactionType::Deposit {
        fields.from_user_id = Some(0);
    }
    if fields.to_user_id.is_none() && tx_type == TransactionType::Withdrawal {
        fields.to_user_id = Some(0);
    }
    let from_user_id = match unwrap_field(fields.from_user_id, Field::FromUserId) {
        Ok(v) => v,
        Err(e) => return (Err(e), q),
    };
    let to_user_id = match unwrap_field(fields.to_user_id, Field::ToUserId) {
        Ok(v) => v,
        Err(e) => return (Err(e), q),
    };
    let amount = match unwrap_field(fields.amount, Field::Amount) {
        Ok(v) => v,
        Err(e) => return (Err(e), q),
    };
    let timestamp = match unwrap_field(fields.timestamp, Field::Timestamp) {
        Ok(v) => v,
        Err(e) => return (Err(e), q),
    };
    let tx_status = match unwrap_field(fields.tx_status, Field::Status) {
        Ok(v) => v,
        Err(e) => return (Err(e), q),
    };
    let description = match fields.description {
        Some(d) => d,
        None => String::new(),
    };
    let t = Transaction::new(
        id,
        tx_type,
        tx_status,
        timestamp,
        from_user_id,
        to_user_id,
        amount,
        description,
    );
    assert(build_transaction(f0) == Ok::<TransactionModel, FormatErrorModel>(t@));
    (Ok(Some(t)), q)
}

/// Decodes a sequence of text records held in memory.
pub struct TextTransactionReader {
    input: Vec<u8>,
    pos: usize,
}

impl TextTransactionReader {
    #[verifier::type_invariant]
    spec fn position_in_input(&self) -> bool {
        self.pos <= self.input@.len()
    }

    /// The bytes being decoded.
    pub closed spec fn input(&self) -> Seq<u8> {
        self.input@
    }

    /// How many bytes have been consumed.
    pub closed spec fn position(&self) -> int {
        self.pos as int
    }

    /// A reader positioned at the start of `input`.
    pub fn new(input: Vec<u8>) -> (r: Self)
        ensures
            r.input() == input@,
            r.position() == 0,
    {
        TextTransactionReader { input, pos: 0 }
    }

    /// Whether the next record holds a description line whose value is a
    /// lone double quote, where the record has no description yet: such a
    /// value cannot be stripped of its quotes, and `read_next` does not
    /// take it.
    pub fn next_meets_lone_quote(&self) -> (r: bool)
        ensures
            r == record_meets_lone_quote(self.input(), self.position()),
    {
        proof {
            use_type_invariant(self);
        }
        let (_, _, lone) = read_transaction_fields(self.input.as_slice(), self.pos);
        lone
    }

    /// Decodes the next record: `Ok(None)` when no field is left before the
    /// end of the input, `Ok(Some(..))` for a record, `Err(..)` for a line in error
    /// or a record that lacks a field.
    pub fn read_next(&mut self) -> (r: Result<Option<Transaction>, FormatError>)
        requires
            !record_meets_lone_quote(old(self).input(), old(self).position()),
        ensures
            final(self).input() == old(self).input(),
            0 <= old(self).position() <= old(self).input().len(),
            0 <= final(self).position() <= final(self).input().len(),
            (outcome_of(r), final(self).position()) == text_read_record(
                old(self).input(),
                old(self).position(),
            ),
    {
        proof {
            use_type_invariant(&*self);
        }
        let (r, q) = read_record(self.input.as_slice(), self.pos);
        self.pos = q;
        r
    }
}

/// The line of a field: its key, a space, its value and a newline.
pub open spec fn field_line(f: Field, v: Seq<char>) -> Seq<char> {
    field_prefix(f) + seq![' '] + v + seq!['\n']
}

/// The field lines of a record.
pub open spec fn text_record_body(t: TransactionModel) -> Seq<char> {
    field_line(Field::Id, decimal(t.id as nat)) + field_line(Field::Type, tx_type_name(t.tx_type))
        + field_line(Field::FromUserId, decimal(t.from_user_id as nat)) + field_line(
        Field::ToUserId,
        decimal(t.to_user_id as nat),
    ) + field_line(Field::Amount, decimal(t.amount as nat)) + field_line(
        Field::Timestamp,
        decimal(t.timestamp as nat),
    ) + field_line(Field::Status, tx_status_name(t.tx_status)) + field_line(
        Field::Description,
        seq!['"'] + t.description + seq!['"'],
    )
}

/// The text of a record: a blank line, then its field lines.
pub open spec fn text_record(t: TransactionModel) -> Seq<char> {
    seq!['\n'] + text_record_body(t)
}

/// Encodes transactions as text records into a byte buffer.
pub struct TextTransactionWriter {
    output: Vec<u8>,
}

fn write_field(out: &mut Vec<char>, f: Field, value: &[char])
    ensures
        final(out)@ == old(out)@ + field_line(f, value@),
{
    let prefix = field_prefix_chars(f);
    let mut i: usize = 0;
    while i < prefix.len()
        invariant
            i <= prefix@.len(),
            out@ == old(out)@ + prefix@.subrange(0, i as int),
        decreases prefix@.len() - i,
    {
        out.push(prefix[i]);
        i = i + 1;
        assert(out@ =~= old(out)@ + prefix@.subrange(0, i as int));
    }
    assert(prefix@.subrange(0, prefix@.len() as int) =~= prefix@);
    out.push(' ');
    let ghost mid = out@;
    let mut j: usize = 0;
    while j < value.len()
        invariant
            j <= value@.len(),
            out@ == mid + value@.subrange(0, j as int),
        decreases value@.len() - j,
    {
        out.push(value[j]);
        j = j + 1;
        assert(out@ =~= mid + value@.subrange(0, j as int));
    }
    assert(value@.subrange(0, value@.len() as int) =~= value@);
    out.push('\n');
    assert(out@ =~= old(out)@ + field_line(f, value@));
}

impl TextTransactionWriter {
    /// A writer that appends to `output`.
    pub fn new(output: Vec<u8>) -> (w: Self)
        ensures
            w.written() == output@,
    {
        TextTransactionWriter { output }
    }

    /// The bytes written so far.
    pub closed spec fn written(&self) -> Seq<u8> {
        self.output@
    }

    /// Appends the record of `transaction`, in UTF-8.
    pub fn write_next(&mut self, transaction: &Transaction) -> (r: Result<(), FormatError>)
        ensures
            r is Ok,
            final(self).written() == old(self).written() + vstd::utf8::encode_utf8(
                text_record(transaction@),
            ),
    {
        let mut text: Vec<char> = Vec::new();
        text.push('\n');
        let mut number: Vec<char> = Vec::new();
        push_decimal(&mut number, transaction.id());
        write_field(&mut text, Field::Id, number.as_slice());
        let name = tx_type_name_chars(transaction.tx_type());
        write_field(&mut text, Field::Type, name.as_slice());
        let mut number: Vec<char> = Vec::new();
        push_decimal(&mut number, transaction.from_user_id());
        write_field(&mut text, Field::FromUserId, number.as_slice());
        let mut number: Vec<char> = Vec::new();
        push_decimal(&mut number, transaction.to_user_id());
        write_field(&mut text, Field::ToUserId, number.as_slice());
        let mut number: Vec<char> = Vec::new();
        push_decimal(&mut number, transaction.amount());
        write_field(&mut text, Field::Amount, number.as_slice());
        let mut number: Vec<char> = Vec::new();
        push_decimal(&mut number, transaction.timestamp());
        write_field(&mut text, Field::Timestamp, number.as_slice());
        let name = tx_status_name_chars(transaction.tx_status());
        write_field(&mut text, Field::Status, name.as_slice());
        let mut quoted: Vec<char> = Vec::new();
        quoted.push('"');
        let d = str_chars(transaction.description().as_str());
        let mut i: usize = 0;
        while i < d.len()
            invariant
                i <= d@.len(),
                quoted@ == seq!['"'] + d@.subrange(0, i as int),
            decreases d@.len() - i,
        {
            quoted.push(d[i]);
            i = i + 1;
            assert(quoted@ =~= seq!['"'] + d@.subrange(0, i as int));
        }
        quoted.push('"');
        assert(d@.subrange(0, d@.len() as int) =~= d@);
        write_field(&mut text, Field::Description, quoted.as_slice());
        assert(text@ =~= text_record(transaction@));
        let s = string_from_chars(text.as_slice());
        extend_bytes(&mut self.output, s.as_str().as_bytes());
        Ok(())
    }

    /// Nothing is buffered beyond the output: flushing always succeeds and
    /// changes nothing.
    pub fn flush(&mut self) -> (r: Result<(), FormatError>)
        ensures
            r is Ok,
            final(self).written() == old(self).written(),
    {
        Ok(())
    }

    /// The bytes written so far.
    pub fn output(&self) -> (r: &Vec<u8>)
        ensures
            r@ == self.written(),
    {
        &self.output
    }

    /// Hands out the bytes written so far and empties the buffer.
    pub fn take_output(&mut self) -> (r: Vec<u8>)
        ensures
            r@ == old(self).written(),
            final(self).written() == Seq::<u8>::empty(),
    {
        let mut out = Vec::new();
        std::mem::swap(&mut out, &mut self.output);
        out
    }
}

} // verus!
