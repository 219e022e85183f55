//! The CSV record format: a header row naming the eight columns, then one
//! row per transaction. Splitting the input into rows and fields, and
//! quoting fields on output, is the `csv` crate's work.

use vstd::prelude::*;

use crate::bytes::extend_bytes;
use crate::chars::{strings_view, chars_equal, decimal, parse_u64, parse_u64_chars, push_decimal, str_chars, string_from_chars};
use crate::error::{outcome_of, Field, FormatError, FormatErrorModel, ReadOutcome};
use crate::names::{
    tx_status_from_name, tx_status_name, tx_status_name_chars, tx_status_named, tx_type_from_name,
    tx_type_name, tx_type_name_chars, tx_type_named,
};
use crate::transaction::{Transaction, TransactionModel};

verus! {

/// A CSV row as the `csv` crate reads it: its fields, or the message of the
/// error reading it ended in.
pub type CsvRow = Result<Seq<Seq<char>>, Seq<char>>;

/// The rows that the `csv` crate reads from `input` (no header handling,
/// default dialect), in order, one per record or per error.
pub uninterp spec fn csv_parse(input: Seq<u8>) -> Seq<CsvRow>;

/// The bytes that the `csv` crate writes for one record of `fields`, with
/// fields that are not numbers in quotes.
pub uninterp spec fn csv_encode_record(fields: Seq<Seq<char>>) -> Seq<u8>;

/// The value of a row read by the `csv` crate.
pub open spec fn row_view(r: Result<Vec<String>, String>) -> CsvRow {
    match r {
        Ok(v) => Ok(strings_view(v@)),
        Err(m) => Err(m@),
    }
}

/// Reads all rows of `input` (the `csv` crate's reader without header
/// handling, each `StringRecord` taken as its fields, each error as its
/// message).
#[verifier::external_body]
fn csv_read_rows(input: &[u8]) -> (r: Vec<Result<Vec<String>, String>>)
    ensures
        r@.len() == csv_parse(input@).len(),
        forall|i: int| 0 <= i < r@.len() ==> row_view(#[trigger] r@[i]) == csv_parse(input@)[i],
{
    csv::ReaderBuilder::new().has_headers(false).from_reader(input).into_records().map(
        |r| r.map(|rec| rec.iter().map(String::from).collect()).map_err(|e| e.to_string()),
    ).collect()
}

/// Writes one record with the `csv` crate's writer, fields that are not
/// numbers in quotes, into a fresh in-memory buffer: its bytes. Writing one
/// record into a `Vec` does not fail (the writer's only errors come from the
/// underlying writer, which a `Vec` never gives, and from a field count that
/// differs from an earlier record's, which the first record cannot), so the
/// result is always `Ok`.
#[verifier::external_body]
fn csv_write_row(fields: &Vec<String>) -> (r: Result<Vec<u8>, String>)
    ensures
        r is Ok,
        r matches Ok(b) ==> b@ == csv_encode_record(strings_view(fields@)),
{
    let mut w = csv::WriterBuilder::new().quote_style(csv::QuoteStyle::NonNumeric).from_writer(
        Vec::new(),
    );
    match w.write_record(fields) {
        Ok(()) => w.into_inner().map_err(|e| e.to_string()),
        Err(e) => Err(e.to_string()),
    }
}

/// The title of a column.
pub open spec fn column_title(f: Field) -> Seq<char> {
    match f {
        Field::Id => seq!['T', 'X', '_', 'I', 'D'],
        Field::Type => seq!['T', 'X', '_', 'T', 'Y', 'P', 'E'],
        Field::FromUserId => seq!['F', 'R', 'O', 'M', '_', 'U', 'S', 'E', 'R', '_', 'I', 'D'],
        Field::ToUserId => seq!['T', 'O', '_', 'U', 'S', 'E', 'R', '_', 'I', 'D'],
        Field::Amount => seq!['A', 'M', 'O', 'U', 'N', 'T'],
        Field::Timestamp => seq!['T', 'I', 'M', 'E', 'S', 'T', 'A', 'M', 'P'],
        Field::Status => seq!['S', 'T', 'A', 'T', 'U', 'S'],
        Field::Description => seq!['D', 'E', 'S', 'C', 'R', 'I', 'P', 'T', 'I', 'O', 'N'],
    }
}

fn column_title_chars(f: Field) -> (r: Vec<char>)
    ensures
        r@ == column_title(f),
{
    match f {
        Field::Id => vec!['T', 'X', '_', 'I', 'D'],
        Field::Type => vec!['T', 'X', '_', 'T', 'Y', 'P', 'E'],
        Field::FromUserId => vec!['F', 'R', 'O', 'M', '_', 'U', 'S', 'E', 'R', '_', 'I', 'D'],
        Field::ToUserId => vec!['T', 'O', '_', 'U', 'S', 'E', 'R', '_', 'I', 'D'],
        Field::Amount => vec!['A', 'M', 'O', 'U', 'N', 'T'],
        Field::Timestamp => vec!['T', 'I', 'M', 'E', 'S', 'T', 'A', 'M', 'P'],
        Field::Status => vec!['S', 'T', 'A', 'T', 'U', 'S'],
        Field::Description => vec!['D', 'E', 'S', 'C', 'R', 'I', 'P', 'T', 'I', 'O', 'N'],
    }
}

/// The field in each column, in column order.
pub open spec fn column_field(i: int) -> Field {
    if i == 0 {
        Field::Id
    } else if i == 1 {
        Field::Type
    } else if i == 2 {
        Field::FromUserId
    } else if i == 3 {
        Field::ToUserId
    } else if i == 4 {
        Field::Amount
    } else if i == 5 {
        Field::Timestamp
    } else if i == 6 {
        Field::Status
    } else {
        Field::Description
    }
}

fn column_field_at(i: usize) -> (r: Field)
    ensures
        r == column_field(i as int),
{
    if i == 0 {
        Field::Id
    } else if i == 1 {
        Field::Type
    } else if i == 2 {
        Field::FromUserId
    } else if i == 3 {
        Field::ToUserId
    } else if i == 4 {
        Field::Amount
    } else if i == 5 {
        Field::Timestamp
    } else if i == 6 {
        Field::Status
    } else {
        Field::Description
    }
}

/// The field of a row in column `i`; empty where the row is shorter.
pub open spec fn row_field(row: Seq<Seq<char>>, i: int) -> Seq<char> {
    if 0 <= i < row.len() {
        row[i]
    } else {
        Seq::<char>::empty()
    }
}

/// Checking the header row from column `i` on: the first column whose title
/// is wrong, if any.
pub open spec fn check_header_from(row: Seq<Seq<char>>, i: int) -> Option<FormatErrorModel>
    decreases 8 - i,
{
    if i < 0 || i >= 8 {
        None
    } else if !(i < row.len() && row[i] == column_title(column_field(i))) {
        Some(FormatErrorModel::BadHeader { column: i as usize, expected: column_field(i) })
    } else {
        check_header_from(row, i + 1)
    }
}

/// The number in column `i`.
pub open spec fn number_at(row: Seq<Seq<char>>, i: int) -> Result<u64, FormatErrorModel> {
    match parse_u64(row_field(row, i)) {
        Ok(v) => Ok(v),
        Err(kind) => Err(FormatErrorModel::BadNumber { field: column_field(i), kind }),
    }
}

/// The transaction of a data row.
pub open spec fn transaction_from_row(row: Seq<Seq<char>>) -> Result<TransactionModel, FormatErrorModel> {
    let id = number_at(row, 0);
    let ty = tx_type_from_name(row_field(row, 1));
    let from = number_at(row, 2);
    let to = number_at(row, 3);
    let amount = number_at(row, 4);
    let timestamp = number_at(row, 5);
    let status = tx_status_from_name(row_field(row, 6));
    if id is Err {
        Err(id->Err_0)
    } else if ty is None {
        Err(FormatErrorModel::IllegalTypeName { name: row_field(row, 1) })
    } else if from is Err {
        Err(from->Err_0)
    } else if to is Err {
        Err(to->Err_0)
    } else if amount is Err {
        Err(amount->Err_0)
    } else if timestamp is Err {
        Err(timestamp->Err_0)
    } else if status is None {
        Err(FormatErrorModel::IllegalStatusName { name: row_field(row, 6) })
    } else {
        Ok(
            TransactionModel {
                id: id->Ok_0,
                tx_type: ty->0,
                tx_status: status->0,
                timestamp: timestamp->Ok_0,
                from_user_id: from->Ok_0,
                to_user_id: to->Ok_0,
                amount: amount->Ok_0,
                description: row_field(row, 7),
            },
        )
    }
}

/// The state of a CSV reader: the rows read, the next row, whether the
/// header has been accepted.
pub struct CsvReadState {
    pub rows: Seq<CsvRow>,
    pub next: int,
    pub header_read: bool,
}

/// Reading the next record: what it comes to and the state after it. A row
/// in error or a wrong header is reported and skipped; until a header is
/// accepted, each row is taken for the header.
pub open spec fn csv_read_record(st: CsvReadState) -> (ReadOutcome, CsvReadState) {
    let rows = st.rows;
    let i = st.next;
    if !st.header_read && (i < 0 || i >= rows.len()) {
        (ReadOutcome::End, st)
    } else if !st.header_read && rows[i] is Err {
        (ReadOutcome::Failed(FormatErrorModel::Csv { message: rows[i]->Err_0 }), CsvReadState { next: i + 1, ..st })
    } else if !st.header_read && check_header_from(rows[i]->Ok_0, 0) is Some {
        (ReadOutcome::Failed(check_header_from(rows[i]->Ok_0, 0)->0), CsvReadState { next: i + 1, ..st })
    } else {
        let j = if st.header_read {
            i
        } else {
            i + 1
        };
        if j < 0 || j >= rows.len() {
            (ReadOutcome::End, CsvReadState { rows, next: j, header_read: true })
        } else {
            let after = CsvReadState { rows, next: j + 1, header_read: true };
            match rows[j] {
                Err(m) => (ReadOutcome::Failed(FormatErrorModel::Csv { message: m }), after),
                Ok(row) => match transaction_from_row(row) {
                    Ok(t) => (ReadOutcome::Record(t), after),
                    Err(e) => (ReadOutcome::Failed(e), after),
                },
            }
        }
    }
}

fn row_field_chars(row: &Vec<String>, i: usize) -> (r: Vec<char>)
    ensures
        r@ == row_field(strings_view(row@), i as int),
{
    if i < row.len() {
        str_chars(row[i].as_str())
    } else {
        Vec::new()
    }
}

fn check_column_header(row: &Vec<String>, column: usize) -> (r: Result<(), FormatError>)
    requires
        column < 8,
    ensures
        match r {
            Ok(()) => column < row@.len() && strings_view(row@)[column as int] == column_title(column_field(column as int)),
            Err(e) => !(column < row@.len() && strings_view(row@)[column as int] == column_title(column_field(column as int)))
                && e@ == (FormatErrorModel::BadHeader { column, expected: column_field(column as int) }),
        },
{
    let field = column_field_at(column);
    let title = column_title_chars(field);
    if column < row.len() {
        let value = str_chars(row[column].as_str());
        if chars_equal(value.as_slice(), title.as_slice()) {
            return Ok(());
        }
    }
    Err(FormatError::BadHeader { column, expected: field })
}

fn check_header(row: &Vec<String>) -> (r: Result<(), FormatError>)
    ensures
        match check_header_from(strings_view(row@), 0) {
            None => r is Ok,
            Some(e) => r matches Err(e2) && e2@ == e,
        },
{
    let mut i: usize = 0;
    while i < 8
        invariant
            i <= 8,
            check_header_from(strings_view(row@), 0) == check_header_from(strings_view(row@), i as int),
        decreases 8 - i,
    {
        check_column_header(row, i)?;
        i = i + 1;
    }
    Ok(())
}

fn parse_number_at(row: &Vec<String>, i: usize) -> (r: Result<u64, FormatError>)
    requires
        i < 8,
    ensures
        match number_at(strings_view(row@), i as int) {
            Ok(v) => r == Ok::<u64, FormatError>(v),
            Err(e) => r matches Err(e2) && e2@ == e,
        },
{
    let value = row_field_chars(row, i);
    match parse_u64_chars(value.as_slice()) {
        Ok(v) => Ok(v),
        Err(kind) => Err(FormatError::BadNumber { field: column_field_at(i), kind }),
    }
}

fn transaction_from_record(row: &Vec<String>) -> (r: Result<Transaction, FormatError>)
    ensures
        match transaction_from_row(strings_view(row@)) {
            Ok(t) => r matches Ok(t2) && t2@ == t,
            Err(e) => r matches Err(e2) && e2@ == e,
        },
{
    let id = parse_number_at(row, 0)?;
    let ty_name = row_field_chars(row, 1);
    let tx_type = match tx_type_named(ty_name.as_slice()) {
        Some(t) => t,
        None => return Err(FormatError::IllegalTypeName { name: string_from_chars(ty_name.as_slice()) }),
    };
    let from_user_id = parse_number_at(row, 2)?;
    let to_user_id = parse_number_at(row, 3)?;
    let amount = parse_number_at(row, 4)?;
    let timestamp = parse_number_at(row, 5)?;
    let st_name = row_field_chars(row, 6);
    let tx_status = match tx_status_named(st_name.as_slice()) {
        Some(s) => s,
        None => return Err(FormatError::IllegalStatusName { name: string_from_chars(st_name.as_slice()) }),
    };
    let description = string_from_chars(row_field_chars(row, 7).as_slice());
    Ok(Transaction::new(id, tx_type, tx_status, timestamp, from_user_id, to_user_id, amount, description))
}

/// Decodes CSV records held in memory.
pub struct CsvTransactionReader {
    rows: Vec<Result<Vec<String>, String>>,
    next: usize,
    header_read: bool,
}

impl CsvTransactionReader {
    #[verifier::type_invariant]
    spec fn next_in_rows(&self) -> bool {
        self.next <= self.rows@.len()
    }

    /// The rows, the next row and whether the header has been accepted.
    pub closed spec fn state(&self) -> CsvReadState {
        CsvReadState {
            rows: self.rows@.map_values(|r: Result<Vec<String>, String>| row_view(r)),
            next: self.next as int,
            header_read: self.header_read,
        }
    }

    /// A reader of the rows that the `csv` crate reads from `input`.
    pub fn new(input: Vec<u8>) -> (r: Self)
        ensures
            r.state() == (CsvReadState { rows: csv_parse(input@), next: 0, header_read: false }),
    {
        let rows = csv_read_rows(input.as_slice());
        let r = CsvTransactionReader::from_rows(rows);
        assert(r.state().rows =~= csv_parse(input@));
        r
    }

    /// A reader of rows already split into fields, each a row's fields or
    /// the message of the error reading it ended in; the first row is the
    /// header.
    pub fn from_rows(rows: Vec<Result<Vec<String>, String>>) -> (r: Self)
        ensures
            r.state() == (CsvReadState {
                rows: rows@.map_values(|row: Result<Vec<String>, String>| row_view(row)),
                next: 0,
                header_read: false,
            }),
    {
        CsvTransactionReader { rows, next: 0, header_read: false }
    }

    fn ensure_header_read(&mut self) -> (r: Result<bool, FormatError>)
        ensures
            final(self).rows@ == old(self).rows@,
            final(self).next <= final(self).rows@.len(),
            old(self).header_read ==> r == Ok::<bool, FormatError>(true) && final(self).state() == old(self).state(),
            !old(self).header_read ==> {
                let st = old(self).state();
                let i = st.next;
                if i >= st.rows.len() {
                    r == Ok::<bool, FormatError>(false) && final(self).state() == st
                } else if st.rows[i] is Err {
                    r matches Err(e) && e@ == (FormatErrorModel::Csv { message: st.rows[i]->Err_0 })
                        && final(self).state() == CsvReadState { next: i + 1, ..st }
                } else if check_header_from(st.rows[i]->Ok_0, 0) is Some {
                    r matches Err(e) && e@ == check_header_from(st.rows[i]->Ok_0, 0)->0
                        && final(self).state() == CsvReadState { next: i + 1, ..st }
                } else {
                    r == Ok::<bool, FormatError>(true) && final(self).state() == CsvReadState { next: i + 1, header_read: true, ..st }
                }
            },
    {
        proof {
            use_type_invariant(&*self);
        }
        if self.header_read {
            return Ok(true);
        }
        if self.next >= self.rows.len() {
            return Ok(false);
        }
        let i = self.next;
        self.next = i + 1;
        assert(self.state().rows[i as int] == row_view(self.rows@[i as int]));
        match &self.rows[i] {
            Err(m) => Err(FormatError::Csv { message: m.clone() }),
            Ok(row) => {
                check_header(row)?;
                self.header_read = true;
                Ok(true)
            },
        }
    }

    /// Decodes the next record: `Ok(None)` when no row is left, `Ok(Some(..))`
    /// for a record, `Err(..)` for a row in error or a wrong header.
    pub fn read_next(&mut self) -> (r: Result<Option<Transaction>, FormatError>)
        ensures
            (outcome_of(r), final(self).state()) == csv_read_record(old(self).state()),
            0 <= old(self).state().next <= old(self).state().rows.len(),
            0 <= final(self).state().next <= final(self).state().rows.len(),
    {
        proof {
            use_type_invariant(&*self);
        }
        let header_read = self.ensure_header_read()?;
        if !header_read {
            return Ok(None);
        }
        proof {
            use_type_invariant(&*self);
        }
        if self.next >= self.rows.len() {
            return Ok(None);
        }
        let i = self.next;
        self.next = i + 1;
        assert(self.state().rows[i as int] == row_view(self.rows@[i as int]));
        match &self.rows[i] {
            Err(m) => Err(FormatError::Csv { message: m.clone() }),
            Ok(row) => {
                let t = transaction_from_record(row)?;
                Ok(Some(t))
            },
        }
    }
}

/// The header row: the column titles in column order.
pub open spec fn header_row() -> Seq<Seq<char>> {
    Seq::new(8, |i: int| column_title(column_field(i)))
}

/// The data row of a transaction.
pub open spec fn transaction_row(t: TransactionModel) -> Seq<Seq<char>> {
    seq![
        decimal(t.id as nat),
        tx_type_name(t.tx_type),
        decimal(t.from_user_id as nat),
        decimal(t.to_user_id as nat),
        decimal(t.amount as nat),
        decimal(t.timestamp as nat),
        tx_status_name(t.tx_status),
        t.description,
    ]
}

fn header_strings() -> (r: Vec<String>)
    ensures
        strings_view(r@) == header_row(),
{
    let mut r: Vec<String> = Vec::new();
    let mut i: usize = 0;
    while i < 8
        invariant
            i <= 8,
            r@.len() == i,
            strings_view(r@) == header_row().subrange(0, i as int),
        decreases 8 - i,
    {
        let title = column_title_chars(column_field_at(i));
        let ghost prev = r@;
        r.push(string_from_chars(title.as_slice()));
        assert forall|k: int| 0 <= k < i + 1 implies strings_view(r@)[k] == header_row()[k] by {
            if k < i {
                assert(r@[k] == prev[k]);
                assert(strings_view(prev)[k] == header_row().subrange(0, i as int)[k]);
            }
        }
        i = i + 1;
        assert(strings_view(r@) =~= header_row().subrange(0, i as int));
    }
    assert(header_row().subrange(0, 8) =~= header_row());
    r
}

fn decimal_string(n: u64) -> (r: String)
    ensures
        r@ == decimal(n as nat),
{
    let mut digits: Vec<char> = Vec::new();
    push_decimal(&mut digits, n);
    assert(digits@ =~= decimal(n as nat));
    string_from_chars(digits.as_slice())
}

fn transaction_strings(t: &Transaction) -> (r: Vec<String>)
    ensures
        strings_view(r@) == transaction_row(t@),
{
    let mut r: Vec<String> = Vec::new();
    r.push(decimal_string(t.id()));
    r.push(string_from_chars(tx_type_name_chars(t.tx_type()).as_slice()));
    r.push(decimal_string(t.from_user_id()));
    r.push(decimal_string(t.to_user_id()));
    r.push(decimal_string(t.amount()));
    r.push(decimal_string(t.timestamp()));
    r.push(string_from_chars(tx_status_name_chars(t.tx_status()).as_slice()));
    r.push(t.description().clone());
    assert(strings_view(r@) =~= transaction_row(t@));
    r
}

/// Encodes transactions as CSV into a byte buffer: the header row before
/// the first record, then a row per record.
pub struct CsvTransactionWriter {
    output: Vec<u8>,
    header_written: bool,
}

impl CsvTransactionWriter {
    /// A writer that appends to `output`.
    pub fn new(output: Vec<u8>) -> (w: Self)
        ensures
            w.written() == output@,
            !w.header_written(),
    {
        CsvTransactionWriter { output, header_written: false }
    }

    /// The bytes written so far.
    pub closed spec fn written(&self) -> Seq<u8> {
        self.output@
    }

    /// Whether the header row has been written.
    pub closed spec fn header_written(&self) -> bool {
        self.header_written
    }

    /// Appends the row of `transaction`, and the header row before it if it
    /// has not been written yet. Writing into memory always succeeds.
    pub fn write_next(&mut self, transaction: &Transaction) -> (r: Result<(), FormatError>)
        ensures
            r is Ok,
            final(self).header_written(),
            final(self).written() == old(self).written() + (if old(self).header_written() {
                Seq::<u8>::empty()
            } else {
                csv_encode_record(header_row())
            }) + csv_encode_record(transaction_row(transaction@)),
    {
        let mut header: Vec<u8> = Vec::new();
        if !self.header_written {
            match csv_write_row(&header_strings()) {
                Ok(b) => {
                    header = b;
                },
                Err(message) => {
                    return Err(FormatError::Csv { message });
                },
            }
        }
        let row = match csv_write_row(&transaction_strings(transaction)) {
            Ok(b) => b,
            Err(message) => {
                return Err(FormatError::Csv { message });
            },
        };
        extend_bytes(&mut self.output, header.as_slice());
        extend_bytes(&mut self.output, row.as_slice());
        self.header_written = true;
        assert(header@ == (if old(self).header_written {
            Seq::<u8>::empty()
        } else {
            csv_encode_record(header_row())
        }));
        Ok(())
    }

    /// Nothing is buffered beyond the output: flushing always succeeds and
    /// changes nothing.
    pub fn flush(&mut self) -> (r: Result<(), FormatError>)
        ensures
            r is Ok,
            final(self).written() == old(self).written(),
            final(self).header_written() == old(self).header_written(),
    {
        Ok(())
    }

    /// The bytes written so far.
    pub fn output(&self) -> (r: &Vec<u8>)
        ensures
            r@ == self.written(),
    {
        &self.output
    }

    /// Hands out the bytes written so far and empties the buffer.
    pub fn take_output(&mut self) -> (r: Vec<u8>)
        ensures
            r@ == old(self).written(),
            final(self).written() == Seq::<u8>::empty(),
            final(self).header_written() == old(self).header_written(),
    {
        let mut out = Vec::new();
        std::mem::swap(&mut out, &mut self.output);
        out
    }
}

/// Reading records until no row is left or a read fails: the records read,
/// and the error reading ended in, if any.
pub open spec fn csv_read_all(st: CsvReadState) -> (Seq<TransactionModel>, Option<FormatErrorModel>)
    decreases st.rows.len() - st.next,
{
    if st.next < 0 || st.next >= st.rows.len() {
        (seq![], None)
    } else {
        let (o, st2) = csv_read_record(st);
        match o {
            ReadOutcome::Record(t) => if st2.next <= st.next || st2.rows != st.rows {
                (seq![t], None)
            } else {
                let (ts, e) = csv_read_all(st2);
                (seq![t] + ts, e)
            },
            ReadOutcome::Failed(e) => (seq![], Some(e)),
            ReadOutcome::End => (seq![], None),
        }
    }
}

/// The rows of a CSV document holding `ts`: the header row, then a row per
/// transaction.
pub open spec fn csv_rows(ts: Seq<TransactionModel>) -> Seq<CsvRow> {
    seq![Ok::<Seq<Seq<char>>, Seq<char>>(header_row())] + ts.map_values(
        |t: TransactionModel| Ok::<Seq<Seq<char>>, Seq<char>>(transaction_row(t)),
    )
}

proof fn lemma_header_row_accepted()
    ensures
        check_header_from(header_row(), 0) is None,
{
    reveal_with_fuel(check_header_from, 9);
    assert(header_row().len() == 8);
}

proof fn lemma_transaction_row(t: TransactionModel)
    ensures
        transaction_from_row(transaction_row(t)) == Ok::<TransactionModel, FormatErrorModel>(t),
{
    crate::chars::lemma_parse_decimal(t.id);
    crate::chars::lemma_parse_decimal(t.from_user_id);
    crate::chars::lemma_parse_decimal(t.to_user_id);
    crate::chars::lemma_parse_decimal(t.amount);
    crate::chars::lemma_parse_decimal(t.timestamp);
    crate::names::lemma_names_roundtrip(t.tx_type, t.tx_status);
}

proof fn lemma_csv_read_rows(ts: Seq<TransactionModel>, rows: Seq<CsvRow>, k: int)
    requires
        rows == csv_rows(ts),
        0 <= k <= ts.len(),
    ensures
        csv_read_all(CsvReadState { rows, next: k + 1, header_read: true }) == (ts.subrange(k, ts.len() as int), Option::<FormatErrorModel>::None),
    decreases ts.len() - k,
{
    if k == ts.len() {
        assert(ts.subrange(k, ts.len() as int) =~= Seq::<TransactionModel>::empty());
    } else {
        assert(rows[k + 1] == Ok::<Seq<Seq<char>>, Seq<char>>(transaction_row(ts[k])));
        lemma_transaction_row(ts[k]);
        lemma_csv_read_rows(ts, rows, k + 1);
        assert(seq![ts[k]] + ts.subrange(k + 1, ts.len() as int) =~= ts.subrange(k, ts.len() as int));
    }
}

/// Reading back what was written, as far as the `csv` crate goes: input
/// whose rows, as the `csv` crate reads them, are the header row and the
/// rows of `ts` (the rows that the writer hands the `csv` crate) reads back
/// as `ts`, in order, and reading ends without error.
pub proof fn csv_rows_read_back(ts: Seq<TransactionModel>, input: Seq<u8>)
    requires
        csv_parse(input) == csv_rows(ts),
    ensures
        csv_read_all(CsvReadState { rows: csv_parse(input), next: 0, header_read: false }) == (ts, Option::<FormatErrorModel>::None),
{
    let rows = csv_rows(ts);
    lemma_header_row_accepted();
    assert(rows[0] == Ok::<Seq<Seq<char>>, Seq<char>>(header_row()));
    lemma_csv_read_rows(ts, rows, 0);
    assert(ts.subrange(0, ts.len() as int) =~= ts);
    if ts.len() > 0 {
        assert(rows[1] == Ok::<Seq<Seq<char>>, Seq<char>>(transaction_row(ts[0])));
        lemma_transaction_row(ts[0]);
        lemma_csv_read_rows(ts, rows, 1);
        assert(seq![ts[0]] + ts.subrange(1, ts.len() as int) =~= ts);
    }
}

/// The data rows of `ts`, written one after another.
pub open spec fn csv_encode_rows(ts: Seq<TransactionModel>) -> Seq<u8>
    decreases ts.len(),
{
    if ts.len() == 0 {
        seq![]
    } else {
        csv_encode_record(transaction_row(ts[0])) + csv_encode_rows(ts.drop_first())
    }
}

/// What the CSV writer writes for `ts`: nothing for no record, else the
/// header row and the data rows.
pub open spec fn csv_encode_all(ts: Seq<TransactionModel>) -> Seq<u8> {
    if ts.len() == 0 {
        seq![]
    } else {
        csv_encode_record(header_row()) + csv_encode_rows(ts)
    }
}

/// Appending a record to the rows written.
pub proof fn lemma_csv_encode_rows_push(ts: Seq<TransactionModel>, t: TransactionModel)
    ensures
        csv_encode_rows(ts.push(t)) == csv_encode_rows(ts) + csv_encode_record(transaction_row(t)),
    decreases ts.len(),
{
    if ts.len() == 0 {
        reveal_with_fuel(csv_encode_rows, 2);
        assert(ts.push(t).drop_first() =~= Seq::<TransactionModel>::empty());
        assert(csv_encode_rows(ts.push(t)) =~= csv_encode_record(transaction_row(t)));
        assert(csv_encode_rows(ts) =~= Seq::<u8>::empty());
        assert(csv_encode_rows(ts) + csv_encode_record(transaction_row(t)) =~= csv_encode_record(transaction_row(t)));
    } else {
        lemma_csv_encode_rows_push(ts.drop_first(), t);
        assert(ts.push(t).drop_first() =~= ts.drop_first().push(t));
        assert(ts.push(t)[0] == ts[0]);
        assert(csv_encode_rows(ts.push(t)) =~= csv_encode_record(transaction_row(ts[0])) + (csv_encode_rows(ts.drop_first()) + csv_encode_record(transaction_row(t))));
    }
}

/// Writing records one after another into a new writer: the writer then
/// holds what it started with, followed, where any record was written, by
/// the header row once and then the row of each record in the order written.
pub proof fn csv_writer_output(ws: Seq<CsvTransactionWriter>, ts: Seq<TransactionModel>)
    requires
        ws.len() == ts.len() + 1,
        !ws[0].header_written(),
        forall|i: int|
            0 <= i < ts.len() ==> (#[trigger] ws[i + 1]).header_written() && ws[i + 1].written() == ws[i].written() + (
            if ws[i].header_written() {
                Seq::<u8>::empty()
            } else {
                csv_encode_record(header_row())
            }) + csv_encode_record(transaction_row(ts[i])),
    ensures
        ws.last().written() == ws[0].written() + csv_encode_all(ts),
        ws.last().header_written() == (ts.len() > 0),
    decreases ts.len(),
{
    if ts.len() > 0 {
        let n = ts.len() - 1;
        let pre = ts.drop_last();
        let wp = ws.drop_last();
        assert forall|i: int| 0 <= i < pre.len() implies (#[trigger] wp[i + 1]).header_written() && wp[i + 1].written()
            == wp[i].written() + (if wp[i].header_written() {
            Seq::<u8>::empty()
        } else {
            csv_encode_record(header_row())
        }) + csv_encode_record(transaction_row(pre[i])) by {
            assert(wp[i + 1] == ws[i + 1] && wp[i] == ws[i] && pre[i] == ts[i]);
        }
        csv_writer_output(wp, pre);
        assert(ws[n + 1].header_written());
        assert(ts == pre.push(ts[n]));
        lemma_csv_encode_rows_push(pre, ts[n]);
        if n == 0 {
            reveal_with_fuel(csv_encode_rows, 2);
            assert(csv_encode_rows(pre) =~= Seq::<u8>::empty());
            assert(ws.last().written() =~= ws[0].written() + csv_encode_all(ts));
        } else {
            assert(ws.last().written() =~= ws[0].written() + csv_encode_all(ts));
        }
    }
}

} // verus!
