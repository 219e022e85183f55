//! Reading and writing any of the three formats, and converting between them.

use vstd::prelude::*;

use crate::bin_format::{
    bin_encodable, bin_write_read_roundtrip, bin_encode, bin_encode_all, bin_read_all, bin_read_record, lemma_bin_encode_all_push,
    BinTransactionReader, BinTransactionWriter,
};
use crate::chars::{chars_equal, str_chars};
use crate::csv_format::{
    csv_rows, csv_rows_read_back, csv_encode_all, csv_encode_record, csv_encode_rows, csv_parse, csv_read_all,
    csv_read_record, header_row, lemma_csv_encode_rows_push, transaction_row, CsvReadState,
    CsvTransactionReader, CsvTransactionWriter,
};
use crate::error::{outcome_of, FormatError, FormatErrorModel, ReadOutcome};
use crate::text_format::{text_read_record, text_record, TextTransactionReader, TextTransactionWriter};
use crate::text_format::record_meets_lone_quote;
use crate::text_roundtrip::{lemma_read_until_lone_quote, text_read_until_lone_quote, lone_quote_is_an_error, text_meets_lone_quote, text_encodable, text_write_read_roundtrip, lemma_text_record_progress, lemma_text_records_push, text_read_all, text_records};
use crate::transaction::{Transaction, TransactionModel};

verus! {

/// The three record formats.
#[derive(Clone, Copy, PartialEq, Eq, Structural, Debug)]
pub enum Format {
    Binary,
    Text,
    Csv,
}

/// The format a command-line name stands for: `bin` (also spelt
/// `binary`), `txt` or `csv`.
pub open spec fn format_named(name: Seq<char>) -> Option<Format> {
    if name == seq!['b', 'i', 'n'] || name == seq!['b', 'i', 'n', 'a', 'r', 'y'] {
        Some(Format::Binary)
    } else if name == seq!['t', 'x', 't'] {
        Some(Format::Text)
    } else if name == seq!['c', 's', 'v'] {
        Some(Format::Csv)
    } else {
        None
    }
}

/// The format a command-line name stands for.
pub fn format_from_name(name: &str) -> (r: Option<Format>)
    ensures
        r == format_named(name@),
{
    let chars = str_chars(name);
    let bin = vec!['b', 'i', 'n'];
    let binary = vec!['b', 'i', 'n', 'a', 'r', 'y'];
    let txt = vec!['t', 'x', 't'];
    let csv = vec!['c', 's', 'v'];
    if chars_equal(chars.as_slice(), bin.as_slice()) || chars_equal(chars.as_slice(), binary.as_slice()) {
        Some(Format::Binary)
    } else if chars_equal(chars.as_slice(), txt.as_slice()) {
        Some(Format::Text)
    } else if chars_equal(chars.as_slice(), csv.as_slice()) {
        Some(Format::Csv)
    } else {
        None
    }
}

/// Reading all records of `input` in `format`: the records read, in order,
/// and the error reading ended in, if any.
pub open spec fn read_all(format: Format, input: Seq<u8>) -> (Seq<TransactionModel>, Option<FormatErrorModel>) {
    match format {
        Format::Binary => bin_read_all(input, 0),
        Format::Text => text_read_all(input, 0),
        Format::Csv => csv_read_all(CsvReadState { rows: csv_parse(input), next: 0, header_read: false }),
    }
}

/// What writing `ts` in `format` produces.
pub open spec fn encode_all(format: Format, ts: Seq<TransactionModel>) -> Seq<u8> {
    match format {
        Format::Binary => bin_encode_all(ts),
        Format::Text => vstd::utf8::encode_utf8(text_records(ts)),
        Format::Csv => csv_encode_all(ts),
    }
}

/// A reader of any of the formats.
pub enum FormatReader {
    Binary(BinTransactionReader),
    Text(TextTransactionReader),
    Csv(CsvTransactionReader),
}

impl FormatReader {
    /// The records that are left to read, and the error reading them ends in, if any.
    #[verifier::opaque]
    pub open spec fn rest(&self) -> (Seq<TransactionModel>, Option<FormatErrorModel>) {
        match self {
            FormatReader::Binary(r) => bin_read_all(r.input(), r.position()),
            FormatReader::Text(r) => text_read_all(r.input(), r.position()),
            FormatReader::Csv(r) => csv_read_all(r.state()),
        }
    }

    /// Whether the records left, in text, hold a description that is a
    /// lone double quote before the end or the first error: input that
    /// the text decoder does not take.
    pub open spec fn meets_lone_quote(&self) -> bool {
        match self {
            FormatReader::Text(r) => text_meets_lone_quote(r.input(), r.position()),
            _ => false,
        }
    }

    /// How much input is left.
    pub open spec fn remaining(&self) -> int {
        match self {
            FormatReader::Binary(r) => r.input().len() - r.position(),
            FormatReader::Text(r) => r.input().len() - r.position(),
            FormatReader::Csv(r) => r.state().rows.len() - r.state().next,
        }
    }

    /// A reader of `input` in `format`.
    pub fn new(input: Vec<u8>, format: Format) -> (r: Self)
        ensures
            r.rest() == read_all(format, input@),
            r.remaining() >= 0,
            r.meets_lone_quote() == (format == Format::Text && text_meets_lone_quote(input@, 0)),
    {
        reveal(FormatReader::rest);
        match format {
            Format::Binary => FormatReader::Binary(BinTransactionReader::new(input)),
            Format::Text => FormatReader::Text(TextTransactionReader::new(input)),
            Format::Csv => FormatReader::Csv(CsvTransactionReader::new(input)),
        }
    }

    /// Reads the next record: the first of the records left, the end when
    /// none is left, or the error reading ends in.
    pub fn read_next(&mut self) -> (r: Result<Option<Transaction>, FormatError>)
        requires
            !old(self).meets_lone_quote(),
        ensures
            match outcome_of(r) {
                ReadOutcome::Record(t) => old(self).rest().0.len() > 0 && old(self).rest().0[0] == t
                    && final(self).rest() == (old(self).rest().0.drop_first(), old(self).rest().1)
                    && 0 <= final(self).remaining() < old(self).remaining() && !final(self).meets_lone_quote(),
                ReadOutcome::End => old(self).rest() == (Seq::<TransactionModel>::empty(), Option::<FormatErrorModel>::None),
                ReadOutcome::Failed(e) => old(self).rest() == (Seq::<TransactionModel>::empty(), Some(e)),
            },
    {
        reveal(FormatReader::rest);
        match self {
            FormatReader::Binary(reader) => {
                let r = reader.read_next();
                proof {
                    let s = old(self)->Binary_0.input();
                    let p = old(self)->Binary_0.position();
                    if outcome_of(r) is Record {
                        assert(p < reader.position());
                        assert(seq![outcome_of(r)->Record_0] + bin_read_all(s, reader.position()).0 == bin_read_all(s, p).0);
                        assert((seq![outcome_of(r)->Record_0] + bin_read_all(s, reader.position()).0).drop_first() =~= bin_read_all(s, reader.position()).0);
                    }
                }
                r
            },
            FormatReader::Text(reader) => {
                let ghost s = reader.input();
                let ghost p = reader.position();
                let r = reader.read_next();
                proof {
                    lemma_text_record_progress(s, p);
                    if outcome_of(r) is Record {
                        assert(seq![outcome_of(r)->Record_0] + text_read_all(s, reader.position()).0 == text_read_all(s, p).0);
                        assert((seq![outcome_of(r)->Record_0] + text_read_all(s, reader.position()).0).drop_first() =~= text_read_all(s, reader.position()).0);
                    }
                }
                r
            },
            FormatReader::Csv(reader) => {
                let ghost st = reader.state();
                let r = reader.read_next();
                proof {
                    if outcome_of(r) is Record {
                        assert(seq![outcome_of(r)->Record_0] + csv_read_all(reader.state()).0 == csv_read_all(st).0);
                        assert((seq![outcome_of(r)->Record_0] + csv_read_all(reader.state()).0).drop_first() =~= csv_read_all(reader.state()).0);
                    }
                }
                r
            },
        }
    }
}

/// A writer of any of the formats.
pub enum FormatWriter {
    Binary(BinTransactionWriter),
    Text(TextTransactionWriter),
    Csv(CsvTransactionWriter),
}

impl FormatWriter {
    /// The format written.
    pub open spec fn format(&self) -> Format {
        match self {
            FormatWriter::Binary(_) => Format::Binary,
            FormatWriter::Text(_) => Format::Text,
            FormatWriter::Csv(_) => Format::Csv,
        }
    }

    /// The bytes written so far.
    pub open spec fn written(&self) -> Seq<u8> {
        match self {
            FormatWriter::Binary(w) => w.written(),
            FormatWriter::Text(w) => w.written(),
            FormatWriter::Csv(w) => w.written(),
        }
    }

    /// The writer holds exactly what writing `ts` produces.
    #[verifier::opaque]
    pub open spec fn holds(&self, ts: Seq<TransactionModel>) -> bool {
        &&& self.written() == encode_all(self.format(), ts)
        &&& (self matches FormatWriter::Csv(w) ==> w.header_written() == (ts.len() > 0))
    }

    /// An empty writer of `format`.
    pub fn new(format: Format) -> (w: Self)
        ensures
            w.format() == format,
            w.holds(Seq::<TransactionModel>::empty()),
    {
        reveal(FormatWriter::holds);
        let w = match format {
            Format::Binary => FormatWriter::Binary(BinTransactionWriter::new(Vec::new())),
            Format::Text => FormatWriter::Text(TextTransactionWriter::new(Vec::new())),
            Format::Csv => FormatWriter::Csv(CsvTransactionWriter::new(Vec::new())),
        };
        proof {
            assert(vstd::utf8::encode_utf8(text_records(Seq::<TransactionModel>::empty())) =~= Seq::<u8>::empty());
            assert(bin_encode_all(Seq::<TransactionModel>::empty()) =~= Seq::<u8>::empty());
        }
        w
    }

    /// Writes the record of `transaction` after those of `ts`; writing into
    /// memory always succeeds.
    pub(crate) fn write_next(&mut self, transaction: &Transaction, Ghost(ts): Ghost<Seq<TransactionModel>>) -> (r: Result<(), FormatError>)
        requires
            old(self).holds(ts),
        ensures
            final(self).format() == old(self).format(),
            r is Ok,
            final(self).holds(ts.push(transaction@)),
    {
        reveal(FormatWriter::holds);
        match self {
            FormatWriter::Binary(w) => {
                let r = w.write_next(transaction);
                proof {
                    lemma_bin_encode_all_push(ts, transaction@);
                }
                r
            },
            FormatWriter::Text(w) => {
                let r = w.write_next(transaction);
                proof {
                    lemma_text_records_push(ts, transaction@);
                    crate::text_roundtrip::lemma_encode_concat(text_records(ts), text_record(transaction@));
                }
                r
            },
            FormatWriter::Csv(w) => {
                let r = w.write_next(transaction);
                proof {
                    lemma_csv_encode_rows_push(ts, transaction@);
                    if ts.len() == 0 {
                        reveal_with_fuel(csv_encode_rows, 2);
                        assert(ts.push(transaction@).drop_first() =~= Seq::<TransactionModel>::empty());
                        assert(csv_encode_rows(ts) =~= Seq::<u8>::empty());
                        assert(w.written() =~= encode_all(Format::Csv, ts.push(transaction@)));
                    } else {
                        assert(w.written() =~= encode_all(Format::Csv, ts.push(transaction@)));
                    }
                }
                r
            },
        }
    }

    /// Hands out the bytes written.
    pub fn into_output(self) -> (r: Vec<u8>)
        ensures
            r@ == self.written(),
    {
        match self {
            FormatWriter::Binary(mut w) => w.take_output(),
            FormatWriter::Text(mut w) => w.take_output(),
            FormatWriter::Csv(mut w) => w.take_output(),
        }
    }
}

/// The values of a list of transactions.
pub open spec fn transactions_view(v: Seq<Transaction>) -> Seq<TransactionModel> {
    v.map_values(|t: Transaction| t@)
}

/// The value of an optional error.
pub open spec fn error_view(e: Option<FormatError>) -> Option<FormatErrorModel> {
    match e {
        Some(e) => Some(e@),
        None => None,
    }
}

/// Reads all records of `input` in `format`, up to the end or the first
/// error: the records read and that error.
pub fn read_transactions(input: Vec<u8>, format: Format) -> (r: (Vec<Transaction>, Option<FormatError>))
    requires
        format == Format::Text ==> !text_meets_lone_quote(input@, 0),
    ensures
        transactions_view(r.0@) == read_all(format, input@).0,
        error_view(r.1) == read_all(format, input@).1,
{
    let ghost all = read_all(format, input@);
    let mut reader = FormatReader::new(input, format);
    let mut out: Vec<Transaction> = Vec::new();
    loop
        invariant
            all == read_all(format, input@),
            transactions_view(out@) + reader.rest().0 == all.0,
            reader.rest().1 == all.1,
            reader.remaining() >= 0,
            !reader.meets_lone_quote(),
        decreases reader.remaining(),
    {
        let ghost before = reader.rest();
        match reader.read_next() {
            Err(e) => {
                assert(transactions_view(out@) =~= all.0);
                return (out, Some(e));
            },
            Ok(None) => {
                assert(transactions_view(out@) =~= all.0);
                return (out, None);
            },
            Ok(Some(t)) => {
                let ghost prev = out@;
                out.push(t);
                assert(transactions_view(out@) =~= transactions_view(prev).push(before.0[0]));
                assert(transactions_view(out@) + reader.rest().0 =~= transactions_view(prev) + before.0);
            },
        }
    }
}

/// Reads the text records of `input` up to the end, the first error, or
/// the first record that holds a lone-quote description line, which the
/// text decoder does not take: the records read before, the error, and
/// whether a lone quote stopped reading. Where the input meets no lone
/// quote, this is what `read_transactions` reads.
pub fn read_text_until_lone_quote(input: Vec<u8>) -> (r: (Vec<Transaction>, Option<FormatError>, bool))
    ensures
        (transactions_view(r.0@), error_view(r.1), r.2) == text_read_until_lone_quote(input@, 0),
        r.2 == text_meets_lone_quote(input@, 0),
        !r.2 ==> transactions_view(r.0@) == read_all(Format::Text, input@).0 && error_view(r.1) == read_all(
            Format::Text,
            input@,
        ).1,
{
    proof {
        lemma_read_until_lone_quote(input@, 0);
    }
    let ghost s = input@;
    let ghost whole = text_read_until_lone_quote(s, 0);
    let mut reader = TextTransactionReader::new(input);
    let mut out: Vec<Transaction> = Vec::new();
    loop
        invariant
            s == input@,
            whole == text_read_until_lone_quote(input@, 0),
            whole.2 == text_meets_lone_quote(input@, 0),
            !whole.2 ==> whole.0 == read_all(Format::Text, input@).0 && whole.1 == read_all(Format::Text, input@).1,
            reader.input() == s,
            0 <= reader.position() <= s.len(),
            transactions_view(out@) + text_read_until_lone_quote(s, reader.position()).0 == whole.0,
            text_read_until_lone_quote(s, reader.position()).1 == whole.1,
            text_read_until_lone_quote(s, reader.position()).2 == whole.2,
        decreases s.len() - reader.position(),
    {
        let ghost p = reader.position();
        if reader.next_meets_lone_quote() {
            assert(p < s.len());
            assert(text_read_until_lone_quote(s, p).0 =~= Seq::<TransactionModel>::empty());
            assert(transactions_view(out@) =~= whole.0);
            assert(whole.1 is None && whole.2);
            return (out, None, true);
        }
        proof {
            lemma_text_record_progress(s, p);
        }
        match reader.read_next() {
            Err(e) => {
                assert(text_read_record(s, p).0 == ReadOutcome::Failed(e@));
                assert(text_read_until_lone_quote(s, p).0 =~= Seq::<TransactionModel>::empty());
                assert(text_read_until_lone_quote(s, p).1 == Some(e@));
                assert(transactions_view(out@) =~= whole.0);
                assert(error_view(Some(e)) == whole.1);
                assert(!whole.2);
                return (out, Some(e), false);
            },
            Ok(None) => {
                assert(transactions_view(out@) =~= whole.0);
                return (out, None, false);
            },
            Ok(Some(t)) => {
                let ghost prev = out@;
                let ghost rest = text_read_until_lone_quote(s, reader.position());
                out.push(t);
                assert(transactions_view(out@) =~= transactions_view(prev).push(t@));
                assert(transactions_view(out@) + rest.0 =~= transactions_view(prev) + (seq![t@] + rest.0));
            },
        }
    }
}

/// The bytes that writing `ts` in `format`, in order, produces.
pub fn encode_transactions(ts: &Vec<Transaction>, format: Format) -> (r: Vec<u8>)
    ensures
        r@ == encode_all(format, transactions_view(ts@)),
{
    let mut writer = FormatWriter::new(format);
    let mut i: usize = 0;
    assert(transactions_view(ts@).take(0) =~= Seq::<TransactionModel>::empty());
    while i < ts.len()
        invariant
            i <= ts@.len(),
            writer.format() == format,
            writer.holds(transactions_view(ts@).take(i as int)),
        decreases ts@.len() - i,
    {
        let ghost done = transactions_view(ts@).take(i as int);
        let _ = writer.write_next(&ts[i], Ghost(done));
        assert(done.push(ts@[i as int]@) =~= transactions_view(ts@).take(i + 1));
        i = i + 1;
    }
    assert(transactions_view(ts@).take(ts@.len() as int) =~= transactions_view(ts@));
    reveal(FormatWriter::holds);
    writer.into_output()
}

/// Converts the records of `input` from one format to another, up to the
/// end of the input or the first error: the bytes written, and the error.
#[verifier::rlimit(60)]
pub fn convert(input: Vec<u8>, input_format: Format, output_format: Format) -> (r: (Vec<u8>, Result<(), FormatError>))
    requires
        input_format == Format::Text ==> !text_meets_lone_quote(input@, 0),
    ensures
        ({
            let (ts, err) = read_all(input_format, input@);
            match r.1 {
                Ok(()) => err is None && r.0@ == encode_all(output_format, ts),
                Err(e) => err == Some(e@) && r.0@ == encode_all(output_format, ts),
            }
        }),
{
    let ghost all = read_all(input_format, input@);
    let mut reader = FormatReader::new(input, input_format);
    let mut writer = FormatWriter::new(output_format);
    let ghost mut done: Seq<TransactionModel> = Seq::empty();
    loop
        invariant
            all == read_all(input_format, input@),
            done + reader.rest().0 == all.0,
            reader.rest().1 == all.1,
            reader.remaining() >= 0,
            !reader.meets_lone_quote(),
            writer.format() == output_format,
            writer.holds(done),
        decreases reader.remaining(),
    {
        let ghost before = reader.rest();
        match reader.read_next() {
            Err(e) => {
                assert(done =~= all.0);
                reveal(FormatWriter::holds);
                return (writer.into_output(), Err(e));
            },
            Ok(None) => {
                assert(done =~= all.0);
                reveal(FormatWriter::holds);
                return (writer.into_output(), Ok(()));
            },
            Ok(Some(t)) => {
                match writer.write_next(&t, Ghost(done)) {
                    Err(e) => {
                        return (writer.into_output(), Err(e));
                    },
                    Ok(()) => {
                        proof {
                            assert(done.push(t@) + reader.rest().0 =~= done + before.0);
                            done = done.push(t@);
                        }
                    },
                }
            },
        }
    }
}

/// What is written in a format reads back, in that format, as the records
/// written, in order, without error: in binary where each description fits
/// the record size field, in text where no description holds a line break,
/// and in CSV where the `csv` crate reads the written bytes as the rows
/// that were handed to it.
pub proof fn write_read_roundtrip(format: Format, ts: Seq<TransactionModel>)
    requires
        format == Format::Binary ==> forall|i: int| 0 <= i < ts.len() ==> bin_encodable(#[trigger] ts[i]),
        format == Format::Text ==> forall|i: int| 0 <= i < ts.len() ==> text_encodable(#[trigger] ts[i]),
        format == Format::Csv ==> csv_parse(encode_all(format, ts)) == csv_rows(ts),
    ensures
        read_all(format, encode_all(format, ts)) == (ts, Option::<FormatErrorModel>::None),
        format == Format::Text ==> !text_meets_lone_quote(encode_all(format, ts), 0),
{
    match format {
        Format::Binary => bin_write_read_roundtrip(ts),
        Format::Text => {
            text_write_read_roundtrip(ts);
            if text_meets_lone_quote(encode_all(format, ts), 0) {
                lone_quote_is_an_error(encode_all(format, ts), 0);
            }
        },
        Format::Csv => csv_rows_read_back(ts, encode_all(format, ts)),
    }
}

/// Whether text input holds, among the records read before the end or
/// the first error, a description that is a lone double quote: input that
/// the text decoder does not take.
pub fn text_input_meets_lone_quote(input: &Vec<u8>) -> (r: bool)
    ensures
        r == text_meets_lone_quote(input@, 0),
{
    let copy = input.clone();
    let mut reader = TextTransactionReader::new(copy);
    loop
        invariant
            reader.input() == input@,
            0 <= reader.position() <= input@.len(),
            text_meets_lone_quote(input@, 0) == text_meets_lone_quote(input@, reader.position()),
        decreases input@.len() - reader.position(),
    {
        if reader.next_meets_lone_quote() {
            return true;
        }
        let ghost p = reader.position();
        proof {
            lemma_text_record_progress(input@, p);
        }
        match reader.read_next() {
            Ok(Some(_)) => {},
            _ => {
                return false;
            },
        }
    }
}

} // verus!
