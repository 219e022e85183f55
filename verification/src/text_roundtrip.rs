//! Reading back text records: what the text writer writes, the text reader
//! reads back as the same transactions.

use vstd::prelude::*;

use crate::chars::{
    decimal, is_whitespace, lemma_parse_decimal, parse_u64, starts_with, trim, trim_end,
    trim_start,
};
use crate::error::{Field, FormatErrorModel, IntErrorKind, ReadOutcome};
use crate::names::{lemma_names_roundtrip, tx_status_from_name, tx_status_name, tx_type_from_name, tx_type_name};
use crate::text_format::{
    build_transaction, description_from_raw, field_line, field_prefix, field_value, fields_empty,
    fields_is_empty, is_number_field, line_end, number_field, read_number_field, text_read_fields,
    text_read_line, text_read_record, text_record, text_record_body, with_number_field, record_meets_lone_quote, fields_meet_lone_quote, lone_quote_line, lemma_lone_quote_fails,
    FieldsModel, LineKind,
};
use crate::transaction::TransactionModel;

verus! {

/// Records written one after another.
pub open spec fn text_records(ts: Seq<TransactionModel>) -> Seq<char>
    decreases ts.len(),
{
    if ts.len() == 0 {
        seq![]
    } else {
        text_record(ts[0]) + text_records(ts.drop_first())
    }
}

/// Reading records from position `p` on until no record is left or a read
/// fails: the records read, and the error reading ended in, if any.
pub open spec fn text_read_all(s: Seq<u8>, p: int) -> (Seq<TransactionModel>, Option<FormatErrorModel>)
    decreases s.len() - p,
{
    if p < 0 || p >= s.len() {
        (seq![], None)
    } else {
        let (o, q) = text_read_record(s, p);
        match o {
            ReadOutcome::Record(t) => if q <= p || q > s.len() {
                (seq![t], None)
            } else {
                let (ts, e) = text_read_all(s, q);
                (seq![t] + ts, e)
            },
            ReadOutcome::Failed(e) => (seq![], Some(e)),
            ReadOutcome::End => (seq![], None),
        }
    }
}

/// Whether reading records from `p` on, up to the end of the input or the
/// first error, meets a lone-quote description line.
pub open spec fn text_meets_lone_quote(s: Seq<u8>, p: int) -> bool
    decreases s.len() - p,
{
    if p < 0 || p >= s.len() {
        false
    } else if record_meets_lone_quote(s, p) {
        true
    } else {
        let (o, q) = text_read_record(s, p);
        match o {
            ReadOutcome::Record(_) => if q <= p || q > s.len() {
                false
            } else {
                text_meets_lone_quote(s, q)
            },
            _ => false,
        }
    }
}

/// Reading records from `p` on until the end of the input, the first
/// error, or the first record that meets a lone-quote description line:
/// the records read before, the error, and whether a lone quote stopped it.
pub open spec fn text_read_until_lone_quote(s: Seq<u8>, p: int) -> (Seq<TransactionModel>, Option<FormatErrorModel>, bool)
    decreases s.len() - p,
{
    if p < 0 || p >= s.len() {
        (seq![], None, false)
    } else if record_meets_lone_quote(s, p) {
        (seq![], None, true)
    } else {
        let (o, q) = text_read_record(s, p);
        match o {
            ReadOutcome::Record(t) => if q <= p || q > s.len() {
                (seq![t], None, false)
            } else {
                let (ts, e, lone) = text_read_until_lone_quote(s, q);
                (seq![t] + ts, e, lone)
            },
            ReadOutcome::Failed(e) => (seq![], Some(e), false),
            ReadOutcome::End => (seq![], None, false),
        }
    }
}

/// Reading up to a lone quote stops at one exactly where reading meets
/// one, and where it meets none, it reads what reading to the end reads.
pub proof fn lemma_read_until_lone_quote(s: Seq<u8>, p: int)
    ensures
        text_read_until_lone_quote(s, p).2 == text_meets_lone_quote(s, p),
        !text_meets_lone_quote(s, p) ==> text_read_until_lone_quote(s, p).0 == text_read_all(s, p).0
            && text_read_until_lone_quote(s, p).1 == text_read_all(s, p).1,
    decreases s.len() - p,
{
    if 0 <= p < s.len() && !record_meets_lone_quote(s, p) {
        let (o, q) = text_read_record(s, p);
        if o is Record && !(q <= p || q > s.len()) {
            lemma_read_until_lone_quote(s, q);
        }
    }
}

/// Gathering fields that meets a lone-quote description line ends in an
/// error about the description.
proof fn lemma_lone_quote_fields_fail(s: Seq<u8>, p: int, f: FieldsModel)
    requires
        fields_meet_lone_quote(s, p, f),
    ensures
        text_read_fields(s, p, f).0 == Err::<FieldsModel, FormatErrorModel>(FormatErrorModel::IllegalDescription),
    decreases s.len() - p,
{
    let e = line_end(s, p);
    crate::text_format::lemma_line_end_bounds(s, p);
    let line = vstd::utf8::decode_utf8(s.subrange(p, e));
    if lone_quote_line(line, f) {
        lemma_lone_quote_fails(line, f);
    } else {
        match text_read_line(line, f) {
            Err(_) => {},
            Ok((kind, g)) => {
                if !(kind == LineKind::Empty && !fields_is_empty(g)) {
                    lemma_lone_quote_fields_fail(s, e, g);
                }
            },
        }
    }
}

/// Reading text that meets a lone-quote description line ends in an error
/// about the description: input that reads back without error never
/// meets one.
pub proof fn lone_quote_is_an_error(s: Seq<u8>, p: int)
    requires
        text_meets_lone_quote(s, p),
    ensures
        text_read_all(s, p).1 == Some(FormatErrorModel::IllegalDescription),
    decreases s.len() - p,
{
    if record_meets_lone_quote(s, p) {
        lemma_lone_quote_fields_fail(s, p, fields_empty());
    } else {
        let (o, q) = text_read_record(s, p);
        lone_quote_is_an_error(s, q);
    }
}

/// A transaction whose description holds no line break, so that it stays
/// on its line.
pub open spec fn text_encodable(t: TransactionModel) -> bool {
    forall|i: int| 0 <= i < t.description.len() ==> t.description[i] != '\n'
}

/// UTF-8 encodes a concatenation piece by piece.
pub proof fn lemma_encode_concat(a: Seq<char>, b: Seq<char>)
    ensures
        vstd::utf8::encode_utf8(a + b) == vstd::utf8::encode_utf8(a) + vstd::utf8::encode_utf8(b),
    decreases a.len(),
{
    if a.len() == 0 {
        assert(a + b =~= b);
        assert(vstd::utf8::encode_utf8(a) =~= Seq::<u8>::empty());
        assert(vstd::utf8::encode_utf8(b) =~= Seq::<u8>::empty() + vstd::utf8::encode_utf8(b));
    } else {
        assert((a + b).drop_first() =~= a.drop_first() + b);
        assert((a + b)[0] == a[0]);
        lemma_encode_concat(a.drop_first(), b);
        let ea = vstd::utf8::encode_scalar(a[0] as u32);
        assert(vstd::utf8::encode_utf8(a + b) =~= ea + (vstd::utf8::encode_utf8(a.drop_first())
            + vstd::utf8::encode_utf8(b)));
    }
}

proof fn lemma_scalar_no_newline(c: char)
    requires
        c != '\n',
    ensures
        forall|i: int| 0 <= i < vstd::utf8::encode_scalar(c as u32).len() ==> #[trigger] vstd::utf8::encode_scalar(c as u32)[i] != 10,
{
    let x = c as u32;
    vstd::utf8::char_is_scalar(c);
    if vstd::utf8::has_width_1_encoding(x) {
        assert(x != 10);
        assert((x & 0x7F) as u8 != 10u8) by (bit_vector)
            requires
                x <= 0x7F && x != 10,
        ;
    } else {
        assert(vstd::utf8::leading_byte_width_2(x) >= 0x80) by (bit_vector);
        assert(vstd::utf8::leading_byte_width_3(x) >= 0x80) by (bit_vector);
        assert(vstd::utf8::leading_byte_width_4(x) >= 0x80) by (bit_vector);
        assert(vstd::utf8::last_continuation_byte(x) >= 0x80) by (bit_vector);
        assert(vstd::utf8::second_last_continuation_byte(x) >= 0x80) by (bit_vector);
        assert(vstd::utf8::third_last_continuation_byte(x) >= 0x80) by (bit_vector);
    }
}

/// Text without a line break has no newline byte in its UTF-8.
proof fn lemma_encode_no_newline(l: Seq<char>)
    requires
        forall|i: int| 0 <= i < l.len() ==> l[i] != '\n',
    ensures
        forall|i: int| 0 <= i < vstd::utf8::encode_utf8(l).len() ==> #[trigger] vstd::utf8::encode_utf8(l)[i] != 10,
    decreases l.len(),
{
    if l.len() > 0 {
        lemma_scalar_no_newline(l[0]);
        lemma_encode_no_newline(l.drop_first());
        let a = vstd::utf8::encode_scalar(l[0] as u32);
        let b = vstd::utf8::encode_utf8(l.drop_first());
        assert forall|i: int| 0 <= i < vstd::utf8::encode_utf8(l).len() implies #[trigger] vstd::utf8::encode_utf8(l)[i] != 10 by {
            if i < a.len() {
                assert(vstd::utf8::encode_utf8(l)[i] == a[i]);
            } else {
                assert(vstd::utf8::encode_utf8(l)[i] == b[i - a.len()]);
            }
        }
    }
}

proof fn lemma_line_end_scan(s: Seq<u8>, p: int, q: int)
    requires
        0 <= p <= q < s.len(),
        s[q] == 10,
        forall|i: int| p <= i < q ==> s[i] != 10,
    ensures
        line_end(s, p) == q + 1,
    decreases q - p,
{
    if p < q {
        lemma_line_end_scan(s, p + 1, q);
    }
}

/// A line whose only line break is its last character.
pub open spec fn is_line(l: Seq<char>) -> bool {
    l.len() > 0 && l.last() == '\n' && forall|i: int| 0 <= i < l.len() - 1 ==> l[i] != '\n'
}

/// The bytes at `p` encode `line` followed by `rest`: the reader's line
/// there is exactly `line`.
proof fn lemma_read_text_line(s: Seq<u8>, p: int, line: Seq<char>, rest: Seq<char>)
    requires
        is_line(line),
        0 <= p <= s.len(),
        s.subrange(p, s.len() as int) == vstd::utf8::encode_utf8(line + rest),
    ensures
        p < s.len(),
        line_end(s, p) == p + vstd::utf8::encode_utf8(line).len(),
        vstd::utf8::valid_utf8(s.subrange(p, line_end(s, p))),
        vstd::utf8::decode_utf8(s.subrange(p, line_end(s, p))) == line,
        s.subrange(line_end(s, p), s.len() as int) == vstd::utf8::encode_utf8(rest),
{
    let body = line.drop_last();
    assert(line =~= body + seq!['\n']);
    lemma_encode_concat(line, rest);
    lemma_encode_concat(body, seq!['\n']);
    let eb = vstd::utf8::encode_utf8(body);
    let el = vstd::utf8::encode_utf8(line);
    let er = vstd::utf8::encode_utf8(rest);
    assert(vstd::utf8::encode_utf8(seq!['\n']) =~= seq![10u8]) by {
        reveal_with_fuel(vstd::utf8::encode_utf8, 2);
        assert(seq!['\n'].drop_first() =~= Seq::<char>::empty());
        assert(('\n' as u32) == 10u32);
        assert((10u32 & 0x7F) as u8 == 10u8) by (bit_vector);
    }
    assert(el =~= eb + seq![10u8]);
    assert forall|i: int| 0 <= i < body.len() implies body[i] != '\n' by {
        assert(body[i] == line[i]);
    }
    lemma_encode_no_newline(body);
    let q = p + eb.len();
    assert(s.subrange(p, s.len() as int) =~= el + er);
    assert(s.subrange(p, s.len() as int).len() == s.len() - p);
    assert(el.len() == eb.len() + 1);
    assert(q < s.len());
    assert(s[q] == 10) by {
        assert(s[q] == s.subrange(p, s.len() as int)[eb.len() as int]);
    }
    assert forall|i: int| p <= i < q implies s[i] != 10 by {
        assert(s[i] == s.subrange(p, s.len() as int)[i - p]);
        assert(s.subrange(p, s.len() as int)[i - p] == eb[i - p]);
    }
    lemma_line_end_scan(s, p, q);
    assert(s.subrange(p, q + 1) =~= el) by {
        assert(s.subrange(p, q + 1) =~= s.subrange(p, s.len() as int).subrange(0, el.len() as int));
    }
    assert(s.subrange(q + 1, s.len() as int) =~= er) by {
        assert(s.subrange(q + 1, s.len() as int) =~= s.subrange(p, s.len() as int).subrange(
            el.len() as int,
            (el + er).len() as int,
        ));
    }
    vstd::utf8::encode_utf8_valid_utf8(line);
    vstd::utf8::encode_utf8_decode_utf8(line);
}

/// One line of gathering fields: where the bytes at `p` encode `line`
/// followed by `rest`, gathering goes on after `line` or stops there.
proof fn lemma_fields_step(s: Seq<u8>, p: int, line: Seq<char>, rest: Seq<char>, f: FieldsModel)
    requires
        is_line(line),
        0 <= p <= s.len(),
        s.subrange(p, s.len() as int) == vstd::utf8::encode_utf8(line + rest),
        text_read_line(line, f) is Ok,
    ensures
        ({
            let e = p + vstd::utf8::encode_utf8(line).len();
            let (k, g) = text_read_line(line, f)->Ok_0;
            &&& s.subrange(e, s.len() as int) == vstd::utf8::encode_utf8(rest)
            &&& e <= s.len()
            &&& if k == LineKind::Empty && !fields_is_empty(g) {
                text_read_fields(s, p, f) == (Ok::<FieldsModel, FormatErrorModel>(g), e)
            } else {
                text_read_fields(s, p, f) == text_read_fields(s, e, g)
            }
        }),
{
    lemma_read_text_line(s, p, line, rest);
    crate::text_format::lemma_line_end_bounds(s, p);
}

proof fn lemma_trim_end_keeps_first(s: Seq<char>)
    requires
        s.len() > 0,
        !is_whitespace(s[0]),
    ensures
        trim_end(s).len() > 0,
    decreases s.len(),
{
    if is_whitespace(s.last()) {
        assert(s.len() > 1);
        assert(s.drop_last()[0] == s[0]);
        lemma_trim_end_keeps_first(s.drop_last());
    }
}

/// A line that starts with a non-blank character is not blank.
pub proof fn lemma_trim_nonblank(s: Seq<char>)
    requires
        s.len() > 0,
        !is_whitespace(s[0]),
    ensures
        trim(s).len() > 0,
{
    lemma_trim_end_keeps_first(s);
}

/// The value of a field line, trimmed, is the value written.
proof fn lemma_trim_wrapped(v: Seq<char>)
    requires
        v.len() > 0,
        !is_whitespace(v[0]),
        !is_whitespace(v.last()),
    ensures
        trim(seq![' '] + v + seq!['\n']) == v,
{
    let w = seq![' '] + v + seq!['\n'];
    assert(w.drop_first() =~= v + seq!['\n']);
    assert((v + seq!['\n'])[0] == v[0]);
    reveal_with_fuel(trim_start, 2);
    assert(trim_start(w) == v + seq!['\n']);
    assert((v + seq!['\n']).drop_last() =~= v);
    reveal_with_fuel(trim_end, 2);
    assert(trim_end(v + seq!['\n']) == v);
}

/// Three characters of a key tell the keys apart.
proof fn lemma_prefix_signature(f: Field, g: Field)
    requires
        field_prefix(f)[0] == field_prefix(g)[0],
        field_prefix(f)[1] == field_prefix(g)[1],
        field_prefix(f)[3] == field_prefix(g)[3],
    ensures
        f == g,
{
}

/// What a field line of key `f` and value `v` looks like to the reader.
proof fn lemma_field_line(f: Field, v: Seq<char>)
    requires
        v.len() > 0,
        !is_whitespace(v[0]),
        !is_whitespace(v.last()),
        forall|i: int| 0 <= i < v.len() ==> v[i] != '\n',
    ensures
        is_line(field_line(f, v)),
        trim(field_line(f, v)).len() > 0,
        !starts_with(field_line(f, v), seq!['#']),
        starts_with(field_line(f, v), field_prefix(f)),
        forall|g: Field| g != f ==> !starts_with(field_line(f, v), #[trigger] field_prefix(g)),
        field_value(field_line(f, v), f) == v,
{
    let line = field_line(f, v);
    let p = field_prefix(f);
    assert(line =~= p + (seq![' '] + v + seq!['\n']));
    assert(line.subrange(0, p.len() as int) =~= p);
    assert(line.subrange(p.len() as int, line.len() as int) =~= seq![' '] + v + seq!['\n']);
    lemma_trim_wrapped(v);
    assert(line[0] == p[0]);
    assert(!is_whitespace(p[0]));
    lemma_trim_nonblank(line);
    assert(line.subrange(0, 1)[0] == p[0]);
    assert forall|g: Field| g != f implies !starts_with(line, #[trigger] field_prefix(g)) by {
        if starts_with(line, field_prefix(g)) {
            let q = field_prefix(g);
            assert(line.subrange(0, q.len() as int)[0] == line[0]);
            assert(line.subrange(0, q.len() as int)[1] == line[1]);
            assert(line.subrange(0, q.len() as int)[3] == line[3]);
            assert(line[1] == p[1]);
            assert(line[3] == p[3]);
            lemma_prefix_signature(f, g);
        }
    }
    assert forall|i: int| 0 <= i < line.len() - 1 implies line[i] != '\n' by {
        if i < p.len() {
            assert(line[i] == p[i]);
        } else if i == p.len() {
            assert(line[i] == ' ');
        } else {
            assert(line[i] == v[i - p.len() - 1]);
        }
    }
}

/// Lines written one after another.
pub open spec fn concat_lines(ls: Seq<Seq<char>>) -> Seq<char>
    decreases ls.len(),
{
    if ls.len() == 0 {
        seq![]
    } else {
        ls[0] + concat_lines(ls.drop_first())
    }
}

/// `l` is a field line that turns the fields `f` into `g`.
#[verifier::opaque]
pub open spec fn line_adds(l: Seq<char>, f: FieldsModel, g: FieldsModel) -> bool {
    is_line(l) && text_read_line(l, f) == Ok::<(LineKind, FieldsModel), FormatErrorModel>((LineKind::Field, g))
}

/// Gathering fields over field lines, each of which adds its field.
proof fn lemma_fields_lines(s: Seq<u8>, p: int, ls: Seq<Seq<char>>, fs: Seq<FieldsModel>, rest: Seq<char>)
    requires
        fs.len() == ls.len() + 1,
        forall|i: int| 0 <= i < ls.len() ==> line_adds(#[trigger] ls[i], fs[i], fs[i + 1]),
        0 <= p <= s.len(),
        s.subrange(p, s.len() as int) == vstd::utf8::encode_utf8(concat_lines(ls) + rest),
    ensures
        ({
            let e = p + vstd::utf8::encode_utf8(concat_lines(ls)).len();
            &&& e <= s.len()
            &&& s.subrange(e, s.len() as int) == vstd::utf8::encode_utf8(rest)
            &&& text_read_fields(s, p, fs[0]) == text_read_fields(s, e, fs[ls.len() as int])
        }),
    decreases ls.len(),
{
    if ls.len() == 0 {
        assert(concat_lines(ls) + rest =~= rest);
        assert(vstd::utf8::encode_utf8(concat_lines(ls)) =~= Seq::<u8>::empty());
    } else {
        let tail = concat_lines(ls.drop_first());
        assert(concat_lines(ls) + rest =~= ls[0] + (tail + rest));
        assert(line_adds(ls[0], fs[0], fs[1]));
        reveal(line_adds);
        lemma_fields_step(s, p, ls[0], tail + rest, fs[0]);
        let e1 = p + vstd::utf8::encode_utf8(ls[0]).len();
        assert forall|i: int| 0 <= i < ls.drop_first().len() implies line_adds(#[trigger] ls.drop_first()[i], fs.drop_first()[i], fs.drop_first()[i + 1]) by {
            assert(line_adds(ls[i + 1], fs[i + 1], fs[i + 2]));
            assert(ls.drop_first()[i] == ls[i + 1]);
            assert(fs.drop_first()[i] == fs[i + 1]);
            assert(fs.drop_first()[i + 1] == fs[i + 2]);
        }
        lemma_fields_lines(s, e1, ls.drop_first(), fs.drop_first(), rest);
        lemma_encode_concat(ls[0], tail);
    }
}

/// The field lines of a record.
pub open spec fn record_lines(t: TransactionModel) -> Seq<Seq<char>> {
    seq![
        field_line(Field::Id, decimal(t.id as nat)),
        field_line(Field::Type, tx_type_name(t.tx_type)),
        field_line(Field::FromUserId, decimal(t.from_user_id as nat)),
        field_line(Field::ToUserId, decimal(t.to_user_id as nat)),
        field_line(Field::Amount, decimal(t.amount as nat)),
        field_line(Field::Timestamp, decimal(t.timestamp as nat)),
        field_line(Field::Status, tx_status_name(t.tx_status)),
        field_line(Field::Description, seq!['"'] + t.description + seq!['"']),
    ]
}

/// The fields gathered after each field line of a record.
pub open spec fn record_fields(t: TransactionModel) -> Seq<FieldsModel> {
    let f0 = fields_empty();
    let f1 = FieldsModel { id: Some(t.id), ..f0 };
    let f2 = FieldsModel { tx_type: Some(t.tx_type), ..f1 };
    let f3 = FieldsModel { from_user_id: Some(t.from_user_id), ..f2 };
    let f4 = FieldsModel { to_user_id: Some(t.to_user_id), ..f3 };
    let f5 = FieldsModel { amount: Some(t.amount), ..f4 };
    let f6 = FieldsModel { timestamp: Some(t.timestamp), ..f5 };
    let f7 = FieldsModel { tx_status: Some(t.tx_status), ..f6 };
    let f8 = FieldsModel { description: Some(t.description), ..f7 };
    seq![f0, f1, f2, f3, f4, f5, f6, f7, f8]
}

proof fn lemma_number_line(f: Field, n: u64, g: FieldsModel)
    requires
        is_number_field(f),
        number_field(g, f) is None,
    ensures
        is_line(field_line(f, decimal(n as nat))),
        field_value(field_line(f, decimal(n as nat)), f) == decimal(n as nat),
        read_number_field(field_line(f, decimal(n as nat)), g, f) == Ok::<(LineKind, FieldsModel), FormatErrorModel>((LineKind::Field, with_number_field(g, f, n))),
        trim(field_line(f, decimal(n as nat))).len() > 0,
        !starts_with(field_line(f, decimal(n as nat)), seq!['#']),
        starts_with(field_line(f, decimal(n as nat)), field_prefix(f)),
        forall|h: Field| h != f ==> !starts_with(field_line(f, decimal(n as nat)), #[trigger] field_prefix(h)),
{
    let v = decimal(n as nat);
    lemma_parse_decimal(n);
    crate::chars::lemma_decimal_digits(n as nat);
    assert forall|i: int| 0 <= i < v.len() implies v[i] != '\n' by {
        assert(crate::chars::digit_value(v[i]) is Some);
    }
    lemma_field_line(f, v);
}

proof fn lemma_name_line(f: Field, v: Seq<char>)
    requires
        v.len() >= 7,
        forall|i: int| 0 <= i < v.len() ==> 'A' <= #[trigger] v[i] <= 'Z',
    ensures
        is_line(field_line(f, v)),
        field_value(field_line(f, v), f) == v,
        trim(field_line(f, v)).len() > 0,
        !starts_with(field_line(f, v), seq!['#']),
        starts_with(field_line(f, v), field_prefix(f)),
        forall|h: Field| h != f ==> !starts_with(field_line(f, v), #[trigger] field_prefix(h)),
{
    assert('A' <= v[0] <= 'Z');
    assert('A' <= v.last() <= 'Z');
    assert forall|i: int| 0 <= i < v.len() implies v[i] != '\n' by {
        assert('A' <= v[i] <= 'Z');
    }
    lemma_field_line(f, v);
}

proof fn lemma_names_upper(t: crate::transaction::TransactionType, st: crate::transaction::TransactionStatus)
    ensures
        tx_type_name(t).len() >= 7,
        forall|i: int| 0 <= i < tx_type_name(t).len() ==> 'A' <= #[trigger] tx_type_name(t)[i] <= 'Z',
        tx_status_name(st).len() >= 7,
        forall|i: int| 0 <= i < tx_status_name(st).len() ==> 'A' <= #[trigger] tx_status_name(st)[i] <= 'Z',
{
}

proof fn lemma_number_line_read(f: Field, n: u64, g: FieldsModel)
    requires
        is_number_field(f),
        number_field(g, f) is None,
    ensures
        line_adds(field_line(f, decimal(n as nat)), g, with_number_field(g, f, n)),
{
    reveal(line_adds);
    lemma_number_line(f, n, g);
    let line = field_line(f, decimal(n as nat));
    assert(starts_with(line, field_prefix(f)));
    if f != Field::Id {
        assert(!starts_with(line, field_prefix(Field::Id)));
    }
    assert(!starts_with(line, field_prefix(Field::Type)));
    if f != Field::FromUserId {
        assert(!starts_with(line, field_prefix(Field::FromUserId)));
    }
    if f != Field::ToUserId {
        assert(!starts_with(line, field_prefix(Field::ToUserId)));
    }
    if f != Field::Amount {
        assert(!starts_with(line, field_prefix(Field::Amount)));
    }
}

proof fn lemma_type_line_read(t: crate::transaction::TransactionType, g: FieldsModel)
    requires
        g.tx_type is None,
    ensures
        line_adds(field_line(Field::Type, tx_type_name(t)), g, FieldsModel { tx_type: Some(t), ..g }),
{
    reveal(line_adds);
    lemma_names_upper(t, crate::transaction::TransactionStatus::Success);
    lemma_names_roundtrip(t, crate::transaction::TransactionStatus::Success);
    lemma_name_line(Field::Type, tx_type_name(t));
    let line = field_line(Field::Type, tx_type_name(t));
    assert(!starts_with(line, field_prefix(Field::Id)));
}

proof fn lemma_status_line_read(st: crate::transaction::TransactionStatus, g: FieldsModel)
    requires
        g.tx_status is None,
    ensures
        line_adds(field_line(Field::Status, tx_status_name(st)), g, FieldsModel { tx_status: Some(st), ..g }),
{
    reveal(line_adds);
    lemma_names_upper(crate::transaction::TransactionType::Deposit, st);
    lemma_names_roundtrip(crate::transaction::TransactionType::Deposit, st);
    lemma_name_line(Field::Status, tx_status_name(st));
    let line = field_line(Field::Status, tx_status_name(st));
    assert(!starts_with(line, field_prefix(Field::Id)));
    assert(!starts_with(line, field_prefix(Field::Type)));
    assert(!starts_with(line, field_prefix(Field::FromUserId)));
    assert(!starts_with(line, field_prefix(Field::ToUserId)));
    assert(!starts_with(line, field_prefix(Field::Amount)));
    assert(!starts_with(line, field_prefix(Field::Timestamp)));
}

proof fn lemma_description_line_read(d: Seq<char>, g: FieldsModel)
    requires
        g.description is None,
        forall|i: int| 0 <= i < d.len() ==> d[i] != '\n',
    ensures
        line_adds(field_line(Field::Description, seq!['"'] + d + seq!['"']), g, FieldsModel { description: Some(d), ..g }),
{
    reveal(line_adds);
    let q = seq!['"'] + d + seq!['"'];
    assert(q[0] == '"');
    assert(q.last() == '"');
    assert forall|i: int| 0 <= i < q.len() implies q[i] != '\n' by {
        if 0 < i < q.len() - 1 {
            assert(q[i] == d[i - 1]);
        }
    }
    lemma_field_line(Field::Description, q);
    assert(q.subrange(1, q.len() - 1) =~= d);
    assert(description_from_raw(q) == Ok::<Seq<char>, FormatErrorModel>(d));
    let line = field_line(Field::Description, q);
    assert(!starts_with(line, field_prefix(Field::Id)));
    assert(!starts_with(line, field_prefix(Field::Type)));
    assert(!starts_with(line, field_prefix(Field::FromUserId)));
    assert(!starts_with(line, field_prefix(Field::ToUserId)));
    assert(!starts_with(line, field_prefix(Field::Amount)));
    assert(!starts_with(line, field_prefix(Field::Timestamp)));
    assert(!starts_with(line, field_prefix(Field::Status)));
}

proof fn lemma_record_body_lines(t: TransactionModel)
    ensures
        concat_lines(record_lines(t)) == text_record_body(t),
{
    reveal_with_fuel(concat_lines, 9);
    assert(concat_lines(record_lines(t)) =~= text_record_body(t));
}

proof fn lemma_record_build(t: TransactionModel)
    ensures
        build_transaction(record_fields(t)[8]) == Ok::<TransactionModel, FormatErrorModel>(t),
        !fields_is_empty(record_fields(t)[8]),
{
}

/// The field lines of a record, read one by one, each add their field.
proof fn lemma_record_lines_read(t: TransactionModel)
    requires
        text_encodable(t),
    ensures
        forall|i: int| 0 <= i < record_lines(t).len() ==> line_adds(#[trigger] record_lines(t)[i], record_fields(t)[i], record_fields(t)[i + 1]),
        concat_lines(record_lines(t)) == text_record_body(t),
        build_transaction(record_fields(t)[8]) == Ok::<TransactionModel, FormatErrorModel>(t),
        !fields_is_empty(record_fields(t)[8]),
{
    let ls = record_lines(t);
    let fs = record_fields(t);
    lemma_number_line_read(Field::Id, t.id, fs[0]);
    assert(with_number_field(fs[0], Field::Id, t.id) == fs[1]);
    lemma_type_line_read(t.tx_type, fs[1]);
    assert(FieldsModel { tx_type: Some(t.tx_type), ..fs[1] } == fs[2]);
    lemma_number_line_read(Field::FromUserId, t.from_user_id, fs[2]);
    assert(with_number_field(fs[2], Field::FromUserId, t.from_user_id) == fs[3]);
    lemma_number_line_read(Field::ToUserId, t.to_user_id, fs[3]);
    assert(with_number_field(fs[3], Field::ToUserId, t.to_user_id) == fs[4]);
    lemma_number_line_read(Field::Amount, t.amount, fs[4]);
    assert(with_number_field(fs[4], Field::Amount, t.amount) == fs[5]);
    lemma_number_line_read(Field::Timestamp, t.timestamp, fs[5]);
    assert(with_number_field(fs[5], Field::Timestamp, t.timestamp) == fs[6]);
    lemma_status_line_read(t.tx_status, fs[6]);
    assert(FieldsModel { tx_status: Some(t.tx_status), ..fs[6] } == fs[7]);
    lemma_description_line_read(t.description, fs[7]);
    assert(FieldsModel { description: Some(t.description), ..fs[7] } == fs[8]);
    assert forall|i: int| 0 <= i < ls.len() implies line_adds(#[trigger] ls[i], fs[i], fs[i + 1]) by {
        if i == 0 {
        } else if i == 1 {
        } else if i == 2 {
        } else if i == 3 {
        } else if i == 4 {
        } else if i == 5 {
        } else if i == 6 {
        } else {
        }
    }
    lemma_record_body_lines(t);
    lemma_record_build(t);
}

proof fn lemma_blank_line(f: FieldsModel)
    ensures
        is_line(seq!['\n']),
        text_read_line(seq!['\n'], f) == Ok::<(LineKind, FieldsModel), FormatErrorModel>((LineKind::Empty, f)),
{
    reveal_with_fuel(trim_start, 2);
    assert(seq!['\n'].drop_first() =~= Seq::<char>::empty());
    assert(is_whitespace('\n'));
    assert(trim_start(seq!['\n']) =~= Seq::<char>::empty());
}

/// A blank line before any field is skipped.
proof fn lemma_skip_blank(s: Seq<u8>, p: int, rest: Seq<char>)
    requires
        0 <= p <= s.len(),
        s.subrange(p, s.len() as int) == vstd::utf8::encode_utf8(seq!['\n'] + rest),
    ensures
        p + 1 <= s.len(),
        text_read_record(s, p) == text_read_record(s, p + 1),
        s.subrange(p + 1, s.len() as int) == vstd::utf8::encode_utf8(rest),
{
    lemma_blank_line(fields_empty());
    lemma_fields_step(s, p, seq!['\n'], rest, fields_empty());
    assert(vstd::utf8::encode_utf8(seq!['\n']).len() == 1) by {
        reveal_with_fuel(vstd::utf8::encode_utf8, 2);
        assert(seq!['\n'].drop_first() =~= Seq::<char>::empty());
    }
}

/// Reading a record from its first field line on: the record, and the
/// position after it and after the blank line that opens the next one.
proof fn lemma_record_read(t: TransactionModel, s: Seq<u8>, p: int, more: Seq<TransactionModel>)
    requires
        text_encodable(t),
        0 <= p <= s.len(),
        s.subrange(p, s.len() as int) == vstd::utf8::encode_utf8(text_record_body(t) + text_records(more)),
    ensures
        text_read_record(s, p).0 == ReadOutcome::Record(t),
        p < text_read_record(s, p).1 <= s.len(),
        more.len() == 0 ==> text_read_record(s, p).1 == s.len(),
        more.len() > 0 ==> s.subrange(text_read_record(s, p).1, s.len() as int) == vstd::utf8::encode_utf8(
            text_record_body(more[0]) + text_records(more.drop_first()),
        ),
{
    let ls = record_lines(t);
    let fs = record_fields(t);
    lemma_record_lines_read(t);
    lemma_fields_lines(s, p, ls, fs, text_records(more));
    let e = p + vstd::utf8::encode_utf8(concat_lines(ls)).len();
    assert(concat_lines(ls).len() > 0) by {
        assert(concat_lines(ls) == text_record_body(t));
        assert(text_record_body(t).len() > 0);
    }
    assert(vstd::utf8::encode_utf8(concat_lines(ls)).len() > 0) by {
        vstd::utf8::encode_utf8_decode_utf8(concat_lines(ls));
        if vstd::utf8::encode_utf8(concat_lines(ls)).len() == 0 {
            assert(vstd::utf8::encode_utf8(concat_lines(ls)) =~= Seq::<u8>::empty());
            assert(vstd::utf8::decode_utf8(Seq::<u8>::empty()) =~= Seq::<char>::empty());
        }
    }
    if more.len() == 0 {
        assert(text_records(more) =~= Seq::<char>::empty());
        assert(vstd::utf8::encode_utf8(text_records(more)) =~= Seq::<u8>::empty());
        assert(s.subrange(e, s.len() as int).len() == 0);
        assert(e == s.len());
    } else {
        let next = text_record_body(more[0]) + text_records(more.drop_first());
        assert(text_records(more) =~= seq!['\n'] + next);
        lemma_blank_line(fs[8]);
        lemma_fields_step(s, e, seq!['\n'], next, fs[8]);
        assert(vstd::utf8::encode_utf8(seq!['\n']).len() == 1) by {
            reveal_with_fuel(vstd::utf8::encode_utf8, 2);
            assert(seq!['\n'].drop_first() =~= Seq::<char>::empty());
        }
    }
}

proof fn lemma_text_read_all_from(ts: Seq<TransactionModel>, s: Seq<u8>, p: int)
    requires
        forall|i: int| 0 <= i < ts.len() ==> text_encodable(#[trigger] ts[i]),
        0 <= p <= s.len(),
        ts.len() == 0 ==> p == s.len(),
        ts.len() > 0 ==> s.subrange(p, s.len() as int) == vstd::utf8::encode_utf8(
            text_record_body(ts[0]) + text_records(ts.drop_first()),
        ),
    ensures
        text_read_all(s, p) == (ts, Option::<FormatErrorModel>::None),
    decreases ts.len(),
{
    if ts.len() == 0 {
        assert(ts =~= Seq::<TransactionModel>::empty());
    } else {
        assert(text_encodable(ts[0]));
        lemma_record_read(ts[0], s, p, ts.drop_first());
        let q = text_read_record(s, p).1;
        assert forall|i: int| 0 <= i < ts.drop_first().len() implies text_encodable(#[trigger] ts.drop_first()[i]) by {
            assert(ts.drop_first()[i] == ts[i + 1]);
        }
        lemma_text_read_all_from(ts.drop_first(), s, q);
        assert(seq![ts[0]] + ts.drop_first() =~= ts);
    }
}

/// Reading back what was written: the text that a sequence of transactions
/// is written as, in UTF-8, reads back as those transactions, in order, and
/// reading ends without error; for transactions whose descriptions hold no
/// line break.
#[verifier::rlimit(60)]
pub proof fn text_write_read_roundtrip(ts: Seq<TransactionModel>)
    requires
        forall|i: int| 0 <= i < ts.len() ==> text_encodable(#[trigger] ts[i]),
    ensures
        text_read_all(vstd::utf8::encode_utf8(text_records(ts)), 0) == (ts, Option::<FormatErrorModel>::None),
{
    let s = vstd::utf8::encode_utf8(text_records(ts));
    assert(s.subrange(0, s.len() as int) =~= s);
    if ts.len() == 0 {
        assert(text_records(ts) =~= Seq::<char>::empty());
        assert(s =~= Seq::<u8>::empty());
        assert(ts =~= Seq::<TransactionModel>::empty());
    } else {
        let rest = text_record_body(ts[0]) + text_records(ts.drop_first());
        assert(text_records(ts) =~= seq!['\n'] + rest);
        lemma_skip_blank(s, 0, rest);
        assert(text_encodable(ts[0]));
        lemma_record_read(ts[0], s, 1, ts.drop_first());
        let q = text_read_record(s, 1).1;
        assert forall|i: int| 0 <= i < ts.drop_first().len() implies text_encodable(#[trigger] ts.drop_first()[i]) by {
            assert(ts.drop_first()[i] == ts[i + 1]);
        }
        lemma_text_read_all_from(ts.drop_first(), s, q);
        assert(seq![ts[0]] + ts.drop_first() =~= ts);
    }
}

proof fn lemma_text_fields_progress(s: Seq<u8>, p: int, f: FieldsModel)
    requires
        0 <= p <= s.len(),
    ensures
        p <= text_read_fields(s, p, f).1 <= s.len(),
        text_read_fields(s, p, f).0 matches Ok(g) && fields_is_empty(f) && !fields_is_empty(g)
            ==> p < text_read_fields(s, p, f).1,
    decreases s.len() - p,
{
    if p < s.len() {
        crate::text_format::lemma_line_end_bounds(s, p);
        let e = line_end(s, p);
        let bytes = s.subrange(p, e);
        if vstd::utf8::valid_utf8(bytes) {
            match text_read_line(vstd::utf8::decode_utf8(bytes), f) {
                Ok((k, g)) => {
                    if !(k == LineKind::Empty && !fields_is_empty(g)) {
                        lemma_text_fields_progress(s, e, g);
                    }
                },
                Err(_) => {},
            }
        }
    }
}

/// Reading a text record consumes at least one byte and stays within the input.
pub proof fn lemma_text_record_progress(s: Seq<u8>, p: int)
    requires
        0 <= p <= s.len(),
    ensures
        p <= text_read_record(s, p).1 <= s.len(),
        text_read_record(s, p).0 is Record ==> p < text_read_record(s, p).1,
        text_read_record(s, p).0 is Failed ==> p < s.len(),
{
    lemma_text_fields_progress(s, p, fields_empty());
}

/// Appending a record to the records written.
pub proof fn lemma_text_records_push(ts: Seq<TransactionModel>, t: TransactionModel)
    ensures
        text_records(ts.push(t)) == text_records(ts) + text_record(t),
    decreases ts.len(),
{
    if ts.len() == 0 {
        reveal_with_fuel(text_records, 2);
        assert(ts.push(t).drop_first() =~= Seq::<TransactionModel>::empty());
        assert(text_records(ts.push(t)) =~= text_record(t));
        assert(text_records(ts) =~= Seq::<char>::empty());
        assert(text_records(ts) + text_record(t) =~= text_record(t));
    } else {
        lemma_text_records_push(ts.drop_first(), t);
        assert(ts.push(t).drop_first() =~= ts.drop_first().push(t));
        assert(ts.push(t)[0] == ts[0]);
        assert(text_records(ts.push(t)) =~= text_record(ts[0]) + (text_records(ts.drop_first()) + text_record(t)));
    }
}

/// From `p` on, every line is UTF-8 and blank or a comment.
pub open spec fn only_blank_or_comment(s: Seq<u8>, p: int) -> bool
    decreases s.len() - p,
{
    if p < 0 || p >= s.len() {
        true
    } else {
        let e = line_end(s, p);
        proof {
            crate::text_format::lemma_line_end_bounds(s, p);
        }
        let bytes = s.subrange(p, e);
        &&& e > p
        &&& vstd::utf8::valid_utf8(bytes)
        &&& (trim(vstd::utf8::decode_utf8(bytes)).len() == 0 || starts_with(
            vstd::utf8::decode_utf8(bytes),
            seq!['#'],
        ))
        &&& only_blank_or_comment(s, e)
    }
}

/// A line keeps every field gathered, and a field line gathers one.
proof fn lemma_line_keeps_fields(line: Seq<char>, f: FieldsModel)
    ensures
        text_read_line(line, f) matches Ok((k, g)) ==> (fields_is_empty(g) ==> fields_is_empty(f)) && (k
            == LineKind::Field ==> !fields_is_empty(g)) && (k != LineKind::Field ==> g == f && (k
            == LineKind::Empty <==> trim(line).len() == 0)),
{
}

/// Gathering fields keeps every field gathered before.
proof fn lemma_fields_keep(s: Seq<u8>, p: int, f: FieldsModel)
    ensures
        text_read_fields(s, p, f).0 matches Ok(g) ==> (fields_is_empty(g) ==> fields_is_empty(f)),
    decreases s.len() - p,
{
    if 0 <= p < s.len() {
        let e = line_end(s, p);
        crate::text_format::lemma_line_end_bounds(s, p);
        let line = vstd::utf8::decode_utf8(s.subrange(p, e));
        lemma_line_keeps_fields(line, f);
        match text_read_line(line, f) {
            Ok((kind, g)) => {
                lemma_fields_keep(s, e, g);
            },
            Err(_) => {},
        }
    }
}

/// Gathering no field at all from `p` on consumes the whole input.
proof fn lemma_no_field_reaches_end(s: Seq<u8>, p: int, f: FieldsModel)
    requires
        0 <= p <= s.len(),
    ensures
        text_read_fields(s, p, f).0 matches Ok(g) && fields_is_empty(g) ==> text_read_fields(s, p, f).1 == s.len(),
    decreases s.len() - p,
{
    if p < s.len() {
        let e = line_end(s, p);
        crate::text_format::lemma_line_end_bounds(s, p);
        let line = vstd::utf8::decode_utf8(s.subrange(p, e));
        if vstd::utf8::valid_utf8(s.subrange(p, e)) {
            match text_read_line(line, f) {
                Ok((kind, g)) => {
                    lemma_no_field_reaches_end(s, e, g);
                },
                Err(_) => {},
            }
        }
    }
}

/// Reading the record at `p` ends the input exactly where every line left
/// is blank or a comment; it then consumes all that is left, and a read
/// after it, at the end of the input, ends the input again, so every later
/// read does too.
pub proof fn reading_ends_iff_only_blank_or_comment(s: Seq<u8>, p: int)
    requires
        0 <= p <= s.len(),
    ensures
        text_read_record(s, p).0 is End <==> only_blank_or_comment(s, p),
        text_read_record(s, p).0 is End ==> text_read_record(s, p).1 == s.len(),
        text_read_record(s, s.len() as int) == (ReadOutcome::End, s.len() as int),
    decreases s.len() - p,
{
    lemma_no_field_reaches_end(s, p, fields_empty());
    if p < s.len() {
        let e = line_end(s, p);
        crate::text_format::lemma_line_end_bounds(s, p);
        let line = vstd::utf8::decode_utf8(s.subrange(p, e));
        lemma_line_keeps_fields(line, fields_empty());
        if vstd::utf8::valid_utf8(s.subrange(p, e)) {
            match text_read_line(line, fields_empty()) {
                Ok((kind, g)) => {
                    reading_ends_iff_only_blank_or_comment(s, e);
                    lemma_fields_keep(s, e, g);
                },
                Err(_) => {},
            }
        }
    }
}

} // verus!
