//! Text as sequences of characters: whitespace, trimming, decimal numbers.

use vstd::prelude::*;

use crate::error::IntErrorKind;

verus! {

/// The characters of each string.
pub open spec fn strings_view(v: Seq<String>) -> Seq<Seq<char>> {
    v.map_values(|s: String| s@)
}

/// Unicode's `White_Space` property, which std's `char::is_whitespace` tests.
pub open spec fn is_whitespace(c: char) -> bool {
    let x = c as u32;
    (9 <= x && x <= 13) || x == 0x20 || x == 0x85 || x == 0xA0 || x == 0x1680 || (0x2000 <= x
        && x <= 0x200A) || x == 0x2028 || x == 0x2029 || x == 0x202F || x == 0x205F || x == 0x3000
}

/// Whether `c` is white space.
pub fn char_is_whitespace(c: char) -> (r: bool)
    ensures
        r == is_whitespace(c),
{
    let x = c as u32;
    (9 <= x && x <= 13) || x == 0x20 || x == 0x85 || x == 0xA0 || x == 0x1680 || (0x2000 <= x
        && x <= 0x200A) || x == 0x2028 || x == 0x2029 || x == 0x202F || x == 0x205F || x == 0x3000
}

/// `s` without its leading white space.
pub open spec fn trim_start(s: Seq<char>) -> Seq<char>
    decreases s.len(),
{
    if s.len() > 0 && is_whitespace(s[0]) {
        trim_start(s.drop_first())
    } else {
        s
    }
}

/// `s` without its trailing white space.
pub open spec fn trim_end(s: Seq<char>) -> Seq<char>
    decreases s.len(),
{
    if s.len() > 0 && is_whitespace(s.last()) {
        trim_end(s.drop_last())
    } else {
        s
    }
}

/// `s` without leading and trailing white space (std's `str::trim`).
pub open spec fn trim(s: Seq<char>) -> Seq<char> {
    trim_end(trim_start(s))
}

/// Whether `s` begins with `prefix`.
pub open spec fn starts_with(s: Seq<char>, prefix: Seq<char>) -> bool {
    prefix.len() <= s.len() && s.subrange(0, prefix.len() as int) == prefix
}

/// The bounds of the trimmed part of `v` from `from` on.
pub fn trim_bounds(v: &[char], from: usize) -> (r: (usize, usize))
    requires
        from <= v@.len(),
    ensures
        from <= r.0 <= r.1 <= v@.len(),
        v@.subrange(r.0 as int, r.1 as int) == trim(v@.subrange(from as int, v@.len() as int)),
{
    trim_range(v, from, v.len())
}

/// The bounds of the trimmed part of `v` between `from` and `to`.
pub fn trim_range(v: &[char], from: usize, to: usize) -> (r: (usize, usize))
    requires
        from <= to <= v@.len(),
    ensures
        from <= r.0 <= r.1 <= to,
        v@.subrange(r.0 as int, r.1 as int) == trim(v@.subrange(from as int, to as int)),
{
    let n = to;
    let mut i = from;
    while i < n && char_is_whitespace(v[i])
        invariant
            from <= i <= n,
            n <= v@.len(),
            trim_start(v@.subrange(from as int, n as int)) == trim_start(v@.subrange(i as int, n as int)),
        decreases n - i,
    {
        assert(v@.subrange(i as int, n as int).drop_first() =~= v@.subrange(i + 1, n as int));
        i = i + 1;
    }
    let mut j = n;
    while j > i && char_is_whitespace(v[j - 1])
        invariant
            i <= j <= n,
            n <= v@.len(),
            trim_start(v@.subrange(from as int, n as int)) == v@.subrange(i as int, n as int),
            trim_end(v@.subrange(i as int, n as int)) == trim_end(v@.subrange(i as int, j as int)),
        decreases j - i,
    {
        assert(v@.subrange(i as int, j as int).drop_last() =~= v@.subrange(i as int, j - 1));
        j = j - 1;
    }
    (i, j)
}

/// The characters of `v` between `from` and `to`.
pub fn chars_between(v: &[char], from: usize, to: usize) -> (r: Vec<char>)
    requires
        from <= to <= v@.len(),
    ensures
        r@ == v@.subrange(from as int, to as int),
{
    let mut r: Vec<char> = Vec::new();
    let mut i = from;
    while i < to
        invariant
            from <= i <= to <= v@.len(),
            r@ == v@.subrange(from as int, i as int),
        decreases to - i,
    {
        r.push(v[i]);
        assert(r@ =~= v@.subrange(from as int, i + 1));
        i = i + 1;
    }
    r
}

/// Whether `s` begins with `prefix`.
pub fn chars_start_with(s: &[char], prefix: &[char]) -> (r: bool)
    ensures
        r == starts_with(s@, prefix@),
{
    if prefix.len() > s.len() {
        return false;
    }
    let mut i: usize = 0;
    while i < prefix.len()
        invariant
            i <= prefix@.len() <= s@.len(),
            forall|k: int| 0 <= k < i ==> s@[k] == prefix@[k],
        decreases prefix@.len() - i,
    {
        if s[i] != prefix[i] {
            assert(s@.subrange(0, prefix@.len() as int)[i as int] != prefix@[i as int]);
            return false;
        }
        i = i + 1;
    }
    assert(s@.subrange(0, prefix@.len() as int) =~= prefix@);
    true
}

/// Whether two character sequences are equal.
pub fn chars_equal(a: &[char], b: &[char]) -> (r: bool)
    ensures
        r == (a@ == b@),
{
    if a.len() != b.len() {
        return false;
    }
    let r = chars_start_with(a, b);
    assert(a@ =~= a@.subrange(0, b@.len() as int));
    r
}

/// The value of a decimal digit.
pub open spec fn digit_value(c: char) -> Option<nat> {
    let x = c as u32;
    if 48 <= x && x <= 57 {
        Some((x - 48) as nat)
    } else {
        None
    }
}

/// Reading the digits `d` left to right after the digits read so far made
/// `acc`, as std's `u64::from_str` does: a non-digit gives `InvalidDigit`, a
/// value beyond `u64::MAX` gives `PosOverflow`, whichever comes first.
pub open spec fn fold_digits(d: Seq<char>, acc: nat) -> Result<nat, IntErrorKind>
    decreases d.len(),
{
    if d.len() == 0 {
        Ok(acc)
    } else {
        match digit_value(d[0]) {
            None => Err(IntErrorKind::InvalidDigit),
            Some(x) => if acc * 10 + x > u64::MAX {
                Err(IntErrorKind::PosOverflow)
            } else {
                fold_digits(d.drop_first(), acc * 10 + x)
            },
        }
    }
}

/// A decimal `u64` as std's `u64::from_str` reads it: an optional `+`, then
/// one or more digits.
pub open spec fn parse_u64(s: Seq<char>) -> Result<u64, IntErrorKind> {
    if s.len() == 0 {
        Err(IntErrorKind::Empty)
    } else {
        let d = if s[0] == '+' {
            s.drop_first()
        } else {
            s
        };
        if d.len() == 0 {
            Err(IntErrorKind::InvalidDigit)
        } else {
            match fold_digits(d, 0) {
                Ok(v) => Ok(v as u64),
                Err(k) => Err(k),
            }
        }
    }
}

/// Reads a decimal `u64`.
pub fn parse_u64_chars(s: &[char]) -> (r: Result<u64, IntErrorKind>)
    ensures
        r == parse_u64(s@),
{
    let n = s.len();
    if n == 0 {
        return Err(IntErrorKind::Empty);
    }
    let start: usize = if s[0] == '+' {
        1
    } else {
        0
    };
    let ghost d = if s@[0] == '+' {
        s@.drop_first()
    } else {
        s@
    };
    assert(d =~= s@.subrange(start as int, n as int));
    if start == n {
        return Err(IntErrorKind::InvalidDigit);
    }
    let mut acc: u64 = 0;
    let mut i = start;
    while i < n
        invariant
            start <= i <= n,
            n == s@.len(),
            d == s@.subrange(start as int, n as int),
            n > 0,
            d == (if s@[0] == '+' {
                s@.drop_first()
            } else {
                s@
            }),
            fold_digits(d, 0) == fold_digits(s@.subrange(i as int, n as int), acc as nat),
        decreases n - i,
    {
        let c = s[i];
        assert(s@.subrange(i as int, n as int)[0] == c);
        assert(s@.subrange(i as int, n as int).drop_first() =~= s@.subrange(i + 1, n as int));
        let x = c as u32;
        if !(48 <= x && x <= 57) {
            assert(digit_value(c) is None);
            assert(fold_digits(s@.subrange(i as int, n as int), acc as nat) == Err::<nat, IntErrorKind>(IntErrorKind::InvalidDigit));
            return Err(IntErrorKind::InvalidDigit);
        }
        let digit = (x - 48) as u64;
        assert(digit_value(c) == Some(digit as nat));
        if acc > 1844674407370955161 || (acc == 1844674407370955161 && digit > 5) {
            assert(acc * 10 + digit > u64::MAX);
            assert(fold_digits(s@.subrange(i as int, n as int), acc as nat) == Err::<nat, IntErrorKind>(IntErrorKind::PosOverflow));
            return Err(IntErrorKind::PosOverflow);
        }
        acc = acc * 10 + digit;
        i = i + 1;
    }
    Ok(acc)
}

/// The character of a decimal digit.
pub open spec fn digit_char(x: nat) -> char {
    (x + 48) as char
}

/// `n` in decimal, without leading zeros.
pub open spec fn decimal(n: nat) -> Seq<char>
    decreases n,
{
    if n < 10 {
        seq![digit_char(n)]
    } else {
        decimal(n / 10) + seq![digit_char(n % 10)]
    }
}

/// Appends the decimal digits of `n`.
pub fn push_decimal(out: &mut Vec<char>, n: u64)
    ensures
        final(out)@ == old(out)@ + decimal(n as nat),
    decreases n,
{
    if n >= 10 {
        push_decimal(out, n / 10);
    }
    let d = (n % 10) as u8;
    let c = (d + 48) as char;
    assert(c == digit_char((n % 10) as nat));
    out.push(c);
    assert(out@ =~= old(out)@ + decimal(n as nat));
}

/// `n` in decimal, with a minus sign before it where it is negative.
pub open spec fn signed_decimal(n: int) -> Seq<char> {
    if n < 0 {
        seq!['-'] + decimal((-n) as nat)
    } else {
        decimal(n as nat)
    }
}

/// Appends `n` in decimal, with a minus sign where it is negative.
pub fn push_signed_decimal(out: &mut Vec<char>, n: i64)
    ensures
        final(out)@ == old(out)@ + signed_decimal(n as int),
{
    if n < 0 {
        out.push('-');
        let wide: i128 = n as i128;
        let m: u64 = (0 - wide) as u64;
        push_decimal(out, m);
        assert(out@ =~= old(out)@ + signed_decimal(n as int));
    } else {
        push_decimal(out, n as u64);
    }
}

proof fn lemma_digit_char(x: nat)
    requires
        x < 10,
    ensures
        digit_value(digit_char(x)) == Some(x),
        !is_whitespace(digit_char(x)),
        digit_char(x) != '+',
{
}

proof fn lemma_fold_digits_concat(a: Seq<char>, b: Seq<char>, acc: nat)
    ensures
        fold_digits(a + b, acc) == match fold_digits(a, acc) {
            Ok(v) => fold_digits(b, v),
            Err(e) => Err(e),
        },
    decreases a.len(),
{
    if a.len() > 0 {
        assert((a + b).drop_first() =~= a.drop_first() + b);
        assert((a + b)[0] == a[0]);
        lemma_fold_digits_concat(a.drop_first(), b, acc * 10 + digit_value(a[0])->0);
    } else {
        assert(a + b =~= b);
    }
}

proof fn lemma_fold_decimal(n: nat)
    requires
        n <= u64::MAX,
    ensures
        fold_digits(decimal(n), 0) == Ok::<nat, IntErrorKind>(n),
        decimal(n).len() > 0,
        digit_value(decimal(n)[0]) is Some,
        digit_value(decimal(n).last()) is Some,
    decreases n,
{
    reveal_with_fuel(fold_digits, 2);
    if n < 10 {
        lemma_digit_char(n);
        assert(seq![digit_char(n)].drop_first() =~= Seq::<char>::empty());
    } else {
        lemma_fold_decimal(n / 10);
        lemma_digit_char(n % 10);
        lemma_fold_digits_concat(decimal(n / 10), seq![digit_char(n % 10)], 0);
        assert(seq![digit_char(n % 10)].drop_first() =~= Seq::<char>::empty());
        assert(decimal(n)[0] == decimal(n / 10)[0]);
    }
}

/// A number's decimal form holds digits only.
pub proof fn lemma_decimal_digits(n: nat)
    ensures
        forall|i: int| 0 <= i < decimal(n).len() ==> #[trigger] digit_value(decimal(n)[i]) is Some,
    decreases n,
{
    if n >= 10 {
        lemma_decimal_digits(n / 10);
        lemma_digit_char(n % 10);
        let a = decimal(n / 10);
        assert forall|i: int| 0 <= i < decimal(n).len() implies #[trigger] digit_value(decimal(n)[i]) is Some by {
            if i < a.len() {
                assert(decimal(n)[i] == a[i]);
            }
        }
    } else {
        lemma_digit_char(n);
    }
}

/// Reading a number's decimal digits gives the number back.
pub proof fn lemma_parse_decimal(n: u64)
    ensures
        parse_u64(decimal(n as nat)) == Ok::<u64, IntErrorKind>(n),
        decimal(n as nat).len() > 0,
        !is_whitespace(decimal(n as nat)[0]),
        !is_whitespace(decimal(n as nat).last()),
{
    lemma_fold_decimal(n as nat);
}

/// The characters of `s`.
pub fn str_chars(s: &str) -> (v: Vec<char>)
    ensures
        v@ == s@,
{
    let mut v: Vec<char> = Vec::new();
    for c in it: s.chars()
        invariant
            v@ == it.seq().take(it.index() as int),
    {
        v.push(c);
    }
    v
}

/// Appends the characters of `s`.
pub fn push_str_chars(out: &mut Vec<char>, s: &str)
    ensures
        final(out)@ == old(out)@ + s@,
{
    let ghost start = out@;
    for c in it: s.chars()
        invariant
            out@ == start + it.seq().take(it.index() as int),
    {
        out.push(c);
    }
}

/// The string of the characters `v` (std's `FromIterator<char>` for `String`).
#[verifier::external_body]
pub(crate) fn string_from_chars(v: &[char]) -> (s: String)
    ensures
        s@ == v@,
{
    v.iter().collect()
}


/// `a` comes before `b` in the order of strings: at the first place where
/// they differ, `a` has the smaller character, or `a` ends there and `b`
/// goes on.
pub open spec fn chars_less(a: Seq<char>, b: Seq<char>) -> bool
    decreases a.len(),
{
    if a.len() == 0 {
        b.len() > 0
    } else if b.len() == 0 {
        false
    } else if a[0] != b[0] {
        a[0] < b[0]
    } else {
        chars_less(a.drop_first(), b.drop_first())
    }
}

/// Of two different strings, one comes before the other.
pub proof fn lemma_chars_less_total(a: Seq<char>, b: Seq<char>)
    requires
        a != b,
    ensures
        chars_less(a, b) || chars_less(b, a),
    decreases a.len(),
{
    if a.len() > 0 && b.len() > 0 && a[0] == b[0] {
        if a.drop_first() == b.drop_first() {
            assert(a =~= seq![a[0]] + a.drop_first());
            assert(b =~= seq![b[0]] + b.drop_first());
        }
        lemma_chars_less_total(a.drop_first(), b.drop_first());
    } else if a.len() == 0 && b.len() == 0 {
        assert(a =~= b);
    } else if a.len() > 0 && b.len() > 0 {
        assert(a[0] != b[0]);
    }
}

/// The order of strings is transitive.
pub proof fn lemma_chars_less_transitive(a: Seq<char>, b: Seq<char>, c: Seq<char>)
    requires
        chars_less(a, b),
        chars_less(b, c),
    ensures
        chars_less(a, c),
    decreases a.len(),
{
    if a.len() > 0 && b.len() > 0 && c.len() > 0 && a[0] == b[0] && b[0] == c[0] {
        lemma_chars_less_transitive(a.drop_first(), b.drop_first(), c.drop_first());
    }
}

/// No string comes before itself.
pub proof fn lemma_chars_less_irreflexive(a: Seq<char>)
    ensures
        !chars_less(a, a),
    decreases a.len(),
{
    if a.len() > 0 {
        lemma_chars_less_irreflexive(a.drop_first());
    }
}

/// Whether `a` comes before `b` in the order of strings.
pub fn chars_before(a: &[char], b: &[char]) -> (r: bool)
    ensures
        r == chars_less(a@, b@),
{
    let mut i: usize = 0;
    assert(a@.skip(0) =~= a@);
    assert(b@.skip(0) =~= b@);
    while i < a.len() && i < b.len() && a[i] == b[i]
        invariant
            i <= a@.len(),
            i <= b@.len(),
            chars_less(a@, b@) == chars_less(a@.skip(i as int), b@.skip(i as int)),
        decreases a@.len() - i,
    {
        assert(a@.skip(i as int).drop_first() =~= a@.skip(i + 1));
        assert(b@.skip(i as int).drop_first() =~= b@.skip(i + 1));
        assert(a@.skip(i as int)[0] == a@[i as int]);
        assert(b@.skip(i as int)[0] == b@[i as int]);
        i = i + 1;
    }
    let ghost sa = a@.skip(i as int);
    let ghost sb = b@.skip(i as int);
    if i == a.len() {
        assert(sa.len() == 0);
        i < b.len()
    } else if i == b.len() {
        assert(sb.len() == 0);
        false
    } else {
        assert(sa[0] == a@[i as int] && sb[0] == b@[i as int]);
        a[i] < b[i]
    }
}

/// Whether `a` comes before `b` in the order of strings (std's `<` on `String`).
pub fn string_before(a: &String, b: &String) -> (r: bool)
    ensures
        r == chars_less(a@, b@),
{
    let ca = str_chars(a.as_str());
    let cb = str_chars(b.as_str());
    chars_before(ca.as_slice(), cb.as_slice())
}


/// How a signed number is written: one that is not negative as digits
/// alone, with no sign, that read back as the number; a negative one as a
/// minus sign followed by digits that read back as its magnitude.
pub proof fn signed_decimal_reads_back(n: i64)
    ensures
        n >= 0 ==> signed_decimal(n as int).len() > 0 && (forall|i: int|
            0 <= i < signed_decimal(n as int).len() ==> #[trigger] digit_value(signed_decimal(n as int)[i]) is Some)
            && parse_u64(signed_decimal(n as int)) == Ok::<u64, IntErrorKind>(n as u64),
        n < 0 ==> signed_decimal(n as int).len() > 1 && signed_decimal(n as int)[0] == '-' && parse_u64(
            signed_decimal(n as int).drop_first(),
        ) == Ok::<u64, IntErrorKind>((-(n as int)) as u64),
{
    if n >= 0 {
        lemma_decimal_digits(n as nat);
        lemma_parse_decimal(n as u64);
    } else {
        let m: u64 = (-(n as int)) as u64;
        lemma_parse_decimal(m);
        assert((seq!['-'] + decimal(m as nat)).drop_first() =~= decimal(m as nat));
    }
}

} // verus!
