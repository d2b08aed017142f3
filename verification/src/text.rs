//! Numbers and digests as text.

use vstd::prelude::*;

use crate::order::bytes_eq;

verus! {

/// The decimal digit `d` as a character.
pub open spec fn digit_char(d: int) -> char
    recommends
        0 <= d < 10,
{
    ('0' as int + d) as char
}

pub open spec fn is_digit(c: char) -> bool {
    '0' <= c <= '9'
}

pub open spec fn all_digits(s: Seq<char>) -> bool {
    forall|i: int| 0 <= i < s.len() ==> is_digit(#[trigger] s[i])
}

/// `n` in decimal, without leading zeros.
pub open spec fn decimal(n: nat) -> Seq<char>
    decreases n,
{
    if n < 10 {
        seq![digit_char(n as int)]
    } else {
        decimal(n / 10).push(digit_char((n % 10) as int))
    }
}

/// The number that a string of digits writes.
pub open spec fn digits_value(s: Seq<char>) -> nat
    decreases s.len(),
{
    if s.len() == 0 {
        0
    } else {
        digits_value(s.drop_last()) * 10 + (s.last() as int - '0' as int) as nat
    }
}

/// A `u64` as text: at least one digit, after an optional plus sign, and not too large.
pub open spec fn parsed_u64(s: Seq<char>) -> Option<u64> {
    let digits = if s.len() > 0 && s[0] == '+' {
        s.drop_first()
    } else {
        s
    };
    if digits.len() > 0 && all_digits(digits) && digits_value(digits) <= u64::MAX {
        Some(digits_value(digits) as u64)
    } else {
        None
    }
}

/// A digit of a hexadecimal number, in either case.
pub open spec fn is_hex_digit(c: char) -> bool {
    '0' <= c <= '9' || 'a' <= c <= 'f' || 'A' <= c <= 'F'
}

/// The hexadecimal digit `d` in lower case.
pub open spec fn hex_char(d: int) -> char
    recommends
        0 <= d < 16,
{
    if d < 10 {
        ('0' as int + d) as char
    } else {
        ('a' as int + (d - 10)) as char
    }
}

/// Two lower-case hexadecimal digits for each byte, the high one first.
pub open spec fn hex(bytes: Seq<u8>) -> Seq<char> {
    Seq::new(
        2 * bytes.len(),
        |i: int|
            if i % 2 == 0 {
                hex_char(bytes[i / 2] as int / 16)
            } else {
                hex_char(bytes[i / 2] as int % 16)
            },
    )
}

/// Decimal numbers consist of digits, and there is at least one.
pub proof fn lemma_decimal_is_digits(n: nat)
    ensures
        decimal(n).len() > 0,
        all_digits(decimal(n)),
    decreases n,
{
    if n >= 10 {
        lemma_decimal_is_digits(n / 10);
    }
}

/// A number is read back from its decimal form.
pub proof fn lemma_decimal_value(n: nat)
    ensures
        digits_value(decimal(n)) == n,
    decreases n,
{
    reveal_with_fuel(digits_value, 2);
    if n < 10 {
        assert(decimal(n).drop_last() =~= Seq::<char>::empty());
    } else {
        lemma_decimal_value(n / 10);
        assert(decimal(n).drop_last() =~= decimal(n / 10));
    }
}

/// Different numbers have different decimal forms.
pub proof fn lemma_decimal_injective(m: nat, n: nat)
    requires
        decimal(m) == decimal(n),
    ensures
        m == n,
{
    lemma_decimal_value(m);
    lemma_decimal_value(n);
}

/// Every `u64` is parsed back from its decimal form.
pub proof fn lemma_decimal_parses(n: u64)
    ensures
        parsed_u64(decimal(n as nat)) == Some(n),
{
    lemma_decimal_is_digits(n as nat);
    lemma_decimal_value(n as nat);
    assert(is_digit(decimal(n as nat)[0]));
}

/// What parses as a number is ASCII: digits after perhaps a plus sign.
pub proof fn lemma_parsed_u64_chars(s: Seq<char>)
    requires
        parsed_u64(s) is Some,
    ensures
        forall|i: int| 0 <= i < s.len() ==> is_digit(#[trigger] s[i]) || s[i] == '+',
{
    if s[0] == '+' {
        assert forall|i: int| 0 <= i < s.len() implies is_digit(#[trigger] s[i]) || s[i] == '+' by {
            if i > 0 {
                assert(s.drop_first()[i - 1] == s[i]);
            }
        }
    }
}

/// Digits count by their place: each further digit counts one, and those before it ten times as
/// much.
pub proof fn law_digits_count_by_place(s: Seq<char>, c: char)
    ensures
        digits_value(Seq::empty()) == 0,
        '0' <= c <= '9' ==> digits_value(s.push(c)) == 10 * digits_value(s) + (c as int - 48),
{
    assert(s.push(c).drop_last() =~= s);
}

/// A number is written in decimal digits that count to it, and without leading zeros.
pub proof fn law_decimal_counts_to_its_number(n: nat)
    ensures
        digits_value(decimal(n)) == n,
        decimal(n).len() > 0,
        forall|i: int| 0 <= i < decimal(n).len() ==> '0' <= #[trigger] decimal(n)[i] <= '9',
        n > 0 ==> decimal(n)[0] != '0',
        n == 0 ==> decimal(n).len() == 1,
    decreases n,
{
    lemma_decimal_value(n);
    lemma_decimal_is_digits(n);
    assert forall|i: int| 0 <= i < decimal(n).len() implies '0' <= #[trigger] decimal(n)[i]
        <= '9' by {
        assert(is_digit(decimal(n)[i]));
    }
    if n >= 10 {
        law_decimal_counts_to_its_number(n / 10);
        assert(decimal(n)[0] == decimal(n / 10)[0]);
    }
}

/// A text is the number `n` exactly when it is digits that count to `n`, at least one, perhaps
/// after a plus sign.
pub proof fn law_parsed_number_is_counted(s: Seq<char>, n: u64)
    ensures
        parsed_u64(s) == Some(n) <==> exists|d: Seq<char>|
            (s == d || s == seq!['+'] + d) && d.len() > 0 && (forall|i: int|
                0 <= i < d.len() ==> '0' <= #[trigger] d[i] <= '9') && #[trigger] digits_value(d)
                == n,
{
    if parsed_u64(s) == Some(n) {
        let d = if s.len() > 0 && s[0] == '+' {
            s.drop_first()
        } else {
            s
        };
        if s[0] == '+' {
            assert(s =~= seq!['+'] + d);
        }
        assert forall|i: int| 0 <= i < d.len() implies '0' <= #[trigger] d[i] <= '9' by {
            assert(is_digit(d[i]));
        }
        assert(digits_value(d) == n);
    }
    if exists|d: Seq<char>|
        (s == d || s == seq!['+'] + d) && d.len() > 0 && (forall|i: int|
            0 <= i < d.len() ==> '0' <= #[trigger] d[i] <= '9') && #[trigger] digits_value(d)
            == n {
        let d = choose|d: Seq<char>|
            (s == d || s == seq!['+'] + d) && d.len() > 0 && (forall|i: int|
                0 <= i < d.len() ==> '0' <= #[trigger] d[i] <= '9') && #[trigger] digits_value(d)
                == n;
        assert('0' <= d[0] <= '9');
        if s == seq!['+'] + d {
            assert(s.drop_first() =~= d);
        }
        assert(all_digits(d));
    }
}

/// Each byte is written as two of the sixteen digits, for its sixteens and its ones.
pub proof fn law_hex_writes_sixteens_and_ones(bytes: Seq<u8>, i: int)
    requires
        0 <= i < bytes.len(),
    ensures
        hex(bytes).len() == 2 * bytes.len(),
        hex(bytes)[2 * i] == "0123456789abcdef"@[bytes[i] as int / 16],
        hex(bytes)[2 * i + 1] == "0123456789abcdef"@[bytes[i] as int % 16],
{
    reveal_strlit("0123456789abcdef");
    assert((2 * i) / 2 == i && (2 * i) % 2 == 0);
    assert((2 * i + 1) / 2 == i && (2 * i + 1) % 2 == 1);
    let high = bytes[i] as int / 16;
    let low = bytes[i] as int % 16;
    assert(0 <= high < 16 && 0 <= low < 16);
}

proof fn lemma_digits_value_grows(s: Seq<char>, n: int)
    requires
        all_digits(s),
        0 <= n <= s.len(),
    ensures
        digits_value(s.take(n)) <= digits_value(s),
    decreases s.len(),
{
    if n == s.len() {
        assert(s.take(n) =~= s);
    } else {
        lemma_digits_value_grows(s.drop_last(), n);
        assert(s.drop_last().take(n) =~= s.take(n));
    }
}

/// Two strings are equal when their encodings are.
pub proof fn lemma_utf8_injective(a: Seq<char>, b: Seq<char>)
    requires
        vstd::utf8::encode_utf8(a) == vstd::utf8::encode_utf8(b),
    ensures
        a == b,
{
    vstd::utf8::encode_utf8_decode_utf8(a);
    vstd::utf8::encode_utf8_decode_utf8(b);
}

/// Where the first part has no slash, two parts with a slash between them can be told apart.
pub proof fn lemma_slash_splits(a1: Seq<char>, b1: Seq<char>, a2: Seq<char>, b2: Seq<char>)
    requires
        !a1.contains('/'),
        !a2.contains('/'),
        a1 + "/"@ + b1 == a2 + "/"@ + b2,
    ensures
        a1 == a2,
        b1 == b2,
{
    reveal_strlit("/");
    let whole = a1 + "/"@ + b1;
    assert(whole[a1.len() as int] == '/');
    assert(whole[a2.len() as int] == '/');
    if a1.len() < a2.len() {
        assert(whole[a1.len() as int] == a2[a1.len() as int]);
        assert(a2.contains(a2[a1.len() as int]));
    } else if a2.len() < a1.len() {
        assert(whole[a2.len() as int] == a1[a2.len() as int]);
        assert(a1.contains(a1[a2.len() as int]));
    }
    assert(whole.take(a1.len() as int) =~= a1);
    assert(whole.take(a2.len() as int) =~= a2);
    assert(whole.skip(a1.len() + 1int) =~= b1);
    assert(whole.skip(a2.len() + 1int) =~= b2);
}

/// Whether two strings are equal.
pub fn str_eq(a: &str, b: &str) -> (eq: bool)
    ensures
        eq == (a@ == b@),
{
    let eq = bytes_eq(a.as_bytes(), b.as_bytes());
    proof {
        if eq {
            lemma_utf8_injective(a@, b@);
        }
    }
    eq
}

/// The number that `s` writes, if it writes one: digits, perhaps after a plus sign, that fit
/// in a `u64`.
pub fn parse_u64(s: &str) -> (n: Option<u64>)
    ensures
        n == parsed_u64(s@),
{
    if !s.is_ascii() {
        proof {
            if parsed_u64(s@) is Some {
                lemma_parsed_u64_chars(s@);
                assert(vstd::utf8::is_ascii_chars(s@));
            }
        }
        return None;
    }
    let len = s.unicode_len();
    let start: usize = if len > 0 && s.get_char(0) == '+' {
        1
    } else {
        0
    };
    let ghost digits = s@.skip(start as int);
    assert(start == 1 ==> digits =~= s@.drop_first());
    assert(start == 0 ==> digits =~= s@);
    if start == len {
        return None;
    }
    let bytes = s.as_bytes();
    let mut value: u64 = 0;
    let mut i: usize = start;
    proof {
        vstd::utf8::is_ascii_chars_encode_utf8(s@);
        assert(digits.take(0) =~= Seq::<char>::empty());
    }
    while i < len
        invariant
            start == 0 || start == 1,
            start <= i <= len,
            len == s@.len(),
            bytes@.len() == len,
            vstd::utf8::is_ascii_chars(s@),
            forall|k: int| 0 <= k < len ==> #[trigger] bytes@[k] == s@[k] as u8,
            digits == s@.skip(start as int),
            start == 1 ==> s@.len() > 0 && s@[0] == '+' && digits == s@.drop_first(),
            start == 0 ==> (s@.len() > 0 ==> s@[0] != '+') && digits == s@,
            forall|k: int| 0 <= k < i - start ==> is_digit(#[trigger] digits[k]),
            value == digits_value(digits.take(i - start)),
        decreases len - i,
    {
        let b = bytes[i];
        let ghost c = s@[i as int];
        assert(c == digits[i - start]);
        assert('\0' <= c <= '\u{7f}');
        assert(b == c as u8);
        if !(48 <= b && b <= 57) {
            assert(!is_digit(c));
            assert(!all_digits(digits));
            return None;
        }
        assert(is_digit(c));
        let d: u64 = (b - 48) as u64;
        assert(digits.take(i + 1 - start).drop_last() =~= digits.take(i - start));
        assert(digits_value(digits.take(i + 1 - start)) == value * 10 + d);
        if value > 1844674407370955161 || (value == 1844674407370955161 && d > 5) {
            proof {
                if all_digits(digits) {
                    lemma_digits_value_grows(digits, i + 1 - start);
                }
            }
            return None;
        }
        value = value * 10 + d;
        i = i + 1;
    }
    assert(digits.take(len - start) =~= digits);
    Some(value)
}

/// The decimal digit `d` as a string.
fn digit_str(d: u8) -> (s: &'static str)
    requires
        d < 10,
    ensures
        s@ == seq![digit_char(d as int)],
{
    proof {
        reveal_strlit("0");
        reveal_strlit("1");
        reveal_strlit("2");
        reveal_strlit("3");
        reveal_strlit("4");
        reveal_strlit("5");
        reveal_strlit("6");
        reveal_strlit("7");
        reveal_strlit("8");
        reveal_strlit("9");
    }
    let s = match d {
        0 => "0",
        1 => "1",
        2 => "2",
        3 => "3",
        4 => "4",
        5 => "5",
        6 => "6",
        7 => "7",
        8 => "8",
        _ => "9",
    };
    assert(s@ =~= seq![digit_char(d as int)]);
    s
}

/// The hexadecimal digit `d` as a string.
fn hex_str(d: u8) -> (s: &'static str)
    requires
        d < 16,
    ensures
        s@ == seq![hex_char(d as int)],
{
    if d < 10 {
        return digit_str(d);
    }
    proof {
        reveal_strlit("a");
        reveal_strlit("b");
        reveal_strlit("c");
        reveal_strlit("d");
        reveal_strlit("e");
        reveal_strlit("f");
    }
    let s = match d {
        10 => "a",
        11 => "b",
        12 => "c",
        13 => "d",
        14 => "e",
        _ => "f",
    };
    assert(s@ =~= seq![hex_char(d as int)]);
    s
}

/// Appends `n` in decimal.
pub fn append_decimal(out: &mut String, n: u64)
    ensures
        final(out)@ == old(out)@ + decimal(n as nat),
    decreases n,
{
    let ghost before = out@;
    if n >= 10 {
        append_decimal(out, n / 10);
    }
    out.append(digit_str((n % 10) as u8));
    assert(out@ =~= before + decimal(n as nat));
}

/// `bytes` in lower-case hexadecimal.
pub fn to_hex(bytes: &[u8]) -> (s: String)
    ensures
        s@ == hex(bytes@),
{
    let mut s = String::new();
    let mut i: usize = 0;
    assert(s@ =~= hex(bytes@.take(0)));
    while i < bytes.len()
        invariant
            i <= bytes@.len(),
            s@ == hex(bytes@.take(i as int)),
        decreases bytes@.len() - i,
    {
        let b = bytes[i];
        let ghost before = s@;
        s.append(hex_str(b / 16));
        s.append(hex_str(b % 16));
        proof {
            let more = hex(bytes@.take(i + 1));
            assert(more.len() == before.len() + 2);
            assert forall|k: int| 0 <= k < more.len() implies s@[k] == #[trigger] more[k] by {
                if k < before.len() {
                    assert(before[k] == more[k]);
                } else if k == 2 * i {
                    assert(k / 2 == i && k % 2 == 0);
                } else {
                    assert(k == 2 * i + 1);
                    assert(k / 2 == i && k % 2 == 1);
                }
            }
            assert(s@ =~= more);
        }
        i = i + 1;
    }
    assert(bytes@.take(i as int) =~= bytes@);
    s
}

} // verus!
