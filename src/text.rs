//! Character-level helpers: splitting on a separator, decimal numbers.
use vstd::prelude::*;
use vstd::string::*;

verus! {

/// Whether `c` is an ASCII decimal digit.
pub open spec fn is_digit(c: char) -> bool {
    '0' <= c && c <= '9'
}

/// The value of an ASCII decimal digit.
pub open spec fn digit_value(c: char) -> int {
    c as int - '0' as int
}

/// The value of a sequence of decimal digits (most significant first).
pub open spec fn digits_value(s: Seq<char>) -> int
    decreases s.len(),
{
    if s.len() == 0 {
        0
    } else {
        digits_value(s.drop_last()) * 10 + digit_value(s.last())
    }
}

/// Whether every character of `s` is a decimal digit.
pub open spec fn all_digits(s: Seq<char>) -> bool {
    forall|i: int| 0 <= i < s.len() ==> is_digit(#[trigger] s[i])
}

/// Why std's `FromStr` for an unsigned integer refuses text.
#[derive(Debug, Clone, Copy, PartialEq, Eq, Structural)]
pub enum NumberError {
    Empty,
    InvalidDigit,
    PosOverflow,
}

/// The message std's `ParseIntError` shows for each reason.
pub open spec fn number_error_text(e: NumberError) -> Seq<char> {
    match e {
        NumberError::Empty => "cannot parse integer from empty string"@,
        NumberError::InvalidDigit => "invalid digit found in string"@,
        NumberError::PosOverflow => "number too large to fit in target type"@,
    }
}

/// The message for a refused number.
pub fn number_error_message(e: NumberError) -> (r: String)
    ensures
        r@ == number_error_text(e),
{
    match e {
        NumberError::Empty => String::from_str("cannot parse integer from empty string"),
        NumberError::InvalidDigit => String::from_str("invalid digit found in string"),
        NumberError::PosOverflow => String::from_str("number too large to fit in target type"),
    }
}

/// Reads digits left to right as std does: the first character that is not
/// a digit, or the first digit that takes the value past `max`, decides the
/// error.
pub open spec fn digits_parse(d: Seq<char>, max: int) -> Result<int, NumberError>
    decreases d.len(),
{
    if d.len() == 0 {
        Ok(0)
    } else {
        match digits_parse(d.drop_last(), max) {
            Err(e) => Err(e),
            Ok(v) => if !is_digit(d.last()) {
                Err(NumberError::InvalidDigit)
            } else if v * 10 + digit_value(d.last()) > max {
                Err(NumberError::PosOverflow)
            } else {
                Ok(v * 10 + digit_value(d.last()))
            },
        }
    }
}

/// How std's `FromStr` for an unsigned integer of at most `max` reads `s`:
/// empty text is refused, a lone sign is an invalid digit, a leading `+` is
/// dropped, and the rest must be digits.
pub open spec fn unsigned_parse(s: Seq<char>, max: int) -> Result<int, NumberError> {
    if s.len() == 0 {
        Err(NumberError::Empty)
    } else if s.len() == 1 && (s[0] == '+' || s[0] == '-') {
        Err(NumberError::InvalidDigit)
    } else if s[0] == '+' {
        digits_parse(s.drop_first(), max)
    } else {
        digits_parse(s, max)
    }
}

/// The value of `s` as an unsigned integer of at most `max`, if it is one.
pub open spec fn unsigned_value(s: Seq<char>, max: int) -> Option<int> {
    match unsigned_parse(s, max) {
        Ok(v) => Some(v),
        Err(_) => None,
    }
}

/// Once a prefix is refused, so is the whole, for the same reason.
pub proof fn lemma_digits_parse_err(d: Seq<char>, k: int, max: int)
    requires
        0 <= k <= d.len(),
        digits_parse(d.subrange(0, k), max) is Err,
    ensures
        digits_parse(d, max) == digits_parse(d.subrange(0, k), max),
    decreases d.len(),
{
    if k == d.len() {
        assert(d.subrange(0, k) =~= d);
    } else {
        assert(d.drop_last().subrange(0, k) =~= d.subrange(0, k));
        lemma_digits_parse_err(d.drop_last(), k, max);
    }
}

/// Digits whose value is at most `max` read as that value.
pub proof fn lemma_digits_parse_ok(d: Seq<char>, max: int)
    requires
        all_digits(d),
        digits_value(d) <= max,
    ensures
        digits_parse(d, max) == Ok::<int, NumberError>(digits_value(d)),
    decreases d.len(),
{
    if d.len() > 0 {
        assert(all_digits(d.drop_last()));
        lemma_prefix_value_le(d, d.len() - 1);
        assert(d.subrange(0, d.len() - 1) =~= d.drop_last());
        lemma_digits_parse_ok(d.drop_last(), max);
        assert(is_digit(d[d.len() - 1]));
    }
}

/// A longer run of digits has at least the value of its prefix.
pub proof fn lemma_prefix_value_le(s: Seq<char>, k: int)
    requires
        0 <= k <= s.len(),
        all_digits(s),
    ensures
        digits_value(s.subrange(0, k)) <= digits_value(s),
        0 <= digits_value(s),
    decreases s.len(),
{
    if s.len() > 0 {
        assert(all_digits(s.drop_last()));
        if k == s.len() {
            assert(s.subrange(0, k) =~= s);
            lemma_prefix_value_le(s.drop_last(), 0);
        } else {
            assert(s.drop_last().subrange(0, k) =~= s.subrange(0, k));
            lemma_prefix_value_le(s.drop_last(), k);
        }
        assert(is_digit(s[s.len() - 1]));
    } else {
        assert(s.subrange(0, k) =~= s);
    }
}

/// Reads an unsigned integer of at most `max` from `s`.
pub fn parse_unsigned(s: &Vec<char>, max: u64) -> (r: Result<u64, NumberError>)
    ensures
        r matches Ok(v) ==> unsigned_parse(s@, max as int) == Ok::<int, NumberError>(v as int),
        r matches Err(e) ==> unsigned_parse(s@, max as int) == Err::<int, NumberError>(e),
{
    if s.len() == 0 {
        return Err(NumberError::Empty);
    }
    if s.len() == 1 && (s[0] == '+' || s[0] == '-') {
        return Err(NumberError::InvalidDigit);
    }
    let start: usize = if s[0] == '+' {
        1
    } else {
        0
    };
    let ghost digits = s@.subrange(start as int, s@.len() as int);
    assert(digits =~= if s@[0] == '+' {
        s@.drop_first()
    } else {
        s@
    });
    let mut value: u64 = 0;
    let mut i: usize = start;
    assert(digits.subrange(0, 0) =~= Seq::<char>::empty());
    while i < s.len()
        invariant
            start <= i <= s.len(),
            s@.len() > 0,
            digits == s@.subrange(start as int, s@.len() as int),
            unsigned_parse(s@, max as int) == digits_parse(digits, max as int),
            digits_parse(digits.subrange(0, i - start), max as int) == Ok::<int, NumberError>(
                value as int,
            ),
            value <= max,
        decreases s.len() - i,
    {
        let c = s[i];
        let ghost prefix = digits.subrange(0, i - start);
        let ghost next = digits.subrange(0, i + 1 - start);
        assert(next.drop_last() =~= prefix);
        assert(next.last() == c);
        if !('0' <= c && c <= '9') {
            proof {
                lemma_digits_parse_err(digits, i + 1 - start, max as int);
            }
            return Err(NumberError::InvalidDigit);
        }
        let d = (c as u64) - ('0' as u64);
        if value > max / 10 || d > max - value * 10 {
            assert(value * 10 + d > max) by (nonlinear_arith)
                requires
                    value > max / 10 || d > max - value * 10,
            ;
            proof {
                lemma_digits_parse_err(digits, i + 1 - start, max as int);
            }
            return Err(NumberError::PosOverflow);
        }
        value = value * 10 + d;
        i = i + 1;
    }
    assert(digits.subrange(0, i - start) =~= digits);
    Ok(value)
}

/// The pieces of `s` between occurrences of `sep`, as `str::split` with a
/// `char` pattern gives them: always at least one piece, empty ones kept.
pub open spec fn split_on(s: Seq<char>, sep: char) -> Seq<Seq<char>>
    decreases s.len(),
{
    if s.len() == 0 {
        seq![Seq::empty()]
    } else {
        let init = split_on(s.drop_last(), sep);
        if s.last() == sep {
            init.push(Seq::empty())
        } else {
            init.update(init.len() - 1, init.last().push(s.last()))
        }
    }
}

/// `split_on` never yields an empty list of pieces.
pub proof fn lemma_split_nonempty(s: Seq<char>, sep: char)
    ensures
        split_on(s, sep).len() >= 1,
    decreases s.len(),
{
    if s.len() > 0 {
        lemma_split_nonempty(s.drop_last(), sep);
    }
}

/// The characters of a string slice.
pub fn chars_of(s: &str) -> (r: Vec<char>)
    ensures
        r@ == s@,
{
    let n = s.unicode_len();
    let mut out: Vec<char> = Vec::new();
    let mut i: usize = 0;
    while i < n
        invariant
            n == s@.len(),
            i <= n,
            out@ == s@.subrange(0, i as int),
        decreases n - i,
    {
        out.push(s.get_char(i));
        i = i + 1;
        assert(out@ =~= s@.subrange(0, i as int));
    }
    assert(out@ =~= s@);
    out
}

/// The texts of a list of strings.
pub open spec fn texts(v: Seq<String>) -> Seq<Seq<char>> {
    v.map_values(|s: String| s@)
}

/// Splits `s` at each occurrence of `sep`.
pub fn split_text(s: &str, sep: char) -> (r: Vec<String>)
    ensures
        texts(r@) == split_on(s@, sep),
{
    let chars = chars_of(s);
    let n = chars.len();
    let mut out: Vec<String> = Vec::new();
    let mut start: usize = 0;
    let mut i: usize = 0;
    assert(s@.subrange(0, 0) =~= Seq::<char>::empty());
    assert(texts(out@) + seq![s@.subrange(0, 0)] =~= split_on(s@.subrange(0, 0), sep));
    while i < n
        invariant
            n == s@.len(),
            chars@ == s@,
            start <= i <= n,
            texts(out@) + seq![s@.subrange(start as int, i as int)] == split_on(
                s@.subrange(0, i as int),
                sep,
            ),
        decreases n - i,
    {
        let ghost before = split_on(s@.subrange(0, i as int), sep);
        let ghost next = s@.subrange(0, i as int + 1);
        assert(next.drop_last() =~= s@.subrange(0, i as int));
        assert(next.last() == chars@[i as int]);
        proof {
            lemma_split_nonempty(s@.subrange(0, i as int), sep);
        }
        if chars[i] == sep {
            out.push(String::from_str(s.substring_char(start, i)));
            start = i + 1;
            assert(texts(out@) =~= before);
            assert(split_on(next, sep) == before.push(Seq::empty()));
            assert(s@.subrange(start as int, start as int) =~= Seq::<char>::empty());
        } else {
            assert(split_on(next, sep) == before.update(
                before.len() - 1,
                before.last().push(chars@[i as int]),
            ));
            assert(s@.subrange(start as int, i as int + 1) =~= s@.subrange(start as int, i as int).push(
                chars@[i as int],
            ));
            assert(texts(out@) =~= before.drop_last());
        }
        i = i + 1;
        assert(texts(out@) + seq![s@.subrange(start as int, i as int)] =~= split_on(
            s@.subrange(0, i as int),
            sep,
        ));
    }
    let ghost before = split_on(s@.subrange(0, n as int), sep);
    out.push(String::from_str(s.substring_char(start, n)));
    assert(s@.subrange(0, n as int) =~= s@);
    assert(texts(out@) =~= before);
    out
}

/// The character of a decimal digit.
pub open spec fn digit_char(d: int) -> char {
    ((d + 48) as u8) as char
}

/// The decimal text of `n`, without leading zeros.
pub open spec fn decimal(n: nat) -> Seq<char>
    decreases n,
{
    if n < 10 {
        seq![digit_char(n as int)]
    } else {
        decimal(n / 10).push(digit_char((n % 10) as int))
    }
}

/// The decimal text of `n`, with a leading zero when `n` has one digit.
pub open spec fn pad2(n: nat) -> Seq<char> {
    if n < 10 {
        seq!['0'].add(decimal(n))
    } else {
        decimal(n)
    }
}

fn digit_str(d: u64) -> (r: &'static str)
    requires
        d < 10,
    ensures
        r@ == seq![digit_char(d as int)],
{
    proof {
        reveal_strlit("0");
        reveal_strlit("1");
        reveal_strlit("2");
        reveal_strlit("3");
        reveal_strlit("4");
        reveal_strlit("5");
        reveal_strlit("6");
        reveal_strlit("7");
        reveal_strlit("8");
        reveal_strlit("9");
    }
    let r = match d {
        0 => "0",
        1 => "1",
        2 => "2",
        3 => "3",
        4 => "4",
        5 => "5",
        6 => "6",
        7 => "7",
        8 => "8",
        _ => "9",
    };
    assert(r@ =~= seq![digit_char(d as int)]);
    r
}

/// Appends the decimal text of `n` to `out`.
pub fn append_decimal(out: &mut String, n: u64)
    ensures
        final(out)@ == old(out)@ + decimal(n as nat),
    decreases n,
{
    if n >= 10 {
        append_decimal(out, n / 10);
    }
    out.append(digit_str(n % 10));
    assert(final(out)@ =~= old(out)@ + decimal(n as nat)) by {
        if n >= 10 {
            assert(decimal(n as nat) == decimal((n / 10) as nat).push(digit_char((n % 10) as int)));
        }
    }
}

/// Appends the decimal text of `n`, padded to two digits, to `out`.
pub fn append_pad2(out: &mut String, n: u64)
    ensures
        final(out)@ == old(out)@ + pad2(n as nat),
{
    if n < 10 {
        proof {
            reveal_strlit("0");
        }
        out.append("0");
    }
    append_decimal(out, n);
    assert(final(out)@ =~= old(out)@ + pad2(n as nat));
}

} // verus!
