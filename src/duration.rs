//! Durations written as `HH:MM:SS`.
use vstd::prelude::*;
use vstd::string::*;

use crate::text::{
    all_digits, append_pad2, chars_of, decimal, digit_char, digits_value, is_digit,
    lemma_digits_parse_ok, lemma_split_nonempty, number_error_message, number_error_text, pad2,
    parse_unsigned, split_on, split_text, unsigned_parse, unsigned_value, NumberError,
};

verus! {

/// The number of seconds that `HH:MM:SS` text stands for: three pieces
/// separated by `:`, each an unsigned integer, the total within `u64`.
pub open spec fn duration_value(s: Seq<char>) -> Option<int> {
    let parts = split_on(s, ':');
    if parts.len() != 3 {
        None
    } else {
        match (
            unsigned_value(parts[0], u64::MAX as int),
            unsigned_value(parts[1], u64::MAX as int),
            unsigned_value(parts[2], u64::MAX as int),
        ) {
            (Some(h), Some(m), Some(sec)) => {
                if h * 3600 + m * 60 + sec <= u64::MAX {
                    Some(h * 3600 + m * 60 + sec)
                } else {
                    None
                }
            },
            _ => None,
        }
    }
}

/// Why three pieces are refused: the first piece that is not a number, in
/// the way std reports it, or else a total too large for `u64`.
pub open spec fn duration_failure(parts: Seq<Seq<char>>) -> NumberError {
    match unsigned_parse(parts[0], u64::MAX as int) {
        Err(e) => e,
        Ok(_) => match unsigned_parse(parts[1], u64::MAX as int) {
            Err(e) => e,
            Ok(_) => match unsigned_parse(parts[2], u64::MAX as int) {
                Err(e) => e,
                Ok(_) => NumberError::PosOverflow,
            },
        },
    }
}

/// The error message for duration text that is not accepted.
pub open spec fn duration_error(s: Seq<char>) -> Seq<char> {
    if split_on(s, ':').len() != 3 {
        "invalid duration input"@
    } else {
        "invalid duration "@ + s + " -> "@ + number_error_text(duration_failure(split_on(s, ':')))
    }
}

/// The text of hours, minutes and seconds, each padded to two digits.
pub open spec fn hms_text(h: nat, m: nat, s: nat) -> Seq<char> {
    pad2(h) + seq![':'] + pad2(m) + seq![':'] + pad2(s)
}

/// The `HH:MM:SS` text of a number of seconds.
pub open spec fn duration_text(n: nat) -> Seq<char> {
    hms_text(n / 3600, n % 3600 / 60, n % 3600 % 60)
}

/// Reads `HH:MM:SS` text as a number of seconds.
pub fn string_to_duration(input: &str) -> (r: Result<u64, String>)
    ensures
        r is Ok <==> duration_value(input@) is Some,
        r matches Ok(v) ==> duration_value(input@) == Some(v as int),
        r matches Err(e) ==> e@ == duration_error(input@),
{
    let parts = split_text(input, ':');
    if parts.len() != 3 {
        return Err(String::from_str("invalid duration input"));
    }
    assert(parts@[0]@ == split_on(input@, ':')[0]);
    assert(parts@[1]@ == split_on(input@, ':')[1]);
    assert(parts@[2]@ == split_on(input@, ':')[2]);
    let failure = match parse_unsigned(&chars_of(parts[0].as_str()), u64::MAX) {
        Err(e) => e,
        Ok(h) => match parse_unsigned(&chars_of(parts[1].as_str()), u64::MAX) {
            Err(e) => e,
            Ok(m) => match parse_unsigned(&chars_of(parts[2].as_str()), u64::MAX) {
                Err(e) => e,
                Ok(s) => {
                    if h <= (u64::MAX - s) / 3600 && m <= (u64::MAX - s - h * 3600) / 60 {
                        assert(h * 3600 + m * 60 + s <= u64::MAX) by (nonlinear_arith)
                            requires
                                h <= (u64::MAX - s) / 3600,
                                m <= (u64::MAX - s - h * 3600) / 60,
                                s <= u64::MAX,
                        ;
                        return Ok(h * 3600 + m * 60 + s);
                    }
                    assert(h * 3600 + m * 60 + s > u64::MAX) by (nonlinear_arith)
                        requires
                            !(h <= (u64::MAX - s) / 3600 && m <= (u64::MAX - s - h * 3600) / 60),
                            s <= u64::MAX,
                            h <= u64::MAX,
                            m <= u64::MAX,
                    ;
                    NumberError::PosOverflow
                },
            },
        },
    };
    let mut e = String::from_str("invalid duration ");
    e.append(input);
    e.append(" -> ");
    e.append(number_error_message(failure).as_str());
    Err(e)
}

/// Writes a number of seconds as `HH:MM:SS`; the hours take more than two
/// digits when needed.
pub fn duration_to_string(input: u64) -> (r: String)
    ensures
        r@ == duration_text(input as nat),
{
    let hours = input / 3600;
    let minutes = input % 3600 / 60;
    let seconds = input % 3600 % 60;
    let mut out = String::new();
    append_pad2(&mut out, hours);
    out.append(":");
    append_pad2(&mut out, minutes);
    out.append(":");
    append_pad2(&mut out, seconds);
    proof {
        reveal_strlit(":");
    }
    assert(out@ =~= duration_text(input as nat));
    out
}

proof fn lemma_digit_char(d: int)
    requires
        0 <= d < 10,
    ensures
        is_digit(digit_char(d)),
        digits_value(seq![digit_char(d)]) == d,
{
    assert(seq![digit_char(d)].drop_last() =~= Seq::<char>::empty());
    assert(digits_value(Seq::<char>::empty()) == 0);
    assert(digit_char(d) as int == d + 48);
}

proof fn lemma_decimal(n: nat)
    ensures
        decimal(n).len() >= 1,
        all_digits(decimal(n)),
        digits_value(decimal(n)) == n,
    decreases n,
{
    lemma_digit_char((n % 10) as int);
    if n >= 10 {
        lemma_decimal(n / 10);
        assert(decimal(n).drop_last() =~= decimal(n / 10));
        assert(all_digits(decimal(n))) by {
            assert forall|i: int| 0 <= i < decimal(n).len() implies is_digit(
                #[trigger] decimal(n)[i],
            ) by {
                if i < decimal(n).len() - 1 {
                    assert(decimal(n)[i] == decimal(n / 10)[i]);
                }
            }
        }
    } else {
        assert(decimal(n) =~= seq![digit_char(n as int)]);
    }
}

proof fn lemma_leading_zero(x: Seq<char>)
    ensures
        digits_value(seq!['0'] + x) == digits_value(x),
    decreases x.len(),
{
    if x.len() == 0 {
        assert((seq!['0'] + x).drop_last() =~= Seq::<char>::empty());
        assert(digits_value(Seq::<char>::empty()) == 0);
        assert(x =~= Seq::<char>::empty());
    } else {
        lemma_leading_zero(x.drop_last());
        assert((seq!['0'] + x).drop_last() =~= seq!['0'] + x.drop_last());
    }
}

proof fn lemma_pad2(n: nat)
    ensures
        pad2(n).len() >= 1,
        all_digits(pad2(n)),
        digits_value(pad2(n)) == n,
        n <= u64::MAX ==> unsigned_value(pad2(n), u64::MAX as int) == Some(n as int),
{
    lemma_decimal(n);
    if n < 10 {
        lemma_leading_zero(decimal(n));
        assert(all_digits(pad2(n))) by {
            assert forall|i: int| 0 <= i < pad2(n).len() implies is_digit(#[trigger] pad2(n)[i]) by {
                if i > 0 {
                    assert(pad2(n)[i] == decimal(n)[i - 1]);
                }
            }
        }
    }
    assert(is_digit(pad2(n)[0]));
    if n <= u64::MAX {
        lemma_digits_parse_ok(pad2(n), u64::MAX as int);
    }
}

/// Appending text without the separator extends the last piece.
proof fn lemma_split_extend(pre: Seq<char>, x: Seq<char>, sep: char)
    requires
        forall|i: int| 0 <= i < x.len() ==> x[i] != sep,
    ensures
        split_on(pre + x, sep) == split_on(pre, sep).update(
            split_on(pre, sep).len() - 1,
            split_on(pre, sep).last() + x,
        ),
    decreases x.len(),
{
    lemma_split_nonempty(pre, sep);
    if x.len() == 0 {
        assert(pre + x =~= pre);
        assert(split_on(pre, sep).last() + x =~= split_on(pre, sep).last());
        assert(split_on(pre, sep).update(split_on(pre, sep).len() - 1, split_on(pre, sep).last())
            =~= split_on(pre, sep));
    } else {
        lemma_split_extend(pre, x.drop_last(), sep);
        assert((pre + x).drop_last() =~= pre + x.drop_last());
        assert(split_on(pre, sep).last() + x =~= (split_on(pre, sep).last() + x.drop_last()).push(
            x.last(),
        ));
        assert(split_on(pre + x, sep) =~= split_on(pre, sep).update(
            split_on(pre, sep).len() - 1,
            split_on(pre, sep).last() + x,
        ));
    }
}

proof fn lemma_split_three(a: Seq<char>, b: Seq<char>, c: Seq<char>)
    requires
        all_digits(a),
        all_digits(b),
        all_digits(c),
    ensures
        split_on(a + seq![':'] + b + seq![':'] + c, ':') =~= seq![a, b, c],
{
    let e = Seq::<char>::empty();
    lemma_split_extend(e, a, ':');
    assert(e + a =~= a);
    assert(split_on(e, ':') =~= seq![e]);
    assert(split_on(a, ':') =~= seq![a]);
    let a1 = a + seq![':'];
    assert(a1.drop_last() =~= a);
    assert(split_on(a1, ':') =~= seq![a, e]);
    lemma_split_extend(a1, b, ':');
    assert(split_on(a1 + b, ':') =~= seq![a, b]);
    let b1 = a1 + b + seq![':'];
    assert(b1.drop_last() =~= a1 + b);
    assert(split_on(b1, ':') =~= seq![a, b, e]);
    lemma_split_extend(b1, c, ':');
    assert(split_on(b1 + c, ':') =~= seq![a, b, c]);
    assert(a + seq![':'] + b + seq![':'] + c =~= b1 + c);
}

/// Reading `HH:MM:SS` text with minutes and seconds under 60 and writing
/// the result back gives the same text, and the value is
/// `h * 3600 + m * 60 + s`.
pub proof fn lemma_duration_text_round_trip(h: nat, m: nat, s: nat)
    requires
        m < 60,
        s < 60,
        h * 3600 + m * 60 + s <= u64::MAX,
    ensures
        duration_value(hms_text(h, m, s)) == Some((h * 3600 + m * 60 + s) as int),
        duration_text((h * 3600 + m * 60 + s) as nat) == hms_text(h, m, s),
{
    lemma_pad2(h);
    lemma_pad2(m);
    lemma_pad2(s);
    lemma_split_three(pad2(h), pad2(m), pad2(s));
    let n = h * 3600 + m * 60 + s;
    assert(n / 3600 == h && n % 3600 / 60 == m && n % 3600 % 60 == s) by (nonlinear_arith)
        requires
            n == h * 3600 + m * 60 + s,
            m < 60,
            s < 60,
    ;
}

/// Every number of seconds survives being written as `HH:MM:SS` and read
/// back.
pub proof fn lemma_duration_value_of_text(n: u64)
    ensures
        duration_value(duration_text(n as nat)) == Some(n as int),
{
    let h = (n / 3600) as nat;
    let m = (n % 3600 / 60) as nat;
    let s = (n % 3600 % 60) as nat;
    assert(h * 3600 + m * 60 + s == n) by (nonlinear_arith)
        requires
            h == n / 3600,
            m == n % 3600 / 60,
            s == n % 3600 % 60,
    ;
    lemma_duration_text_round_trip(h, m, s);
}

} // verus!
