//! Decoding process names that the OS reports as UTF-16.
use vstd::prelude::*;
use vstd::string::*;

verus! {

/// The text that UTF-16 code units decode to, or `None` when they hold a
/// lone surrogate. A unit outside `0xD800..=0xDFFF` is one character; a high
/// surrogate (`0xD800..=0xDBFF`) followed by a low one (`0xDC00..=0xDFFF`)
/// is one character above `0xFFFF`; any other surrogate is an error.
pub open spec fn utf16_text(u: Seq<u16>) -> Option<Seq<char>>
    decreases u.len(),
{
    if u.len() == 0 {
        Some(Seq::empty())
    } else if u[0] < 0xD800 || u[0] > 0xDFFF {
        match utf16_text(u.drop_first()) {
            Some(rest) => Some(seq![(u[0] as u32) as char] + rest),
            None => None,
        }
    } else if u[0] <= 0xDBFF && u.len() >= 2 && 0xDC00 <= u[1] && u[1] <= 0xDFFF {
        let c = ((0x10000 + (u[0] - 0xD800) * 0x400 + (u[1] - 0xDC00)) as u32) as char;
        match utf16_text(u.subrange(2, u.len() as int)) {
            Some(rest) => Some(seq![c] + rest),
            None => None,
        }
    } else {
        None
    }
}

/// Relies on std's `String::from_utf16`: it decodes UTF-16 and refuses
/// units that hold a lone surrogate.
#[verifier::external_body]
fn decode_utf16(units: &[u16]) -> (r: Option<String>)
    ensures
        r matches Some(s) ==> utf16_text(units@) == Some(s@),
        r is None ==> utf16_text(units@) is None,
{
    String::from_utf16(units).ok()
}

/// The code units before the first zero, or all of them when none is zero.
pub open spec fn until_nul(units: Seq<u16>) -> Seq<u16> {
    if exists|i: int| 0 <= i < units.len() && units[i] == 0 {
        let p = choose|p: int|
            0 <= p < units.len() && units[p] == 0 && forall|j: int| 0 <= j < p ==> units[j] != 0;
        units.subrange(0, p)
    } else {
        units
    }
}

/// Decodes a fixed-size UTF-16 buffer up to its first zero.
pub fn from_utf16_until_nul_byte(input: &[u16]) -> (r: Result<String, String>)
    ensures
        r is Ok <==> utf16_text(until_nul(input@)) is Some,
        r matches Ok(s) ==> utf16_text(until_nul(input@)) == Some(s@),
        r matches Err(e) ==> e@ == "invalid utf-16: lone surrogate found"@,
{
    let mut prefix: Vec<u16> = Vec::new();
    let mut i: usize = 0;
    while i < input.len() && input[i] != 0
        invariant
            i <= input@.len(),
            prefix@ == input@.subrange(0, i as int),
            forall|j: int| 0 <= j < i ==> input@[j] != 0,
        decreases input@.len() - i,
    {
        prefix.push(input[i]);
        i = i + 1;
        assert(prefix@ =~= input@.subrange(0, i as int));
    }
    proof {
        if i < input@.len() {
            let p = choose|p: int|
                0 <= p < input@.len() && input@[p] == 0 && forall|j: int| 0 <= j < p ==> input@[j] != 0;
            assert(p == i) by {
                if p < i {
                } else if p > i {
                }
            }
        } else {
            assert(input@.subrange(0, i as int) =~= input@);
        }
    }
    match decode_utf16(prefix.as_slice()) {
        Some(s) => Ok(s),
        None => Err(String::from_str("invalid utf-16: lone surrogate found")),
    }
}

} // verus!
