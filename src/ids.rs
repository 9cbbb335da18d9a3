//! ID-set expressions such as `0-3,5,7`.
use vstd::prelude::*;
use vstd::string::*;

use crate::text::{
    chars_of, number_error_message, number_error_text, parse_unsigned, split_on, split_text, texts,
    unsigned_parse,
};

verus! {

/// The inclusive bounds that one comma-separated token stands for, a
/// single index `n` or a range `a-b`, or why the token is refused: a range
/// without exactly one `-`, or a number as std's `FromStr` refuses it.
pub open spec fn token_result(t: Seq<char>) -> Result<(int, int), Seq<char>> {
    if t.contains('-') {
        let parts = split_on(t, '-');
        if parts.len() != 2 {
            Err("invalid range "@ + t)
        } else {
            match unsigned_parse(parts[0], usize::MAX as int) {
                Err(e) => Err(number_error_text(e)),
                Ok(lo) => match unsigned_parse(parts[1], usize::MAX as int) {
                    Err(e) => Err(number_error_text(e)),
                    Ok(hi) => Ok((lo, hi)),
                },
            }
        }
    } else {
        match unsigned_parse(t, usize::MAX as int) {
            Err(e) => Err(number_error_text(e)),
            Ok(v) => Ok((v, v)),
        }
    }
}

/// The bounds of a token, when it is well formed.
pub open spec fn token_bounds(t: Seq<char>) -> Option<(int, int)> {
    match token_result(t) {
        Ok(b) => Some(b),
        Err(_) => None,
    }
}

/// Why the first malformed token is refused, if one is.
pub open spec fn tokens_error(tokens: Seq<Seq<char>>) -> Option<Seq<char>>
    decreases tokens.len(),
{
    if tokens.len() == 0 {
        None
    } else {
        match tokens_error(tokens.drop_last()) {
            Some(e) => Some(e),
            None => match token_result(tokens.last()) {
                Err(e) => Some(e),
                Ok(_) => None,
            },
        }
    }
}

/// Why an ID-set expression is refused, if it is.
pub open spec fn expression_error(s: Seq<char>) -> Option<Seq<char>> {
    tokens_error(split_on(s, ','))
}

/// The bounds of every token, or `None` when one of them is malformed.
pub open spec fn tokens_bounds(tokens: Seq<Seq<char>>) -> Option<Seq<(int, int)>>
    decreases tokens.len(),
{
    if tokens.len() == 0 {
        Some(Seq::empty())
    } else {
        match (tokens_bounds(tokens.drop_last()), token_bounds(tokens.last())) {
            (Some(rs), Some(r)) => Some(rs.push(r)),
            _ => None,
        }
    }
}

/// The bounds that an ID-set expression stands for.
pub open spec fn expression_bounds(s: Seq<char>) -> Option<Seq<(int, int)>> {
    tokens_bounds(split_on(s, ','))
}

/// Whether `x` lies in one of the inclusive ranges.
pub open spec fn in_ranges(rs: Seq<(int, int)>, x: int) -> bool {
    exists|k: int| 0 <= k < rs.len() && (#[trigger] rs[k]).0 <= x && x <= rs[k].1
}

/// Whether the indices are strictly ascending.
pub open spec fn strictly_ascending(v: Seq<usize>) -> bool {
    forall|i: int, j: int| 0 <= i < j < v.len() ==> v[i] < v[j]
}

proof fn lemma_tokens_error(tokens: Seq<Seq<char>>, k: int, n: int)
    requires
        0 <= k < n <= tokens.len(),
        forall|j: int| 0 <= j < k ==> token_bounds(#[trigger] tokens[j]) is Some,
        token_result(tokens[k]) is Err,
    ensures
        tokens_error(tokens.subrange(0, n)) == Some(token_result(tokens[k])->Err_0),
    decreases n,
{
    assert(tokens.subrange(0, n).drop_last() =~= tokens.subrange(0, n - 1));
    if k < n - 1 {
        lemma_tokens_error(tokens, k, n - 1);
    } else {
        lemma_tokens_fine(tokens, k);
    }
}

proof fn lemma_tokens_fine(tokens: Seq<Seq<char>>, n: int)
    requires
        0 <= n <= tokens.len(),
        forall|j: int| 0 <= j < n ==> token_bounds(#[trigger] tokens[j]) is Some,
    ensures
        tokens_error(tokens.subrange(0, n)) is None,
    decreases n,
{
    if n > 0 {
        assert(tokens.subrange(0, n).drop_last() =~= tokens.subrange(0, n - 1));
        lemma_tokens_fine(tokens, n - 1);
    }
}

proof fn lemma_tokens_bounds_prefix(tokens: Seq<Seq<char>>, n: int)
    requires
        0 <= n <= tokens.len(),
        forall|j: int| 0 <= j < n ==> token_bounds(#[trigger] tokens[j]) is Some,
    ensures
        tokens_bounds(tokens.subrange(0, n)) is Some,
        tokens_bounds(tokens.subrange(0, n))->Some_0.len() == n,
        forall|j: int|
            0 <= j < n ==> tokens_bounds(tokens.subrange(0, n))->Some_0[j] == token_bounds(
                #[trigger] tokens[j],
            )->Some_0,
    decreases n,
{
    if n > 0 {
        lemma_tokens_bounds_prefix(tokens, n - 1);
        assert(tokens.subrange(0, n).drop_last() =~= tokens.subrange(0, n - 1));
    }
}

proof fn lemma_tokens_bounds_bad(tokens: Seq<Seq<char>>, k: int, n: int)
    requires
        0 <= k < n <= tokens.len(),
        token_bounds(tokens[k]) is None,
    ensures
        tokens_bounds(tokens.subrange(0, n)) is None,
    decreases n,
{
    assert(tokens.subrange(0, n).drop_last() =~= tokens.subrange(0, n - 1));
    if k < n - 1 {
        lemma_tokens_bounds_bad(tokens, k, n - 1);
    }
}

/// Adds `x` to a strictly ascending list of indices, unless it is there.
fn insert_sorted(v: &mut Vec<usize>, x: usize)
    requires
        strictly_ascending(old(v)@),
    ensures
        strictly_ascending(final(v)@),
        forall|y: usize| final(v)@.contains(y) <==> (old(v)@.contains(y) || y == x),
{
    let n = v.len();
    if n == 0 || v[n - 1] < x {
        v.push(x);
        assert forall|y: usize| final(v)@.contains(y) <==> (old(v)@.contains(y) || y == x) by {
            if final(v)@.contains(y) {
                let i = choose|i: int| 0 <= i < final(v)@.len() && final(v)@[i] == y;
                if i < n {
                    assert(old(v)@[i] == y);
                }
            }
            if old(v)@.contains(y) {
                let i = choose|i: int| 0 <= i < old(v)@.len() && old(v)@[i] == y;
                assert(final(v)@[i] == y);
            }
            if y == x {
                assert(final(v)@[n as int] == y);
            }
        }
        return;
    }
    let mut p: usize = 0;
    while v[p] < x
        invariant
            n == v.len(),
            v@ == old(v)@,
            p < n,
            v[n - 1] >= x,
            forall|i: int| 0 <= i < p ==> v@[i] < x,
        decreases n - p,
    {
        p = p + 1;
    }
    if v[p] == x {
        return;
    }
    v.insert(p, x);
    assert(strictly_ascending(final(v)@)) by {
        assert forall|i: int, j: int| 0 <= i < j < final(v)@.len() implies final(v)@[i]
            < final(v)@[j] by {
            if j < p {
            } else if j == p {
            } else if i < p {
                assert(old(v)@[i] < old(v)@[p as int]);
            } else if i == p {
                assert(old(v)@[p as int] <= old(v)@[j - 1]);
            }
        }
    }
    assert forall|y: usize| final(v)@.contains(y) <==> (old(v)@.contains(y) || y == x) by {
        if final(v)@.contains(y) {
            let i = choose|i: int| 0 <= i < final(v)@.len() && final(v)@[i] == y;
            if i < p {
                assert(old(v)@[i] == y);
            } else if i > p {
                assert(old(v)@[i - 1] == y);
            }
        }
        if old(v)@.contains(y) {
            let i = choose|i: int| 0 <= i < old(v)@.len() && old(v)@[i] == y;
            if i < p {
                assert(final(v)@[i] == y);
            } else {
                assert(final(v)@[i + 1] == y);
            }
        }
        if y == x {
            assert(final(v)@[p as int] == y);
        }
    }
}

/// Whether `c` occurs in `t`.
fn contains_char(t: &Vec<char>, c: char) -> (r: bool)
    ensures
        r == t@.contains(c),
{
    let mut i: usize = 0;
    while i < t.len()
        invariant
            i <= t.len(),
            forall|j: int| 0 <= j < i ==> t@[j] != c,
        decreases t.len() - i,
    {
        if t[i] == c {
            assert(t@[i as int] == c);
            return true;
        }
        i = i + 1;
    }
    false
}

/// Reads the bounds of one token.
fn token_range(t: &str) -> (r: Result<(usize, usize), String>)
    ensures
        r matches Ok(b) ==> token_result(t@) == Ok::<(int, int), Seq<char>>((b.0 as int, b.1 as int)),
        r matches Err(e) ==> token_result(t@) == Err::<(int, int), Seq<char>>(e@),
{
    let chars = chars_of(t);
    if contains_char(&chars, '-') {
        let parts = split_text(t, '-');
        if parts.len() != 2 {
            let mut e = String::from_str("invalid range ");
            e.append(t);
            return Err(e);
        }
        assert(parts@[0]@ == split_on(t@, '-')[0]);
        assert(parts@[1]@ == split_on(t@, '-')[1]);
        match parse_unsigned(&chars_of(parts[0].as_str()), usize::MAX as u64) {
            Err(e) => Err(number_error_message(e)),
            Ok(lo) => match parse_unsigned(&chars_of(parts[1].as_str()), usize::MAX as u64) {
                Err(e) => Err(number_error_message(e)),
                Ok(hi) => Ok((lo as usize, hi as usize)),
            },
        }
    } else {
        match parse_unsigned(&chars, usize::MAX as u64) {
            Err(e) => Err(number_error_message(e)),
            Ok(v) => Ok((v as usize, v as usize)),
        }
    }
}

/// Adds every index of `lo..=hi` to a strictly ascending list.
fn insert_range(v: &mut Vec<usize>, lo: usize, hi: usize)
    requires
        strictly_ascending(old(v)@),
    ensures
        strictly_ascending(final(v)@),
        forall|y: usize| final(v)@.contains(y) <==> (old(v)@.contains(y) || (lo <= y && y <= hi)),
{
    if lo > hi {
        return;
    }
    let mut x: usize = lo;
    while x < hi
        invariant
            lo <= x <= hi,
            strictly_ascending(v@),
            forall|y: usize| v@.contains(y) <==> (old(v)@.contains(y) || (lo <= y && y < x)),
        decreases hi - x,
    {
        insert_sorted(v, x);
        x = x + 1;
    }
    insert_sorted(v, hi);
}

/// Expands an ID-set expression (comma-separated indices and inclusive
/// `a-b` ranges) into the indices it names, ascending and without repeats.
pub fn parse_range(input: &str) -> (r: Result<Vec<usize>, String>)
    ensures
        r is Ok <==> expression_bounds(input@) is Some,
        r is Ok <==> expression_error(input@) is None,
        r matches Ok(v) ==> strictly_ascending(v@),
        r matches Ok(v) ==> forall|x: usize|
            v@.contains(x) <==> in_ranges(expression_bounds(input@)->Some_0, x as int),
        r matches Err(e) ==> expression_error(input@) == Some(e@),
{
    let tokens = split_text(input, ',');
    let ghost ts = split_on(input@, ',');
    let mut out: Vec<usize> = Vec::new();
    let mut k: usize = 0;
    while k < tokens.len()
        invariant
            k <= tokens.len(),
            tokens@.len() == ts.len(),
            ts == split_on(input@, ','),
            texts(tokens@) == ts,
            forall|j: int| 0 <= j < k ==> token_bounds(#[trigger] ts[j]) is Some,
            strictly_ascending(out@),
            forall|y: usize|
                out@.contains(y) <==> exists|j: int|
                    0 <= j < k && token_bounds(#[trigger] ts[j])->Some_0.0 <= y
                        && y <= token_bounds(ts[j])->Some_0.1,
        decreases tokens.len() - k,
    {
        assert(tokens@[k as int]@ == ts[k as int]);
        match token_range(tokens[k].as_str()) {
            Ok((lo, hi)) => {
                let ghost before = out@;
                insert_range(&mut out, lo, hi);
                assert forall|y: usize|
                    out@.contains(y) <==> exists|j: int|
                        0 <= j < k + 1 && token_bounds(#[trigger] ts[j])->Some_0.0 <= y
                            && y <= token_bounds(ts[j])->Some_0.1 by {
                    if before.contains(y) {
                        let j = choose|j: int|
                            0 <= j < k && token_bounds(#[trigger] ts[j])->Some_0.0 <= y
                                && y <= token_bounds(ts[j])->Some_0.1;
                    }
                    if lo <= y && y <= hi {
                        assert(token_bounds(ts[k as int]) == Some((lo as int, hi as int)));
                    }
                }
            },
            Err(e) => {
                proof {
                    lemma_tokens_bounds_bad(ts, k as int, ts.len() as int);
                    lemma_tokens_error(ts, k as int, ts.len() as int);
                    assert(ts.subrange(0, ts.len() as int) =~= ts);
                }
                return Err(e);
            },
        }
        k = k + 1;
    }
    proof {
        lemma_tokens_fine(ts, ts.len() as int);
        lemma_tokens_bounds_prefix(ts, ts.len() as int);
        assert(ts.subrange(0, ts.len() as int) =~= ts);
        let rs = expression_bounds(input@)->Some_0;
        assert forall|x: usize| out@.contains(x) <==> in_ranges(rs, x as int) by {
            if out@.contains(x) {
                let j = choose|j: int|
                    0 <= j < k && token_bounds(#[trigger] ts[j])->Some_0.0 <= x
                        && x <= token_bounds(ts[j])->Some_0.1;
                assert(rs[j] == token_bounds(ts[j])->Some_0);
            }
            if in_ranges(rs, x as int) {
                let j = choose|j: int| 0 <= j < rs.len() && (#[trigger] rs[j]).0 <= x && x <= rs[j].1;
                assert(rs[j] == token_bounds(ts[j])->Some_0);
            }
        }
    }
    Ok(out)
}

} // verus!
