//! Page counts and the numeric query parameters that select a page.
use vstd::prelude::*;

use crate::text::chars_of;

verus! {

/// Integer division truncating toward zero, as Rust's `/` on signed integers.
pub open spec fn div_toward_zero(a: int, b: int) -> int {
    if a >= 0 {
        a / b
    } else {
        -((-a) / b)
    }
}

/// The number of pages of `limit` items (at least one per page) that `total` items fill.
pub open spec fn pages_of(total: int, limit: int) -> int {
    let l = if limit < 1 { 1 } else { limit };
    div_toward_zero(total + l - 1, l)
}

/// The number of pages of `limit` items (taken as at least one) that `total` items fill.
pub fn pages(total: i64, limit: i64) -> (r: i64)
    requires
        total + (if limit < 1 { 1 } else { limit }) <= i64::MAX,
    ensures
        r == pages_of(total as int, limit as int),
{
    let limit = if limit < 1 {
        1
    } else {
        limit
    };
    (total + limit - 1) / limit
}

/// Page count law: for a non-negative total, the pages hold all items and the last page
/// is not empty.
pub proof fn lemma_pages_ceiling(total: int, limit: int)
    requires
        total >= 0,
        limit >= 1,
    ensures
        pages_of(total, limit) * limit >= total,
        (pages_of(total, limit) - 1) * limit < total || total == 0,
        total == 0 ==> pages_of(total, limit) == 0,
{
    let p = pages_of(total, limit);
    assert(p == (total + limit - 1) / limit);
    vstd::arithmetic::div_mod::lemma_fundamental_div_mod(total + limit - 1, limit);
    let r = (total + limit - 1) % limit;
    assert(0 <= r < limit) by {
        vstd::arithmetic::div_mod::lemma_mod_bound(total + limit - 1, limit);
    }
    assert(p * limit == total + limit - 1 - r) by (nonlinear_arith)
        requires
            total + limit - 1 == limit * p + r,
    ;
    assert((p - 1) * limit == p * limit - limit) by (nonlinear_arith);
    if total == 0 {
        assert(p == 0) by {
            vstd::arithmetic::div_mod::lemma_basic_div(limit - 1, limit);
        }
    }
}

/// `s` consists of ASCII digits only.
pub open spec fn all_digits(s: Seq<char>) -> bool {
    forall|i: int| 0 <= i < s.len() ==> '0' <= #[trigger] s[i] <= '9'
}

/// The value of a string of decimal digits.
pub open spec fn digits_value(s: Seq<char>) -> nat
    decreases s.len(),
{
    if s.len() == 0 {
        0
    } else {
        digits_value(s.drop_last()) * 10 + ((s.last() as u32) - ('0' as u32)) as nat
    }
}

/// What `str::parse` reads for an unsigned integer type whose largest value is `max`: an
/// optional `+` then one or more ASCII digits, whose value is at most `max`.
pub open spec fn parse_unsigned_of(s: Seq<char>, max: nat) -> Option<nat> {
    let d = if s.len() > 0 && s[0] == '+' { s.drop_first() } else { s };
    if d.len() > 0 && all_digits(d) && digits_value(d) <= max {
        Some(digits_value(d))
    } else {
        None
    }
}

/// What `str::parse::<usize>` reads.
pub open spec fn parse_usize_of(s: Seq<char>) -> Option<nat> {
    parse_unsigned_of(s, usize::MAX as nat)
}

/// What `str::parse::<u64>` reads.
pub open spec fn parse_u64_of(s: Seq<char>) -> Option<nat> {
    parse_unsigned_of(s, u64::MAX as nat)
}

proof fn lemma_digits_value_grows(s: Seq<char>, i: int)
    requires
        0 <= i <= s.len(),
        all_digits(s),
    ensures
        digits_value(s.take(i)) <= digits_value(s),
    decreases s.len() - i,
{
    if i < s.len() {
        lemma_digits_value_grows(s, i + 1);
        assert(s.take(i + 1).drop_last() =~= s.take(i));
    } else {
        assert(s.take(i) =~= s);
    }
}

/// Reads a decimal integer of at most `max`, as `str::parse` does for an unsigned type.
fn parse_unsigned(s: &str, max: u64) -> (r: Option<u64>)
    ensures
        r matches Some(v) ==> parse_unsigned_of(s@, max as nat) == Some(v as nat),
        r is None ==> parse_unsigned_of(s@, max as nat) is None,
{
    let v = chars_of(s);
    let start: usize = if v.len() > 0 && v[0] == '+' {
        1
    } else {
        0
    };
    let ghost d = if s@.len() > 0 && s@[0] == '+' { s@.drop_first() } else { s@ };
    assert(d =~= v@.subrange(start as int, v@.len() as int));
    if start >= v.len() {
        return None;
    }
    let mut value: u64 = 0;
    let mut i = start;
    while i < v.len()
        invariant
            v@ == s@,
            start <= i <= v@.len(),
            d == v@.subrange(start as int, v@.len() as int),
            d == (if s@.len() > 0 && s@[0] == '+' { s@.drop_first() } else { s@ }),
            all_digits(d.take(i - start)),
            value == digits_value(d.take(i - start)),
            value <= max,
        decreases v.len() - i,
    {
        let c = v[i];
        if !('0' <= c && c <= '9') {
            assert(d[i - start] == c);
            assert(!all_digits(d));
            return None;
        }
        let digit = (c as u32 - '0' as u32) as u128;
        assert(d.take(i + 1 - start).drop_last() =~= d.take(i - start));
        assert(d.take(i + 1 - start).last() == c);
        assert(digits_value(d.take(i + 1 - start)) == value * 10 + digit);
        let next: u128 = (value as u128) * 10 + digit;
        if next > max as u128 {
            proof {
                assert(all_digits(d.take(i + 1 - start)));
                assert(all_digits(d) ==> digits_value(d.take(i + 1 - start)) <= digits_value(d)) by {
                    if all_digits(d) {
                        lemma_digits_value_grows(d, i + 1 - start);
                    }
                }
            }
            return None;
        }
        value = next as u64;
        i = i + 1;
    }
    assert(d.take(i - start) =~= d);
    Some(value)
}

/// Reads a decimal `usize` as `str::parse::<usize>` does.
pub fn parse_usize(s: &str) -> (r: Option<usize>)
    ensures
        r matches Some(v) ==> parse_usize_of(s@) == Some(v as nat),
        r is None ==> parse_usize_of(s@) is None,
{
    match parse_unsigned(s, usize::MAX as u64) {
        Some(n) => Some(n as usize),
        None => None,
    }
}

/// Reads a decimal `u64` as `str::parse::<u64>` does.
pub fn parse_u64(s: &str) -> (r: Option<u64>)
    ensures
        r matches Some(v) ==> parse_u64_of(s@) == Some(v as nat),
        r is None ==> parse_u64_of(s@) is None,
{
    parse_unsigned(s, u64::MAX)
}

/// A numeric query parameter: its value when present and readable, else `default`, and
/// never more than `max`.
pub open spec fn clamped_param_of(raw: Option<Seq<char>>, default: nat, max: nat) -> nat {
    let v = match raw {
        Some(r) => match parse_usize_of(r) {
            Some(n) => n,
            None => default,
        },
        None => default,
    };
    if v <= max { v } else { max }
}

/// Reads a numeric query parameter, falling back to `default` and capping at `max`.
pub fn clamped_param(raw: Option<&str>, default: usize, max: usize) -> (r: usize)
    ensures
        r == clamped_param_of(match raw {
            Some(s) => Some(s@),
            None => None,
        }, default as nat, max as nat),
{
    let v = match raw {
        Some(s) => match parse_usize(s) {
            Some(n) => n,
            None => default,
        },
        None => default,
    };
    if v <= max {
        v
    } else {
        max
    }
}

/// Reads a numeric query parameter, falling back to `default`.
pub fn param_or(raw: Option<&str>, default: usize) -> (r: usize)
    ensures
        r == match raw {
            Some(s) => match parse_usize_of(s@) {
                Some(n) => n,
                None => default as nat,
            },
            None => default as nat,
        },
{
    match raw {
        Some(s) => match parse_usize(s) {
            Some(n) => n,
            None => default,
        },
        None => default,
    }
}

/// The ranges `slice::chunks(size)` cuts `0..n` into: consecutive, in order, each of
/// `size` positions but the last, which holds the rest.
pub open spec fn batches_of(n: nat, size: nat) -> Seq<(usize, usize)> {
    Seq::new(
        ((n + size - 1) / (size as int)) as nat,
        |k: int| ((k * size) as usize, (if (k + 1) * size <= n { (k + 1) * size } else { n as int }) as usize),
    )
}

/// The ranges in which `n` items are handled `size` at a time.
pub fn batches(n: usize, size: usize) -> (r: Vec<(usize, usize)>)
    requires
        size >= 1,
    ensures
        r@ == batches_of(n as nat, size as nat),
{
    let mut r: Vec<(usize, usize)> = Vec::new();
    let mut start: usize = 0;
    assert(r@.len() * size == 0) by (nonlinear_arith)
        requires
            r@.len() == 0,
    ;
    while start < n
        invariant
            size >= 1,
            start <= n,
            start == (if r@.len() * size <= n { r@.len() * size } else { n as int }),
            r@.len() * size < n + size,
            forall|k: int|
                0 <= k < r@.len() ==> #[trigger] r@[k] == ((k * size) as usize, (if (k + 1) * size
                    <= n { (k + 1) * size } else { n as int }) as usize),
        decreases n - start,
    {
        let ghost len = r@.len() as int;
        assert((len + 1) * size == len * size + size) by (nonlinear_arith);
        let end = if n - start > size {
            start + size
        } else {
            n
        };
        r.push((start, end));
        start = end;
    }
    let ghost len = r@.len() as int;
    assert(len == (n + size - 1) / (size as int)) by (nonlinear_arith)
        requires
            len * size >= n,
            len * size < n + size,
            size >= 1,
    ;
    assert(r@ =~= batches_of(n as nat, size as nat));
    r
}

/// Batching law: the batches of `n` items are non-empty, hold at most `size` items each,
/// follow one another without gap or overlap, and together cover `0..n`.
pub proof fn lemma_batches_cover(n: nat, size: nat)
    requires
        size >= 1,
        n <= usize::MAX,
    ensures
        ({
            let b = batches_of(n, size);
            &&& n == 0 ==> b.len() == 0
            &&& n > 0 ==> b.len() > 0 && b[0].0 == 0 && b[b.len() - 1].1 == n
            &&& forall|k: int| 0 <= k < b.len() ==> #[trigger] b[k].0 < b[k].1 && b[k].1 - b[k].0 <= size
            &&& forall|k: int| 0 <= k < b.len() - 1 ==> #[trigger] b[k].1 == b[k + 1].0
        }),
{
    let b = batches_of(n, size);
    let len = (n + size - 1) / (size as int);
    assert(len * size >= n && (len - 1) * size < n) by (nonlinear_arith)
        requires
            len == (n + size - 1) / (size as int),
            size >= 1,
    ;
    assert forall|k: int| 0 <= k < b.len() implies #[trigger] b[k].0 < b[k].1 && b[k].1 - b[k].0 <= size by {
        assert(k * size < n) by (nonlinear_arith)
            requires
                0 <= k < len,
                (len - 1) * size < n,
                size >= 1,
        ;
        assert((k + 1) * size == k * size + size) by (nonlinear_arith);
        assert(0 <= k * size) by (nonlinear_arith)
            requires
                0 <= k,
                size >= 1,
        ;
    }
    assert forall|k: int| 0 <= k < b.len() - 1 implies #[trigger] b[k].1 == b[k + 1].0 by {
        assert((k + 1) * size <= (len - 1) * size) by (nonlinear_arith)
            requires
                k + 1 <= len - 1,
                size >= 1,
        ;
    }
    if n > 0 {
        assert(len >= 1) by (nonlinear_arith)
            requires
                len * size >= n,
                n > 0,
                size >= 1,
        ;
        assert(0 * size == 0);
        assert(len * size == (len - 1) * size + size) by (nonlinear_arith);
    } else {
        assert(len == 0) by (nonlinear_arith)
            requires
                len == (size - 1) / (size as int),
                size >= 1,
        ;
    }
}

} // verus!
