//! Bearer-token authorisation of API requests.
use vstd::prelude::*;

use crate::text::{lemma_utf8_injective, strip_prefix, utf8};

verus! {

/// Compares two strings byte by byte without stopping at the first difference.
pub fn constant_time_eq(a: &str, b: &str) -> (r: bool)
    ensures
        r == (a@ == b@),
{
    let ab = a.as_bytes();
    let bb = b.as_bytes();
    if ab.len() != bb.len() {
        return false;
    }
    let mut acc: u8 = 0;
    let n = ab.len();
    for i in 0..n
        invariant
            n == ab@.len(),
            n == bb@.len(),
            (acc == 0) <==> (forall|k: int| 0 <= k < i ==> ab@[k] == bb@[k]),
    {
        let x = ab[i];
        let y = bb[i];
        let next = acc | (x ^ y);
        assert((next == 0) <==> (acc == 0 && x == y)) by (bit_vector)
            requires
                next == acc | (x ^ y),
        ;
        acc = next;
    }
    proof {
        if acc == 0 {
            assert(ab@ =~= bb@);
            lemma_utf8_injective(a@, b@);
        }
    }
    acc == 0
}

/// A request is let through when a token is configured and the `Authorization` header is
/// exactly `"Bearer "` followed by that token.
pub open spec fn bearer_accepts(expected: Seq<char>, authorization: Option<Seq<char>>) -> bool {
    expected.len() > 0 && authorization is Some && authorization->0 == "Bearer "@ + expected
}

/// Whether a request that carries the given `Authorization` header value (if any) may pass,
/// given the configured token (empty when none is configured).
pub fn bearer_allowed(expected: &str, authorization: Option<&str>) -> (r: bool)
    ensures
        r == bearer_accepts(expected@, match authorization {
            Some(h) => Some(h@),
            None => None,
        }),
{
    let provided = match authorization {
        Some(h) => match strip_prefix(h, "Bearer ") {
            Some(rest) => rest,
            None => String::new(),
        },
        None => String::new(),
    };
    proof {
        if let Some(h) = authorization {
            if h@ == "Bearer "@ + expected@ {
                assert(h@.take("Bearer "@.len() as int) =~= "Bearer "@);
            }
            if crate::text::starts_with(h@, "Bearer "@) && provided@ == expected@ {
                assert(h@ =~= "Bearer "@ + expected@);
            }
            if h@ == "Bearer "@ + provided@ {
                assert(provided@ =~= h@.subrange("Bearer "@.len() as int, h@.len() as int));
            }
        }
    }
    if expected.unicode_len() == 0 {
        return false;
    }
    let ok = constant_time_eq(provided.as_str(), expected);
    proof {
        if let Some(h) = authorization {
            if h@ == "Bearer "@ + expected@ {
                assert(provided@ =~= h@.subrange("Bearer "@.len() as int, h@.len() as int));
                assert(expected@ =~= h@.subrange("Bearer "@.len() as int, h@.len() as int));
            }
        }
    }
    ok
}

} // verus!
