//! Reading the bearer token of an API request.
use vstd::prelude::*;
use crate::text::{has_prefix, opt_str_view, opt_view, starts_with, substring};

verus! {

/// The token of an `Authorization` header value of the form `Bearer <token>`.
pub open spec fn bearer_token_of(header: Option<Seq<char>>) -> Option<Seq<char>> {
    match header {
        Some(h) => if has_prefix(h, "Bearer "@) {
            Some(h.skip(7))
        } else {
            None
        },
        None => None,
    }
}

/// The token put after `Bearer ` is the token read back.
pub proof fn lemma_bearer_round_trip(token: Seq<char>)
    ensures
        bearer_token_of(Some("Bearer "@ + token)) == Some(token),
{
    reveal_strlit("Bearer ");
    assert(("Bearer "@ + token).take(7) =~= "Bearer "@);
    assert(("Bearer "@ + token).skip(7) =~= token);
}

/// The token that an `Authorization` header value carries after `Bearer `;
/// `None` without a header or without that prefix.
pub fn bearer_token(header: Option<&str>) -> (t: Option<String>)
    ensures
        opt_view(t) == bearer_token_of(opt_str_view(header)),
{
    proof {
        reveal_strlit("Bearer ");
    }
    match header {
        Some(h) => {
            if starts_with(h, "Bearer ") {
                let n = h.unicode_len();
                Some(substring(h, 7, n))
            } else {
                None
            }
        },
        None => None,
    }
}

} // verus!
