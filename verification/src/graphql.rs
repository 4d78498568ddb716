//! What the coordinator reads of a GraphQL answer.

use crate::text::{chars_of, str_eq};
use vstd::prelude::*;
use vstd::string::*;

verus! {

/// One error of a GraphQL answer.
#[derive(Debug, Clone, PartialEq, Eq)]
pub struct GraphqlError {
    /// What the service said went wrong.
    pub message: String,
}

/// Whether an answer that carries these errors reports success: it does
/// when it carries none.
pub fn succeeded(errors: &Vec<GraphqlError>) -> (ok: bool)
    ensures
        ok == (errors@.len() == 0),
{
    errors.len() == 0
}

/// The message by which the service refuses a health check it does not
/// know.
pub open spec fn invalid_id_message() -> Seq<char> {
    "invalid healthcheck id"@
}

/// Whether the answer to a health-check response is settled: it carries no
/// error, or each of its errors says that the health check is not known,
/// which no second try would mend.
pub fn response_settled(errors: &Vec<GraphqlError>) -> (ok: bool)
    ensures
        ok == (forall|i: int|
            0 <= i < errors@.len() ==> (#[trigger] errors@[i]).message@ == invalid_id_message()),
{
    let mut i: usize = 0;
    while i < errors.len()
        invariant
            i <= errors.len(),
            forall|k: int|
                0 <= k < i ==> (#[trigger] errors@[k]).message@ == invalid_id_message(),
        decreases errors.len() - i,
    {
        if !str_eq(errors[i].message.as_str(), "invalid healthcheck id") {
            return false;
        }
        i = i + 1;
    }
    true
}

/// The characters of `healthcheck#`: what the key of a health-check item
/// begins with.
pub open spec fn healthcheck_prefix() -> Seq<char> {
    seq!['h', 'e', 'a', 'l', 't', 'h', 'c', 'h', 'e', 'c', 'k', '#']
}

/// The identifier of the health check kept under the key `key`: the key
/// without `healthcheck#` where it begins with that, else the whole key.
pub open spec fn healthcheck_id_of(key: Seq<char>) -> Seq<char> {
    let p = healthcheck_prefix();
    if key.len() >= p.len() && key.take(p.len() as int) == p {
        key.skip(p.len() as int)
    } else {
        key
    }
}

/// The identifier of the health check kept under the key `key`.
pub fn healthcheck_id(key: &str) -> (id: String)
    ensures
        id@ == healthcheck_id_of(key@),
{
    proof {
        reveal_strlit("healthcheck#");
        assert("healthcheck#"@ =~= healthcheck_prefix());
    }
    let prefix = chars_of("healthcheck#");
    let chars = chars_of(key);
    let n = chars.len();
    let m = prefix.len();
    if n < m {
        return String::from_str(key);
    }
    let mut i: usize = 0;
    while i < m
        invariant
            i <= m <= n,
            m == prefix@.len(),
            n == chars@.len(),
            chars@ == key@,
            prefix@ == healthcheck_prefix(),
            chars@.take(i as int) == prefix@.take(i as int),
        decreases m - i,
    {
        if chars[i] != prefix[i] {
            proof {
                if chars@.take(m as int) == prefix@ {
                    assert(chars@.take(m as int)[i as int] == prefix@[i as int]);
                }
            }
            return String::from_str(key);
        }
        assert(chars@.take(i + 1) =~= chars@.take(i as int).push(chars@[i as int]));
        assert(prefix@.take(i + 1) =~= prefix@.take(i as int).push(prefix@[i as int]));
        i = i + 1;
    }
    assert(prefix@.take(m as int) =~= prefix@);
    let rest = key.substring_char(m, n);
    assert(key@.subrange(m as int, n as int) =~= key@.skip(m as int));
    String::from_str(rest)
}

} // verus!
