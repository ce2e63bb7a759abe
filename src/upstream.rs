//! The upstream's addresses and the parameters of incoming requests.

use crate::text::chars_of;
use vstd::prelude::*;

verus! {

/// The page that is visited first so that the upstream recomputes its
/// reports.
pub fn refresh_url(base: &str) -> (r: String)
    ensures
        r@ == base@ + "/income_statement/"@,
{
    let mut r = String::from_str(base);
    r.append("/income_statement/");
    r
}

/// The upstream's query endpoint; the query goes in its `query_string`
/// parameter.
pub fn query_result_url(base: &str) -> (r: String)
    ensures
        r@ == base@ + "/api/query_result"@,
{
    let mut r = String::from_str(base);
    r.append("/api/query_result");
    r
}

/// The statement page of an account.
pub fn account_url(base: &str, account: &str) -> (r: String)
    ensures
        r@ == base@ + "/account/"@ + account@,
{
    let mut r = String::from_str(base);
    r.append("/account/");
    r.append(account);
    r
}

/// What an optional boolean parameter means: absent or empty is unset,
/// `true` and `false` are themselves, and anything else is an error.
pub open spec fn flag_spec(raw: Option<Seq<char>>) -> Option<Option<bool>> {
    match raw {
        None => Some(None),
        Some(s) => if s.len() == 0 {
            Some(None)
        } else if s == seq!['t', 'r', 'u', 'e'] {
            Some(Some(true))
        } else if s == seq!['f', 'a', 'l', 's', 'e'] {
            Some(Some(false))
        } else {
            None
        },
    }
}

fn same_chars(a: &Vec<char>, b: &Vec<char>) -> (r: bool)
    ensures
        r == (a@ == b@),
{
    if a.len() != b.len() {
        return false;
    }
    let mut i: usize = 0;
    while i < a.len()
        invariant
            a@.len() == b@.len(),
            i <= a@.len(),
            forall|k: int| 0 <= k < i ==> a@[k] == b@[k],
        decreases a@.len() - i,
    {
        if a[i] != b[i] {
            return false;
        }
        i = i + 1;
    }
    assert(a@ =~= b@);
    true
}

/// Reads an optional boolean parameter; the error is the message of a
/// value that is neither `true` nor `false`.
pub fn parse_flag(raw: Option<&str>) -> (r: Result<Option<bool>, String>)
    ensures
        r is Ok <==> flag_spec(match raw {
            Some(s) => Some(s@),
            None => None,
        }) is Some,
        r is Ok ==> r->Ok_0 == flag_spec(match raw {
            Some(s) => Some(s@),
            None => None,
        })->0,
{
    match raw {
        None => Ok(None),
        Some(s) => {
            let c = chars_of(s);
            if c.len() == 0 {
                Ok(None)
            } else if same_chars(&c, &vec!['t', 'r', 'u', 'e']) {
                Ok(Some(true))
            } else if same_chars(&c, &vec!['f', 'a', 'l', 's', 'e']) {
                Ok(Some(false))
            } else {
                Err(String::from_str("provided string was not `true` or `false`"))
            }
        },
    }
}

} // verus!
