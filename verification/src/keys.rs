//! Dotted keys.

use vstd::prelude::*;

verus! {

/// `str::rsplit_once` with the pattern `"."`: the text before and after the
/// last dot, or `None` when there is no dot.
#[verifier::external_body]
fn rsplit_once_dot(s: &str) -> (r: Option<(&str, &str)>)
    ensures
        r is None <==> !s@.contains('.'),
        r matches Some((before, after)) ==> s@ == before@ + seq!['.'] + after@ && !after@.contains('.'),
{
    s.rsplit_once(".")
}

/// Splits a key at its last dot into the part before it and the part after
/// it; `None` when the key holds no dot.
pub fn split_key(key: &String) -> (r: Option<(&str, &str)>)
    ensures
        r is None <==> !key@.contains('.'),
        r matches Some((before, after)) ==> key@ == before@ + seq!['.'] + after@ && !after@.contains('.'),
{
    let result = rsplit_once_dot(key.as_str());
    result
}

} // verus!
