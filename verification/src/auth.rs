use vstd::prelude::*;

verus! {

/// Whether a request's token is worth looking up: only once the storage is
/// unsealed, and only when the request carries one. Otherwise the request
/// is unauthenticated.
pub fn token_lookup_needed(unsealed: bool, has_token: bool) -> (r: bool)
    ensures
        r == (unsealed && has_token),
{
    unsealed && has_token
}

/// Whether the token's policies authorize the request. `namespaces[i]` is
/// the namespace of the `i`-th policy and `verdicts[i]` whether that policy,
/// its paths anchored at its namespace, allows the request. Only policies of
/// the namespace of the first one count; a token without policies is
/// refused.
pub fn authorized_by(namespaces: &Vec<String>, verdicts: &Vec<bool>) -> (r: bool)
    requires
        namespaces@.len() == verdicts@.len(),
    ensures
        r == (namespaces@.len() > 0 && exists|i: int|
            0 <= i < namespaces@.len() && (#[trigger] namespaces@[i])@ == namespaces@[0]@
                && verdicts@[i]),
{
    if namespaces.len() == 0 {
        return false;
    }
    let mut i: usize = 0;
    while i < namespaces.len()
        invariant
            0 < namespaces@.len() == verdicts@.len(),
            i <= namespaces@.len(),
            forall|j: int|
                0 <= j < i ==> !((#[trigger] namespaces@[j])@ == namespaces@[0]@ && verdicts@[j]),
        decreases namespaces@.len() - i,
    {
        if namespaces[i] == namespaces[0] && verdicts[i] {
            return true;
        }
        i = i + 1;
    }
    false
}

} // verus!
