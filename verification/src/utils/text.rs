//! String helpers: equality of string slices (std's, which vstd does not
//! specify) and concatenation.
use vstd::prelude::*;
use vstd::string::StringExecFns;

verus! {

/// `a == b` on string slices (std's `PartialEq` for `str`): true exactly when
/// the two slices hold the same characters.
#[verifier::external_body]
pub(crate) fn str_eq(a: &str, b: &str) -> (r: bool)
    ensures
        r == (a@ == b@),
{
    a == b
}

/// Builds a new string from three pieces, in order.
pub(crate) fn concat3(a: &str, b: &str, c: &str) -> (s: String)
    ensures
        s@ == a@ + b@ + c@,
{
    let mut s = a.to_owned();
    s.append(b);
    s.append(c);
    s
}

} // verus!
