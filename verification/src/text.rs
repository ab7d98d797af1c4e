//! Small executable helpers for strings, verified against their views.

use vstd::prelude::*;

verus! {

/// Character-exact equality of two string slices.
pub fn str_eq(a: &str, b: &str) -> (r: bool)
    ensures
        r == (a@ == b@),
{
    let sa: String = a.to_owned();
    let sb: String = b.to_owned();
    sa.eq(&sb)
}

/// Concatenates two string slices into an owned string.
pub fn str_concat(a: &str, b: &str) -> (r: String)
    ensures
        r@ == a@ + b@,
{
    let sa: String = a.to_owned();
    sa.concat(b)
}

/// Concatenates three string slices into an owned string.
pub fn str_concat3(a: &str, b: &str, c: &str) -> (r: String)
    ensures
        r@ == a@ + b@ + c@,
{
    let sa: String = a.to_owned();
    sa.concat(b).concat(c)
}

} // verus!
