//! Short immutable strings, and how they are compared.

use smol_str::SmolStr;
use vstd::prelude::*;

verus! {

/// The small-string type of the `smol_str` crate.
#[verifier::external_type_specification]
#[verifier::external_body]
pub struct ExSmolStr(smol_str::SmolStr);

/// The characters that a `SmolStr` holds.
pub uninterp spec fn smol_chars(s: SmolStr) -> Seq<char>;

/// Wraps `SmolStr::new`: the new string holds the characters of `text`.
#[verifier::external_body]
pub(crate) fn smol_new(text: &str) -> (r: SmolStr)
    ensures
        smol_chars(r) == text@,
{
    SmolStr::new(text)
}

/// Wraps `SmolStr::as_str`: the slice holds the characters of the string.
#[verifier::external_body]
pub(crate) fn smol_as_str(s: &SmolStr) -> (r: &str)
    ensures
        r@ == smol_chars(*s),
{
    s.as_str()
}

/// Wraps `SmolStr::clone`: the copy holds the same characters.
#[verifier::external_body]
pub(crate) fn smol_clone(s: &SmolStr) -> (r: SmolStr)
    ensures
        smol_chars(r) == smol_chars(*s),
{
    s.clone()
}

/// Wraps `str::eq` of std: two slices are equal when they hold the same
/// characters.
#[verifier::external_body]
pub(crate) fn str_same(a: &str, b: &str) -> (r: bool)
    ensures
        r == (a@ == b@),
{
    a == b
}

/// Whether two strings hold the same characters.
pub fn smol_same(a: &SmolStr, b: &SmolStr) -> (r: bool)
    ensures
        r == (smol_chars(*a) == smol_chars(*b)),
{
    str_same(smol_as_str(a), smol_as_str(b))
}

} // verus!
