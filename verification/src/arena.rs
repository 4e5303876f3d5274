//! The arena in which parsed log lines keep their strings and list cells.

use vstd::prelude::*;

verus! {

/// The arena type of `bumpalo`.
#[verifier::external_type_specification]
#[verifier::external_body]
pub struct ExBump<const MIN_ALIGN: usize>(bumpalo::Bump<MIN_ALIGN>);

/// Calls `bumpalo::Bump::alloc_str`, which copies `s` into the arena and hands
/// back the copy: the copy holds the characters of `s`.
/// (Like any allocation, the call aborts the process when memory runs out.)
#[verifier::external_body]
pub(crate) fn bump_alloc_str<'b>(bump: &'b bumpalo::Bump, s: &str) -> (r: &'b str)
    ensures
        r@ == s@,
{
    bump.alloc_str(s)
}

/// Calls `bumpalo::Bump::alloc`, which moves `v` into the arena and hands back
/// a reference to it: the referenced value is `v`.
/// (Like any allocation, the call aborts the process when memory runs out.)
#[verifier::external_body]
pub(crate) fn bump_alloc<'b, T>(bump: &'b bumpalo::Bump, v: T) -> (r: &'b T)
    ensures
        *r == v,
{
    bump.alloc(v)
}

} // verus!
