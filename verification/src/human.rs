//! Rendering byte counts for humans, through the `humansize` crate.

use vstd::prelude::*;

verus! {

/// What `humansize` renders a byte count as, in binary units.
pub uninterp spec fn human_size_of(n: u64) -> Seq<char>;

/// Relies on humansize::format_size with the BINARY options: the
/// rendering depends on the byte count alone.
#[verifier::external_body]
pub(crate) fn format_size_binary(n: u64) -> (r: String)
    ensures
        r@ == human_size_of(n),
{
    humansize::format_size(n, humansize::BINARY)
}

} // verus!
