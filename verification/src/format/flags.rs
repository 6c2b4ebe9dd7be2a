//! Optional behaviour recorded in a header.

use vstd::prelude::*;

verus! {

/// Chunks are padded to a fixed size to blunt size analysis.
pub const PADDED_CHUNKS: u32 = 1;

/// The master key is wrapped under a split release key, not under a
/// password-derived key.
///
/// This lies in the authenticated part of the header on purpose. Deleting the
/// split bundle cannot bring password-only opening back, because the wrapped
/// key would not unwrap, and the flag turns that into an accurate message.
pub const SPLIT_PROTECTED: u32 = 2;

/// Whether a split bundle is needed.
pub open spec fn is_split(flags: u32) -> bool {
    flags & SPLIT_PROTECTED != 0
}

/// Without flags no split bundle is needed.
pub proof fn lemma_no_flags()
    ensures
        !is_split(0),
{
    assert(0u32 & 2u32 == 0) by (bit_vector);
}

/// Setting the split flag sets it, and leaves the other flags alone.
pub proof fn lemma_set_split(flags: u32)
    ensures
        is_split(flags | SPLIT_PROTECTED),
        (flags | SPLIT_PROTECTED) & PADDED_CHUNKS == flags & PADDED_CHUNKS,
{
    assert((flags | 2) & 2 != 0) by (bit_vector);
    assert((flags | 2) & 1 == flags & 1) by (bit_vector);
}

} // verus!
