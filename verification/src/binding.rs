//! What each ciphertext is bound to: the additional data of manifests, chunks
//! and duress wrappings.

use crate::le::{put16, put32, put64, put_bytes};
use crate::suite::{CompressSuite, VaultId};
use vstd::prelude::*;
use vstd::string::*;

verus! {

broadcast use crate::le::group_le;

/// What begins the additional data of a manifest.
pub open spec fn manifest_label() -> Seq<u8> {
    "apex-zerotrace:manifest:v2".spec_bytes()
}

/// What begins the additional data of a duress wrapping.
pub open spec fn decoy_label() -> Seq<u8> {
    "apex-zerotrace:decoy-wrap:v1".spec_bytes()
}

/// The additional data of a manifest.
pub open spec fn manifest_binding(vault_id: Seq<u8>, len: u64, generation: u64) -> Seq<u8> {
    manifest_label() + vault_id + crate::le::le64(len) + crate::le::le64(generation)
}

/// The additional data of a chunk.
pub open spec fn chunk_binding(
    object_id: Seq<u8>,
    index: u64,
    plaintext_len: u32,
    suite: CompressSuite,
) -> Seq<u8> {
    object_id + crate::le::le64(index) + crate::le::le32(plaintext_len) + crate::le::le16(
        suite.code,
    )
}

/// The additional data of a duress wrapping.
pub open spec fn decoy_binding(vault_id: Seq<u8>) -> Seq<u8> {
    decoy_label() + vault_id
}

/// Binds a manifest to its vault, its length, and which write it is.
///
/// The generation is what stops an older manifest being put back: without it
/// an earlier copy spliced in would open onto the older list of files.
pub fn manifest_aad(vault_id: &VaultId, len: u64, generation: u64) -> (r: Vec<u8>)
    ensures
        r@ == manifest_binding(vault_id@, len, generation),
{
    let mut aad: Vec<u8> = Vec::new();
    put_bytes(&mut aad, "apex-zerotrace:manifest:v2".as_bytes());
    put_bytes(&mut aad, vault_id.as_bytes().as_slice());
    put64(&mut aad, len);
    put64(&mut aad, generation);
    assert(aad@ =~= manifest_binding(vault_id@, len, generation));
    aad
}

/// Binds a chunk to its file and its place. The index stops chunks being
/// reordered, and the object id stops a chunk being moved between files.
pub fn chunk_aad(object_id: &[u8; 16], index: u64, plaintext_len: u32, suite: CompressSuite) -> (r:
    Vec<u8>)
    ensures
        r@ == chunk_binding(object_id@, index, plaintext_len, suite),
{
    let mut aad: Vec<u8> = Vec::new();
    put_bytes(&mut aad, object_id.as_slice());
    put64(&mut aad, index);
    put32(&mut aad, plaintext_len);
    put16(&mut aad, suite.code);
    assert(aad@ =~= chunk_binding(object_id@, index, plaintext_len, suite));
    aad
}

/// Binds a duress wrapping to its container.
///
/// Deliberately does not cover the header prefix the real key commits to: the
/// decoy must survive the real wrapped key being overwritten.
pub fn decoy_aad(vault_id: &VaultId) -> (r: Vec<u8>)
    ensures
        r@ == decoy_binding(vault_id@),
{
    let mut aad: Vec<u8> = Vec::new();
    put_bytes(&mut aad, "apex-zerotrace:decoy-wrap:v1".as_bytes());
    put_bytes(&mut aad, vault_id.as_bytes().as_slice());
    assert(aad@ =~= decoy_binding(vault_id@));
    aad
}

/// A manifest opens only as the manifest of its own vault, at its own length
/// and in its own generation: no two of these share their additional data.
pub proof fn law_manifest_binding_is_unique(
    id_a: Seq<u8>,
    len_a: u64,
    gen_a: u64,
    id_b: Seq<u8>,
    len_b: u64,
    gen_b: u64,
)
    requires
        id_a.len() == 16,
        id_b.len() == 16,
        manifest_binding(id_a, len_a, gen_a) == manifest_binding(id_b, len_b, gen_b),
    ensures
        id_a == id_b,
        len_a == len_b,
        gen_a == gen_b,
{
    let n = manifest_label().len() as int;
    let a = manifest_binding(id_a, len_a, gen_a);
    let b = manifest_binding(id_b, len_b, gen_b);
    assert(a.subrange(n, n + 16) =~= id_a);
    assert(b.subrange(n, n + 16) =~= id_b);
    assert(a.subrange(n + 16, n + 24) =~= crate::le::le64(len_a));
    assert(b.subrange(n + 16, n + 24) =~= crate::le::le64(len_b));
    assert(a.subrange(n + 24, n + 32) =~= crate::le::le64(gen_a));
    assert(b.subrange(n + 24, n + 32) =~= crate::le::le64(gen_b));
}

/// A chunk opens only in its own file, at its own index, at its own length and
/// under its own compression.
pub proof fn law_chunk_binding_is_unique(
    id_a: Seq<u8>,
    index_a: u64,
    len_a: u32,
    suite_a: CompressSuite,
    id_b: Seq<u8>,
    index_b: u64,
    len_b: u32,
    suite_b: CompressSuite,
)
    requires
        id_a.len() == 16,
        id_b.len() == 16,
        chunk_binding(id_a, index_a, len_a, suite_a) == chunk_binding(
            id_b,
            index_b,
            len_b,
            suite_b,
        ),
    ensures
        id_a == id_b,
        index_a == index_b,
        len_a == len_b,
        suite_a == suite_b,
{
    let a = chunk_binding(id_a, index_a, len_a, suite_a);
    let b = chunk_binding(id_b, index_b, len_b, suite_b);
    assert(a.subrange(0, 16) =~= id_a);
    assert(b.subrange(0, 16) =~= id_b);
    assert(a.subrange(16, 24) =~= crate::le::le64(index_a));
    assert(b.subrange(16, 24) =~= crate::le::le64(index_b));
    assert(a.subrange(24, 28) =~= crate::le::le32(len_a));
    assert(b.subrange(24, 28) =~= crate::le::le32(len_b));
    assert(a.subrange(28, 30) =~= crate::le::le16(suite_a.code));
    assert(b.subrange(28, 30) =~= crate::le::le16(suite_b.code));
}

/// A duress wrapping opens only in its own container.
pub proof fn law_decoy_binding_is_unique(id_a: Seq<u8>, id_b: Seq<u8>)
    requires
        decoy_binding(id_a) == decoy_binding(id_b),
    ensures
        id_a == id_b,
{
    let n = decoy_label().len() as int;
    assert(decoy_binding(id_a).skip(n) =~= id_a);
    assert(decoy_binding(id_b).skip(n) =~= id_b);
}

/// Manifests, chunks and duress wrappings never share additional data, and
/// none of them shares it with a wrapped master key: the lengths differ.
pub proof fn law_bindings_are_apart(
    vault_id: Seq<u8>,
    len: u64,
    generation: u64,
    object_id: Seq<u8>,
    index: u64,
    plaintext_len: u32,
    suite: CompressSuite,
    h: crate::format::HeaderView,
)
    requires
        vault_id.len() == 16,
        object_id.len() == 16,
        h.wf(),
    ensures
        chunk_binding(object_id, index, plaintext_len, suite).len() == 30,
        decoy_binding(vault_id).len() == 44,
        manifest_binding(vault_id, len, generation).len() == 58,
        h.aad().len() == 80 || h.aad().len() == 136,
{
    reveal_strlit("apex-zerotrace:manifest:v2");
    reveal_strlit("apex-zerotrace:decoy-wrap:v1");
    vstd::utf8::is_ascii_chars_encode_utf8("apex-zerotrace:manifest:v2"@);
    vstd::utf8::is_ascii_chars_encode_utf8("apex-zerotrace:decoy-wrap:v1"@);
    crate::format::law_aad_length(h);
}

} // verus!
