//! What is asked of the keys and ciphers: everything that is sealed is sealed
//! under what it will be opened under.

use crate::error::ErrorView;
use crate::format::HeaderView;
use crate::container::OpView;
use crate::suite::{CompressSuite, FactorSet};
use crate::vault::chunk::{ChunkPhase, ChunkReaderView, ChunkReplyView, ChunkStepView};
use crate::vault::create::CreatingView;
use crate::vault::duress::{DuressPlan, FoldingView};
use crate::vault::export::ExportView;
use crate::vault::import::ImportView;
use crate::vault::open::{AskView, OpenerView, PhaseView, ReplyView, StepView};
use crate::vault::{Identity, VaultView};
use vstd::prelude::*;

verus! {

/// The key of a new vault is derived from the vault's own salt, at its own
/// costs and with its own factors, and wraps the master key under the vault's
/// own nonce and its authenticated bytes; the authenticator is asked exactly if
/// one is required. Opening the vault asks for the same.
pub proof fn law_new_key_is_wrapped_as_it_is_opened<K>(c: CreatingView, o: OpenerView<K>, kek: K)
    ensures
        ({
            let h = c.header;
            let q = c.wrap_seal();
            &&& q.suite == h.crypto_suite
            &&& q.nonce == h.master_key_nonce.take(h.crypto_suite.nonce_len as int)
            &&& q.aad == h.aad()
            &&& o.ask_unwrap(h, kek)->Ask_1 == (AskView::Unwrap {
                kek,
                suite: q.suite,
                nonce: q.nonce,
                wrapped: h.wrapped_master_key,
                aad: q.aad,
            })
            &&& c.kek_basis() == (h.kdf_salt, h.kdf_params, h.auth)
            &&& o.ask_kek(h)->Ask_1 == (AskView::<K>::Kek {
                salt: c.kek_basis().0,
                params: c.kek_basis().1,
                auth: Some(c.kek_basis().2),
            })
            &&& h.auth.required.hardware ==> c.hardware_basis() == Some(
                (h.auth.credential_hint, h.auth.prf_salt),
            )
            &&& !h.auth.required.hardware ==> c.hardware_basis() is None
        }),
{
}

impl<K> VaultView<K> {
    /// A manifest is sealed with the vault's cipher, bound to the vault, to its
    /// own length and to its own generation.
    pub proof fn law_manifest_is_sealed_as_it_is_opened(self, plain_len: u64, nonce: Seq<u8>)
        ensures
            ({
                let q = self.manifest_seal(plain_len, nonce);
                &&& q.suite == self.header.crypto_suite
                &&& q.nonce == nonce.take(self.header.crypto_suite.nonce_len as int)
                &&& q.aad == crate::binding::manifest_binding(
                    self.header.vault_id,
                    plain_len,
                    self.manifest.generation,
                )
            }),
    {
    }

    /// The record of a save says what it was given: the nonce, the length of
    /// the plain manifest, the manifest's generation, and the sealed bytes.
    pub proof fn law_record_says_what_it_holds(
        self,
        nonce: Seq<u8>,
        plain_len: u64,
        sealed: Seq<u8>,
    )
        ensures
            ({
                let f = self.frame(nonce, plain_len, sealed);
                &&& f.nonce == nonce
                &&& f.plain_len == plain_len
                &&& f.generation == self.manifest.generation
                &&& f.sealed == sealed
            }),
    {
    }

    /// A save writes the record first, then what it carries, and the header
    /// last: until then the container opens as it did before. Only the header
    /// is written before the place where the chunks end.
    pub proof fn law_header_is_written_last(
        self,
        nonce: Seq<u8>,
        plain_len: u64,
        sealed: Seq<u8>,
        carried: Option<Seq<u8>>,
        filler: Seq<u8>,
        max: u64,
    )
        requires
            self.save_refusal(sealed, max) is None,
            max <= 0x100_0000_0000_0000,
        ensures
            ({
                let ops = self.save_ops(nonce, plain_len, sealed, carried, filler, max);
                let n = ops.len() - 1;
                &&& n >= 2
                &&& ops[n] == (OpView::Write {
                    at: 0,
                    data: self.saved_header(sealed, carried, filler, max).head(),
                })
                &&& ops[0] == (OpView::Write {
                    at: self.data_end,
                    data: self.frame(nonce, plain_len, sealed).image(),
                })
                &&& forall|i: int|
                    0 <= i < n ==> match #[trigger] ops[i] {
                        OpView::Write { at, .. } => at >= self.data_end,
                        OpView::SetLen(len) => len >= self.data_end + 40 + sealed.len(),
                    }
            }),
    {
    }

    /// The plan of a duress password: the decoy is built beside the vault, goes
    /// to the end of the container, and moves on as far as from byte 512 to
    /// there.
    pub proof fn law_decoy_goes_to_the_end(self, container_len: u64, p: DuressPlan)
        requires
            container_len >= 512,
            self.planned(container_len, p),
        ensures
            p.scratch@ == self.path + ".decoy-build"@,
            p.append_at == container_len,
            p.shift + 512 == container_len,
    {
    }

    /// A decoy is made with the real vault's cipher, compression and costs, and
    /// with the factors it is given.
    pub proof fn law_decoy_is_made_like_the_vault(self, password_only: FactorSet)
        ensures
            ({
                let o = self.decoy_settings(password_only);
                &&& o.crypto_suite == self.header.crypto_suite
                &&& o.compress_suite == self.header.compress_suite
                &&& o.kdf_params == self.header.kdf_params
                &&& o.factors == password_only
                &&& o.compression_level == 3
            }),
    {
    }

    /// A decoy's key is wrapped under what the duress password is asked for
    /// when the folded-in slot is opened: the decoy's salt at the real vault's
    /// costs, the real vault's cipher, the nonce that the slot records, and the
    /// real vault's identifier.
    pub proof fn law_decoy_key_is_wrapped_as_it_is_opened(
        self,
        f: FoldingView,
        decoy: HeaderView,
        plan: DuressPlan,
        filler: Seq<u8>,
        o: OpenerView<K>,
        kek: K,
    )
        requires
            f.refusal(decoy, plan, plan.append_at) is None,
            f.nonce.len() == 24,
            decoy.kdf_salt.len() == 32,
        ensures
            ({
                let h = f.folded(self.header, decoy, plan, filler);
                let q = self.duress_seal(f.nonce);
                &&& q.suite == self.header.crypto_suite
                &&& q.nonce == f.nonce.take(self.header.crypto_suite.nonce_len as int)
                &&& q.aad == crate::binding::decoy_binding(self.header.vault_id)
                &&& o.on_kek(Identity::Decoy, h, kek)->Ask_1 == (AskView::Unwrap {
                    kek,
                    suite: q.suite,
                    nonce: q.nonce,
                    wrapped: f.wrapped,
                    aad: q.aad,
                })
                &&& self.duress_kek_basis(decoy) == (decoy.kdf_salt, self.header.kdf_params)
                &&& h.slot()->0.kdf_salt == self.duress_kek_basis(decoy).0
                &&& h.kdf_params == self.duress_kek_basis(decoy).1
            }),
    {
        crate::format::law_decoy_slot_round_trips(f.slot(decoy, plan), filler);
    }

    /// A split vault's key is wrapped under what its components are asked for:
    /// the vault's cipher, the new nonce, and authenticated bytes in which the
    /// vault is marked already.
    pub proof fn law_split_key_is_wrapped_as_it_is_opened(
        self,
        nonce: Seq<u8>,
        o: OpenerView<K>,
        kek: K,
    )
        ensures
            ({
                let q = self.split_seal(nonce);
                let h = self.split_header(nonce);
                &&& q.suite == self.header.crypto_suite
                &&& q.nonce == nonce.take(self.header.crypto_suite.nonce_len as int)
                &&& q.aad == h.aad()
                &&& o.ask_unwrap(h, kek)->Ask_1 == (AskView::Unwrap {
                    kek,
                    suite: q.suite,
                    nonce: q.nonce,
                    wrapped: h.wrapped_master_key,
                    aad: q.aad,
                })
            }),
    {
    }

    /// An export is complete exactly if as many chunks as the entry has have
    /// been counted, and as many bytes as it records.
    pub proof fn law_export_is_complete_exactly_when(self, x: ExportView)
        requires
            x.entry < self.manifest.entries.len(),
        ensures
            ({
                let e = self.manifest.entries[x.entry as int];
                &&& self.export_is_complete(x) <==> x.next >= e.chunks.len() && x.written == e.size
                &&& x.next < e.chunks.len() ==> !self.export_is_complete(x)
                &&& x.written != e.size ==> !self.export_is_complete(x)
            }),
    {
    }
}

/// Each chunk that is written counts once, and all of its bytes.
pub proof fn law_written_chunk_counts(x: ExportView, len: nat)
    requires
        x.next < usize::MAX,
        x.written + len <= u64::MAX,
    ensures
        x.plus(len).next == x.next + 1,
        x.plus(len).written == x.written + len,
        x.plus(len).entry == x.entry,
        x.plus(len).path == x.path,
{
}

/// A chunk is sealed bound to its file, its number, its size and its
/// compression, and is written where the last one ended. Reading it asks for
/// the same.
pub proof fn law_chunk_is_sealed_as_it_is_opened(
    im: ImportView,
    n: u32,
    used: CompressSuite,
    sealed: Seq<u8>,
    r: ChunkReaderView,
)
    requires
        r.object_id == im.object_id,
        r.index == im.chunks.len(),
        r.chunk.plaintext_len == n,
        used == r.recorded,
    ensures
        im.next_binding(n, used) == crate::binding::chunk_binding(
            im.object_id,
            im.chunks.len() as u64,
            n,
            used,
        ),
        r.ask_open(ChunkPhase::AsRecorded, sealed)->Ask_1->aad == im.next_binding(n, used),
        r.ask_open(ChunkPhase::AsRecorded, sealed)->Ask_1->index == im.chunks.len(),
        im.next_write(sealed) == (OpView::Write { at: im.cursor, data: sealed }),
{
}

/// Whatever an opener is waiting for, a failure stops the open and is what is
/// reported; only that a wrapping does not open leads on.
pub proof fn law_failure_stops_an_open<K>(o: OpenerView<K>, e: ErrorView)
    ensures
        !(o.phase is Unwrap) ==> crate::vault::open::next(o, ReplyView::<K>::Failed(e))
            == StepView::<K>::Refused(e),
        o.phase is Unwrap && o.way is Components && o.phase->Unwrap_0 == Identity::Real
            ==> crate::vault::open::next(o, ReplyView::<K>::Failed(e)) == StepView::<K>::Refused(e),
        o.phase is Unwrap && o.phase->Unwrap_0 == Identity::Decoy && o.fallback is Some
            ==> crate::vault::open::next(o, ReplyView::<K>::Failed(e)) == StepView::<K>::Refused(
            o.fallback->0,
        ),
{
}

/// Whatever a chunk reader is waiting for, a failure stops it and is what is
/// reported.
pub proof fn law_failure_stops_a_chunk(r: ChunkReaderView, e: ErrorView)
    ensures
        crate::vault::chunk::chunk_next(r, ChunkReplyView::Failed(e)) == ChunkStepView::Refused(e),
{
}

/// What is read back in place of the overwritten key has to be what was
/// written, or the open is refused.
pub proof fn law_key_is_read_back<K>(
    o: OpenerView<K>,
    h: HeaderView,
    key: K,
    written: Seq<u8>,
    b: Seq<u8>,
)
    requires
        o.phase == PhaseView::Reread(h, key, written),
        b.len() < 48 || b.take(48) != written,
    ensures
        crate::vault::open::next(o, ReplyView::<K>::Bytes(b)) is Refused,
{
}

impl FoldingView {
    /// Folding a decoy in appends it first and writes the header last, so that
    /// the slot never points at what is not there.
    pub proof fn law_decoy_is_appended_first(
        self,
        header: HeaderView,
        decoy: HeaderView,
        plan: DuressPlan,
        filler: Seq<u8>,
    )
        ensures
            ({
                let ops = self.ops(header, decoy, plan, filler);
                &&& ops.len() == 2
                &&& ops[0] == (OpView::Write {
                    at: plan.append_at,
                    data: self.scratch.skip(512),
                })
                &&& ops[1] == (OpView::Write {
                    at: 0,
                    data: self.folded(header, decoy, plan, filler).head(),
                })
            }),
    {
    }
}

/// A file is overwritten before it is removed exactly if it holds something and
/// is smaller than 64 MiB; an unfinished export, if it is smaller than 512 MiB.
pub proof fn law_small_files_are_overwritten(is_file: bool, len: u64)
    ensures
        crate::vault::purge::overwritten_first(is_file, len) <==> is_file && 0 < len < 64 * 1024
            * 1024,
        crate::vault::purge::wiped_first(len) <==> 0 < len < 512 * 1024 * 1024,
{
}

} // verus!
