//! What was put into a vault stays in it, and comes out as it went in, whatever
//! is imported and saved after it.

use crate::format::{HeaderView, V3_DATA_START};
use crate::suite::CompressSuite;
use crate::vault::chunk::ChunkWorld;
use crate::vault::duress::{DuressPlan, FoldingView};
use crate::vault::export::Made;
use crate::vault::import::Piece;
use crate::vault::{Limits, VaultView};
use vstd::prelude::*;

verus! {

/// One more file, imported and saved: what it was given, what its chunks came
/// to, and what the save that followed was given.
pub struct Addition {
    pub stored_path: Seq<char>,
    pub object_id: Seq<u8>,
    pub pieces: Seq<Piece>,
    pub mtime: i64,
    pub store: CompressSuite,
    pub root: Seq<u8>,
    pub nonce: Seq<u8>,
    pub plain_len: u64,
    pub sealed: Seq<u8>,
    pub carried: Option<Seq<u8>>,
    pub filler: Seq<u8>,
}

impl<K> VaultView<K> {
    /// Every chunk lies behind the header and before the manifest.
    pub open spec fn filled(self) -> bool {
        let n = self.header.head().len();
        &&& n <= self.data_end
        &&& self.manifest.lies_in(n as int, self.data_end - n)
    }

    /// The vault with one more file, while it is being saved.
    pub open spec fn adding(self, a: Addition, limits: Limits) -> VaultView<K> {
        self.imported(
            self.import(a.stored_path, a.object_id, limits).fed(a.pieces),
            a.mtime,
            a.store,
        ).begun(a.root)
    }

    /// The vault with one more file.
    pub open spec fn added(self, a: Addition, limits: Limits) -> VaultView<K> {
        let s = self.adding(a, limits);
        VaultView {
            header: s.saved_header(a.sealed, a.carried, a.filler, limits.max_manifest_bytes),
            ..s
        }
    }

    /// The container with one more file.
    pub open spec fn container_with(self, a: Addition, limits: Limits, c: Seq<u8>) -> Seq<u8> {
        self.adding(a, limits).saved(
            crate::container::applied(
                c,
                self.import(a.stored_path, a.object_id, limits).writes(a.pieces),
            ),
            a.nonce,
            a.plain_len,
            a.sealed,
            a.carried,
            a.filler,
            limits.max_manifest_bytes,
        )
    }

    /// The file is taken, and the save that follows is not refused.
    pub open spec fn goes_through(self, a: Addition, limits: Limits) -> bool {
        &&& self.import(a.stored_path, a.object_id, limits).takes(
            a.pieces,
            limits.max_chunk_ciphertext,
        )
        &&& self.adding(a, limits).can_save(
            a.nonce,
            a.sealed,
            a.filler,
            limits.max_manifest_bytes,
        )
    }

    /// An import leaves the chunks that there were between some place and the
    /// place for the next chunk, and puts the new ones there too.
    pub proof fn lemma_import_lies(
        self,
        at: int,
        stored_path: Seq<char>,
        object_id: Seq<u8>,
        limits: Limits,
        ps: Seq<Piece>,
        mtime: i64,
        store: CompressSuite,
    )
        requires
            at <= self.data_end,
            self.manifest.lies_in(at, self.data_end - at),
            self.import(stored_path, object_id, limits).takes(ps, limits.max_chunk_ciphertext),
        ensures
            ({
                let v = self.imported(
                    self.import(stored_path, object_id, limits).fed(ps),
                    mtime,
                    store,
                );
                self.data_end <= v.data_end && v.manifest.lies_in(at, v.data_end - at)
            }),
    {
        let im = self.import(stored_path, object_id, limits);
        let v = self.imported(im.fed(ps), mtime, store);
        crate::vault::import_laws::law_chunks_lie_back_to_back(
            im,
            ps,
            limits.max_chunk_ciphertext,
        );
        crate::vault::import_laws::lemma_sealed_sum_grows(ps, 0);
        assert(ps.take(0) =~= Seq::<Piece>::empty());
        assert forall|e: int, k: int|
            0 <= e < v.manifest.entries.len() && 0 <= k < v.manifest.entries[e].chunks.len() implies {
            let c = #[trigger] v.manifest.entries[e].chunks[k];
            at <= c.offset && c.offset + c.ciphertext_len <= v.data_end
        } by {
            if e < self.manifest.entries.len() {
                assert(v.manifest.entries[e].chunks[k] == self.manifest.entries[e].chunks[k]);
            } else {
                assert(v.manifest.entries[e].chunks[k] == im.fed(ps).chunks[k]);
                assert(ps[k].sealed.len() <= limits.max_chunk_ciphertext);
                crate::vault::import_laws::lemma_sealed_sum_grows(ps, k);
            }
        }
    }

    /// A save keeps every entry: the header and the manifest are written, and
    /// the chunks are left where they lie.
    pub proof fn law_save_keeps_entries(
        self,
        c: Seq<u8>,
        nonce: Seq<u8>,
        plain_len: u64,
        sealed: Seq<u8>,
        carried: Option<Seq<u8>>,
        filler: Seq<u8>,
        max: u64,
        entry: int,
        ps: Seq<Piece>,
    )
        requires
            self.can_save(nonce, sealed, filler, max),
            self.filled(),
            self.keeps(entry, ps, c),
        ensures
            ({
                let v = VaultView {
                    header: self.saved_header(sealed, carried, filler, max),
                    ..self
                };
                &&& v.filled()
                &&& v.keeps(
                    entry,
                    ps,
                    self.saved(c, nonce, plain_len, sealed, carried, filler, max),
                )
            }),
    {
        let d = self.saved(c, nonce, plain_len, sealed, carried, filler, max);
        let v = VaultView { header: self.saved_header(sealed, carried, filler, max), ..self };
        self.lemma_saved_header(sealed, carried, filler, max);
        assert forall|i: int| 0 <= i < ps.len() implies crate::container::read_at(
            d,
            (#[trigger] v.manifest.entries[entry].chunks[i]).offset as int,
            ps[i].sealed.len() as int,
        ) == ps[i].sealed by {
            let k = self.manifest.entries[entry].chunks[i];
            let n = ps[i].sealed.len() as int;
            assert(crate::container::read_at(c, k.offset as int, n) == ps[i].sealed);
            if n > 0 {
                self.law_chunks_survive_a_save(
                    c,
                    nonce,
                    plain_len,
                    sealed,
                    carried,
                    filler,
                    max,
                    k.offset as int,
                    n,
                );
            } else {
                assert(crate::container::read_at(d, k.offset as int, 0) =~= ps[i].sealed);
            }
        }
    }

    /// A file that is imported and saved is kept, as the entry behind those
    /// that there were; and so is every entry that was kept before. No chunk
    /// comes to lie over the header or behind the manifest.
    pub proof fn law_addition_keeps_entries(
        self,
        a: Addition,
        limits: Limits,
        c: Seq<u8>,
        entry: int,
        ps: Seq<Piece>,
    )
        requires
            self.filled(),
            self.goes_through(a, limits),
        ensures
            self.added(a, limits).filled(),
            self.added(a, limits).keeps(
                self.manifest.entries.len() as int,
                a.pieces,
                self.container_with(a, limits, c),
            ),
            self.keeps(entry, ps, c) ==> self.added(a, limits).keeps(
                entry,
                ps,
                self.container_with(a, limits, c),
            ),
            self.added(a, limits).manifest.entries.drop_last() == self.manifest.entries,
            self.added(a, limits).header.crypto_suite == self.header.crypto_suite,
            self.added(a, limits).master == self.master,
    {
        let im = self.import(a.stored_path, a.object_id, limits);
        let s = self.adding(a, limits);
        let mid = crate::container::applied(c, im.writes(a.pieces));
        let last = self.manifest.entries.len() as int;
        let max = limits.max_chunk_ciphertext;
        crate::vault::import_laws::law_chunks_lie_back_to_back(im, a.pieces, max);
        crate::vault::import_laws::law_imported_chunks_can_be_read(im, a.pieces, max, c);
        self.lemma_import_lies(
            self.header.head().len() as int,
            a.stored_path,
            a.object_id,
            limits,
            a.pieces,
            a.mtime,
            a.store,
        );
        assert(s.filled());
        assert(s.manifest.entries.drop_last() =~= self.manifest.entries);
        lemma_pieces_fit(im, a.pieces, max);
        assert forall|i: int| 0 <= i < a.pieces.len() implies {
            let k = #[trigger] s.manifest.entries[last].chunks[i];
            &&& k.ciphertext_len == a.pieces[i].sealed.len()
            &&& k.plaintext_len == a.pieces[i].plain_len
            &&& k.hash == a.pieces[i].hash
            &&& crate::container::read_at(mid, k.offset as int, a.pieces[i].sealed.len() as int)
                == a.pieces[i].sealed
        } by {
            assert(s.manifest.entries[last].chunks[i] == im.fed(a.pieces).chunks[i]);
            assert(a.pieces[i].sealed.len() <= max);
        }
        assert(s.keeps(last, a.pieces, mid));
        s.law_save_keeps_entries(
            mid,
            a.nonce,
            a.plain_len,
            a.sealed,
            a.carried,
            a.filler,
            limits.max_manifest_bytes,
            last,
            a.pieces,
        );
        if self.keeps(entry, ps, c) {
            assert forall|i: int| 0 <= i < ps.len() implies crate::container::read_at(
                mid,
                (#[trigger] s.manifest.entries[entry].chunks[i]).offset as int,
                ps[i].sealed.len() as int,
            ) == ps[i].sealed by {
                let k = self.manifest.entries[entry].chunks[i];
                assert(s.manifest.entries[entry].chunks[i] == k);
                let n = ps[i].sealed.len() as int;
                let x = crate::container::read_at(c, k.offset as int, n);
                let y = crate::container::read_at(mid, k.offset as int, n);
                assert(x == ps[i].sealed);
                assert(x =~= y);
            }
            assert(s.keeps(entry, ps, mid));
            s.law_save_keeps_entries(
                mid,
                a.nonce,
                a.plain_len,
                a.sealed,
                a.carried,
                a.filler,
                limits.max_manifest_bytes,
                entry,
                ps,
            );
        }
    }
}

impl<K> VaultView<K> {
    /// The vault with several more files.
    pub open spec fn added_all(self, later: Seq<Addition>, limits: Limits) -> VaultView<K>
        decreases later.len(),
    {
        if later.len() == 0 {
            self
        } else {
            self.added_all(later.drop_last(), limits).added(later.last(), limits)
        }
    }

    /// The container with several more files.
    pub open spec fn container_with_all(
        self,
        later: Seq<Addition>,
        limits: Limits,
        c: Seq<u8>,
    ) -> Seq<u8>
        decreases later.len(),
    {
        if later.len() == 0 {
            c
        } else {
            self.added_all(later.drop_last(), limits).container_with(
                later.last(),
                limits,
                self.container_with_all(later.drop_last(), limits, c),
            )
        }
    }

    /// Every one of the files is taken, and every save goes through.
    pub open spec fn all_go_through(self, later: Seq<Addition>, limits: Limits) -> bool
        decreases later.len(),
    {
        later.len() > 0 ==> {
            &&& self.all_go_through(later.drop_last(), limits)
            &&& self.added_all(later.drop_last(), limits).goes_through(later.last(), limits)
        }
    }

    /// An entry stays what it is, and is kept, however many files are imported
    /// and saved after it.
    pub proof fn law_entries_are_kept(
        self,
        later: Seq<Addition>,
        limits: Limits,
        c: Seq<u8>,
        entry: int,
        ps: Seq<Piece>,
    )
        requires
            self.filled(),
            self.keeps(entry, ps, c),
            self.all_go_through(later, limits),
        ensures
            self.added_all(later, limits).filled(),
            self.added_all(later, limits).keeps(
                entry,
                ps,
                self.container_with_all(later, limits, c),
            ),
            self.added_all(later, limits).manifest.entries[entry] == self.manifest.entries[entry],
            self.added_all(later, limits).header.crypto_suite == self.header.crypto_suite,
            self.added_all(later, limits).master == self.master,
        decreases later.len(),
    {
        if later.len() > 0 {
            let init = later.drop_last();
            self.law_entries_are_kept(init, limits, c, entry, ps);
            let v = self.added_all(init, limits);
            let d = self.container_with_all(init, limits, c);
            v.law_addition_keeps_entries(later.last(), limits, d, entry, ps);
            assert(v.added(later.last(), limits).manifest.entries.drop_last()[entry]
                == v.manifest.entries[entry]);
        }
    }

    /// What is imported comes out as it went in, whatever is imported and saved
    /// after it: the file that the pieces were made from, under the name that
    /// it was stored under.
    ///
    /// `shown` is any vault that shows the same manifest under the same cipher
    /// at the end: the handle that did the importing, or one that was opened
    /// from the container since. `made` tells how each piece became a chunk;
    /// the ciphers and the compression that `w` stands for have to undo it.
    pub proof fn law_import_then_export(
        self,
        source: Seq<char>,
        a: Addition,
        later: Seq<Addition>,
        limits: Limits,
        c: Seq<u8>,
        shown: VaultView<K>,
        made: Seq<Made>,
        w: ChunkWorld,
    )
        requires
            self.filled(),
            self.import_refusal(source, true, a.stored_path, limits) is None,
            self.goes_through(a, limits),
            self.added(a, limits).all_go_through(later, limits),
            ({
                let end = self.added(a, limits).added_all(later, limits);
                &&& shown.manifest == end.manifest
                &&& shown.header.crypto_suite == end.header.crypto_suite
                &&& shown.master is Some
            }),
            w.container == self.added(a, limits).container_with_all(
                later,
                limits,
                self.container_with(a, limits, c),
            ),
            made.len() == a.pieces.len() <= usize::MAX,
            forall|i: int|
                0 <= i < a.pieces.len() ==> (#[trigger] made[i]).undone(
                    w,
                    self.added(a, limits).chunk_reader(
                        self.manifest.entries.len() as int,
                        i,
                        a.store,
                    ),
                    a.pieces[i],
                ),
        ensures
            shown.manifest.entries[self.manifest.entries.len() as int].path == a.stored_path,
            shown.exports_as(
                self.manifest.entries.len() as usize,
                made,
                w,
                a.store,
                limits,
            ),
    {
        let index = self.manifest.entries.len() as usize;
        let v = self.added(a, limits);
        let im = self.import(a.stored_path, a.object_id, limits);
        self.law_addition_keeps_entries(a, limits, c, index as int, a.pieces);
        v.law_entries_are_kept(
            later,
            limits,
            self.container_with(a, limits, c),
            index as int,
            a.pieces,
        );
        lemma_pieces_fit(im, a.pieces, limits.max_chunk_ciphertext);
        crate::vault::import_laws::law_chunks_lie_back_to_back(
            im,
            a.pieces,
            limits.max_chunk_ciphertext,
        );
        assert forall|i: int| 0 <= i < a.pieces.len() implies (#[trigger] made[i]).undone(
            w,
            shown.chunk_reader(index as int, i, a.store),
            a.pieces[i],
        ) by {
            assert(shown.chunk_reader(index as int, i, a.store) == v.chunk_reader(
                index as int,
                i,
                a.store,
            ));
        }
        shown.law_kept_entry_exports(index, a.pieces, made, w, a.store, limits);
    }

    /// Folding a decoy in keeps every entry of the real contents.
    pub proof fn law_fold_keeps_entries(
        self,
        f: FoldingView,
        decoy: HeaderView,
        plan: DuressPlan,
        filler: Seq<u8>,
        c: Seq<u8>,
        entry: int,
        ps: Seq<Piece>,
    )
        requires
            f.can_fold(self.header, decoy, plan, filler, c),
            self.manifest.lies_in(V3_DATA_START as int, self.data_end - V3_DATA_START),
            self.keeps(entry, ps, c),
        ensures
            self.keeps(entry, ps, f.container(self.header, decoy, plan, filler, c)),
    {
        let d = f.container(self.header, decoy, plan, filler, c);
        f.law_folded_container(self.header, decoy, plan, filler, c);
        assert forall|i: int| 0 <= i < ps.len() implies crate::container::read_at(
            d,
            (#[trigger] self.manifest.entries[entry].chunks[i]).offset as int,
            ps[i].sealed.len() as int,
        ) == ps[i].sealed by {
            let k = self.manifest.entries[entry].chunks[i];
            let n = ps[i].sealed.len() as int;
            let x = crate::container::read_at(c, k.offset as int, n);
            let y = crate::container::read_at(d, k.offset as int, n);
            assert(x == ps[i].sealed);
            assert(x =~= y);
        }
    }

    /// What a decoy keeps in the container it was built in, it keeps in the one
    /// that it is folded into, once it was made ready for that.
    pub proof fn law_folded_decoy_keeps_entries(
        self,
        f: FoldingView,
        header: HeaderView,
        decoy: HeaderView,
        plan: DuressPlan,
        filler: Seq<u8>,
        c: Seq<u8>,
        vault_id: Seq<u8>,
        entry: int,
        ps: Seq<Piece>,
    )
        requires
            f.can_fold(header, decoy, plan, filler, c),
            self.packed(),
            self.data_end <= f.scratch.len(),
            crate::vault::duress::can_shift(self.manifest, plan.shift),
            self.keeps(entry, ps, f.scratch),
        ensures
            self.rebased(vault_id, plan.shift).keeps(
                entry,
                ps,
                f.container(header, decoy, plan, filler, c),
            ),
    {
        let d = f.container(header, decoy, plan, filler, c);
        let v = self.rebased(vault_id, plan.shift);
        f.law_folded_container(header, decoy, plan, filler, c);
        assert forall|i: int| 0 <= i < ps.len() implies {
            let k = #[trigger] v.manifest.entries[entry].chunks[i];
            &&& k.ciphertext_len == ps[i].sealed.len()
            &&& k.plaintext_len == ps[i].plain_len
            &&& k.hash == ps[i].hash
            &&& crate::container::read_at(d, k.offset as int, ps[i].sealed.len() as int)
                == ps[i].sealed
        } by {
            let k = self.manifest.entries[entry].chunks[i];
            let n = ps[i].sealed.len() as int;
            assert(v.manifest.entries[entry].chunks[i] == k.slid(plan.shift));
            assert(k.offset + plan.shift <= u64::MAX);
            assert(crate::container::read_at(d, k.offset + plan.shift, n)
                == crate::container::read_at(f.scratch, k.offset as int, n));
        }
    }
}

/// What is taken as a piece is no larger than a chunk may be.
proof fn lemma_pieces_fit(im: crate::vault::import::ImportView, ps: Seq<Piece>, max: u32)
    requires
        im.takes(ps, max),
    ensures
        forall|i: int|
            0 <= i < ps.len() ==> 0 < (#[trigger] ps[i]).plain_len <= crate::vault::CHUNK_SIZE
                && ps[i].sealed.len() <= max,
    decreases ps.len(),
{
    if ps.len() > 0 {
        let init = ps.drop_last();
        lemma_pieces_fit(im, init, max);
        assert forall|i: int| 0 <= i < ps.len() implies 0 < (#[trigger] ps[i]).plain_len
            <= crate::vault::CHUNK_SIZE && ps[i].sealed.len() <= max by {
            if i < init.len() {
                assert(init[i] == ps[i]);
            }
        }
    }
}

} // verus!
