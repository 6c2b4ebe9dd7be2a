//! What folding a decoy in leaves in the container, and how each password then
//! opens it.

use crate::container::OpView;
use crate::error::ErrorView;
use crate::format::{HeaderView, DECOY_FILLER_LEN, V3_DATA_START};
use crate::manifest::{first_offset, ChunkView, EntryView, ManifestView};
use crate::suite::CompressSuite;
use crate::vault::create::{new_vault, CreatingView};
use crate::vault::duress::{DuressPlan, FoldingView};
use crate::vault::import::Piece;
use crate::vault::outcome::World;
use crate::vault::{Identity, Limits, VaultView};
use vstd::prelude::*;

verus! {

broadcast use crate::le::group_le;

impl FoldingView {
    /// A decoy that is folded into a container.
    pub open spec fn can_fold(
        self,
        header: HeaderView,
        decoy: HeaderView,
        plan: DuressPlan,
        filler: Seq<u8>,
        c: Seq<u8>,
    ) -> bool {
        &&& header.wf()
        &&& decoy.kdf_salt.len() == 32
        &&& self.nonce.len() == 24
        &&& filler.len() == DECOY_FILLER_LEN
        &&& c.len() == plan.append_at
        &&& c.len() >= V3_DATA_START
        &&& plan.shift == plan.append_at - V3_DATA_START
        &&& self.refusal(decoy, plan, plan.append_at) is None
        &&& self.scratch.len() <= u64::MAX
    }

    /// The container with the decoy folded in.
    pub open spec fn container(
        self,
        header: HeaderView,
        decoy: HeaderView,
        plan: DuressPlan,
        filler: Seq<u8>,
        c: Seq<u8>,
    ) -> Seq<u8> {
        crate::container::applied(c, self.ops(header, decoy, plan, filler))
    }

    /// Folding a decoy in writes the header and its block anew, leaves every
    /// byte behind them as it was, and appends the decoy. Whatever lay in the
    /// scratch container behind its header is found in the real one, as much
    /// further on as the plan says. That holds of every format; before format
    /// 3 what the block is written over are the first bytes of the chunks.
    pub proof fn law_folded_container(
        self,
        header: HeaderView,
        decoy: HeaderView,
        plan: DuressPlan,
        filler: Seq<u8>,
        c: Seq<u8>,
    )
        requires
            self.can_fold(header, decoy, plan, filler, c),
        ensures
            ({
                let d = self.container(header, decoy, plan, filler, c);
                let h = self.folded(header, decoy, plan, filler);
                &&& h.wf()
                &&& d.len() == c.len() + self.body().len()
                &&& d.take(512) == h.head()
                &&& h.image() == header.image()
                &&& forall|i: int| 512 <= i < c.len() ==> d[i] == c[i]
                &&& forall|at: int, n: int|
                    512 <= at && 0 <= n && at + n <= self.scratch.len()
                        ==> #[trigger] crate::container::read_at(d, at + plan.shift, n)
                        == crate::container::read_at(self.scratch, at, n)
            }),
    {
        let d = self.container(header, decoy, plan, filler, c);
        let h = self.folded(header, decoy, plan, filler);
        let ops = self.ops(header, decoy, plan, filler);
        let one = crate::container::written(c, plan.append_at as int, self.body());
        assert(self.slot(decoy, plan).wf());
        crate::format::lemma_image_len(h);
        crate::format::lemma_image_len(header);
        reveal_with_fuel(crate::container::applied, 3);
        assert(ops.drop_last() =~= seq![ops[0]]);
        assert(seq![ops[0]].drop_last() =~= Seq::<OpView>::empty());
        assert(d == crate::container::written(one, 0, h.head()));
        assert(d.take(512) =~= h.head());
        assert forall|at: int, n: int|
            512 <= at && 0 <= n && at + n
                <= self.scratch.len() implies #[trigger] crate::container::read_at(
            d,
            at + plan.shift,
            n,
        ) == crate::container::read_at(self.scratch, at, n) by {
            let x = crate::container::read_at(d, at + plan.shift, n);
            let y = crate::container::read_at(self.scratch, at, n);
            assert(x.len() == n && y.len() == n);
            assert forall|k: int| 0 <= k < n implies x[k] == y[k] by {
                assert(self.body()[at - 512 + k] == self.scratch[at + k]);
            }
            assert(x =~= y);
        }
    }
}

impl FoldingView {
    /// The region of a decoy that was folded in lies in the container in full
    /// and holds the record of its manifest, so that saves carry it along.
    pub proof fn law_folded_region_holds_together(
        self,
        header: HeaderView,
        decoy: HeaderView,
        plan: DuressPlan,
        filler: Seq<u8>,
        c: Seq<u8>,
        max: u64,
    )
        requires
            self.can_fold(header, decoy, plan, filler, c),
            decoy.manifest_offset >= V3_DATA_START,
            decoy.manifest_offset + crate::frame::frame_reach(decoy.manifest_len)
                <= self.scratch.len(),
            self.body().len() < max * 8,
        ensures
            self.slot(decoy, plan).holds_together(
                self.container(header, decoy, plan, filler, c),
                max,
            ),
            self.slot(decoy, plan).body(self.container(header, decoy, plan, filler, c))
                == self.body(),
    {
        let d = self.container(header, decoy, plan, filler, c);
        self.law_folded_container(header, decoy, plan, filler, c);
        let n = self.body().len() as int;
        let x = crate::container::read_at(d, 512 + plan.shift, n);
        assert(x == crate::container::read_at(self.scratch, 512, n));
        assert(x =~= self.slot(decoy, plan).body(d));
        assert(crate::container::read_at(self.scratch, 512, n) =~= self.body());
    }
}

impl<K> World<K> {
    /// The header of a container into which a decoy was folded.
    pub proof fn lemma_folded_header(
        self,
        f: FoldingView,
        header: HeaderView,
        decoy: HeaderView,
        plan: DuressPlan,
        filler: Seq<u8>,
        c: Seq<u8>,
        h: HeaderView,
    )
        requires
            f.can_fold(header, decoy, plan, filler, c),
            header.format_version == 3,
            c.take(512) == header.head(),
            self.header(c) == Ok::<HeaderView, ErrorView>(h),
        ensures
            ({
                let d = f.container(header, decoy, plan, filler, c);
                let g = HeaderView {
                    decoy: Some(f.slot(decoy, plan).image() + filler),
                    ..h
                };
                &&& self.header(d) == Ok::<HeaderView, ErrorView>(g)
                &&& self.max_manifest(d) == self.max_manifest(c)
                &&& g.slot() == Some(f.slot(decoy, plan))
                &&& g.aad() == h.aad()
                &&& h.vault_id == header.vault_id
                &&& h.kdf_params == header.kdf_params
                &&& h.crypto_suite.code == header.crypto_suite.code
            }),
    {
        let d = f.container(header, decoy, plan, filler, c);
        let g = f.folded(header, decoy, plan, filler);
        f.law_folded_container(header, decoy, plan, filler, c);
        crate::format::lemma_image_len(header);
        crate::format::lemma_image_len(g);
        let a = crate::container::read_at(c, 0, 512);
        let b = crate::container::read_at(d, 0, 512);
        assert(a =~= c.take(512));
        assert(b =~= d.take(512));
        assert(a.take(256) =~= header.image());
        assert(b.take(256) =~= g.image());
        assert(b.subrange(256, 512) =~= f.slot(decoy, plan).image() + filler);
        let j = (self.judge)(crate::format::probe_of(a));
        crate::format::law_block_does_not_touch_the_header(a, b, j);
        crate::format::law_decoy_slot_round_trips(f.slot(decoy, plan), filler);
        crate::format::lemma_parsed_fields(header, a, j);
    }

    /// Installing a duress password leaves the real identity as it was: the
    /// real password opens the same contents as before, and writes nothing.
    pub proof fn law_real_opens_after_folding(
        self,
        f: FoldingView,
        header: HeaderView,
        decoy: HeaderView,
        plan: DuressPlan,
        filler: Seq<u8>,
        c: Seq<u8>,
        path: Seq<char>,
        authenticator: bool,
    )
        requires
            f.can_fold(header, decoy, plan, filler, c),
            header.format_version == 3,
            c.take(512) == header.head(),
            self.opened(c, path, authenticator).0 is Opened,
            self.opened(c, path, authenticator).0->Opened_0.identity == Identity::Real,
            self.header(c)->Ok_0.manifest_offset >= V3_DATA_START,
            self.header(c)->Ok_0.manifest_offset + crate::frame::frame_reach(
                self.header(c)->Ok_0.manifest_len,
            ) <= c.len(),
        ensures
            ({
                let d = f.container(header, decoy, plan, filler, c);
                let v = self.opened(c, path, authenticator).0->Opened_0;
                let w = self.opened(d, path, authenticator).0->Opened_0;
                &&& self.opened(d, path, authenticator).0 is Opened
                &&& self.opened(d, path, authenticator).1 == d
                &&& w.identity == Identity::Real
                &&& w.manifest == v.manifest
                &&& w.master == v.master
                &&& w.data_end == v.data_end
            }),
    {
        let h = self.header(c)->Ok_0;
        let d = f.container(header, decoy, plan, filler, c);
        f.law_folded_container(header, decoy, plan, filler, c);
        self.lemma_folded_header(f, header, decoy, plan, filler, c, h);
        let g = self.header(d)->Ok_0;
        assert(self.real_key(h, authenticator) == self.real_key(g, authenticator));
        let at = h.manifest_offset as int;
        let n = crate::frame::frame_reach(h.manifest_len) as int;
        assert(crate::container::read_at(c, at, n) =~= crate::container::read_at(d, at, n));
    }

    /// Once a decoy has been folded in, the duress password opens it: the real
    /// key is overwritten, and the decoy's own manifest is shown, with its
    /// chunks from where the region begins.
    ///
    /// The password must not open the real wrapping; it has to give the key
    /// that wrapped the decoy's key; and the decoy's manifest has to be
    /// readable in the scratch container under the real vault's identifier.
    pub proof fn law_duress_opens_after_folding(
        self,
        f: FoldingView,
        header: HeaderView,
        decoy: HeaderView,
        plan: DuressPlan,
        filler: Seq<u8>,
        c: Seq<u8>,
        path: Seq<char>,
        authenticator: bool,
        h: HeaderView,
        kek: K,
        master: K,
        r: (ManifestView, Seq<u8>),
    )
        requires
            self.noise.len() == crate::format::WRAPPED_KEY_LEN,
            f.can_fold(header, decoy, plan, filler, c),
            header.format_version == 3,
            c.take(512) == header.head(),
            self.header(c) == Ok::<HeaderView, ErrorView>(h),
            self.real_key(h, authenticator) matches Ok(Err(_)),
            (self.kek)(decoy.kdf_salt, header.kdf_params, None) == Ok::<K, ErrorView>(kek),
            (self.unwrap)(
                kek,
                h.crypto_suite,
                h.crypto_suite.nonce_of(f.nonce),
                f.wrapped,
                crate::binding::decoy_binding(header.vault_id),
            ) == Ok::<(K, usize), ErrorView>((master, 32)),
            decoy.manifest_offset >= V3_DATA_START,
            decoy.manifest_offset + crate::frame::frame_reach(decoy.manifest_len)
                <= f.scratch.len(),
            self.read_manifest(
                f.scratch,
                HeaderView {
                    manifest_offset: decoy.manifest_offset,
                    manifest_len: decoy.manifest_len,
                    ..h
                },
                master,
                self.max_manifest(c),
            ) == Ok::<(ManifestView, Seq<u8>), ErrorView>(r),
        ensures
            ({
                let d = f.container(header, decoy, plan, filler, c);
                let v = self.opened(d, path, authenticator).0->Opened_0;
                &&& self.opened(d, path, authenticator).0 is Opened
                &&& self.opened(d, path, authenticator).1 == self.shredded(d)
                &&& v.identity == Identity::Decoy
                &&& v.manifest == r.0.placed(plan.append_at)
                &&& v.recorded() == r.0
                &&& v.master == Some(master)
            }),
    {
        let d = f.container(header, decoy, plan, filler, c);
        f.law_folded_container(header, decoy, plan, filler, c);
        self.lemma_folded_header(f, header, decoy, plan, filler, c, h);
        let g = self.header(d)->Ok_0;
        assert(self.real_key(h, authenticator) == self.real_key(g, authenticator));
        assert(self.duress_key(g) == Ok::<Option<K>, ErrorView>(Some(master)));
        let s = self.shredded(d);
        let at = decoy.manifest_offset as int;
        let n = crate::frame::frame_reach(decoy.manifest_len) as int;
        let x = crate::container::read_at(f.scratch, at, n);
        let y = crate::container::read_at(d, at + plan.shift, n);
        let z = crate::container::read_at(s, at + plan.shift, n);
        assert(x == y);
        assert(y =~= z);
        crate::manifest::lemma_slid_back(r.0, r.0.lag(plan.append_at));
    }

    /// The decoy's chunks are found where its manifest says, also after the
    /// duress password has fired.
    pub proof fn law_decoy_chunks_follow(
        self,
        f: FoldingView,
        header: HeaderView,
        decoy: HeaderView,
        plan: DuressPlan,
        filler: Seq<u8>,
        c: Seq<u8>,
        chunk: ChunkView,
    )
        requires
            self.noise.len() == crate::format::WRAPPED_KEY_LEN,
            f.can_fold(header, decoy, plan, filler, c),
            chunk.offset >= V3_DATA_START,
            chunk.offset + chunk.ciphertext_len <= f.scratch.len(),
            chunk.offset + plan.shift <= u64::MAX,
        ensures
            ({
                let d = f.container(header, decoy, plan, filler, c);
                let moved = chunk.slid(plan.shift);
                let n = chunk.ciphertext_len as int;
                let plain = crate::container::read_at(f.scratch, chunk.offset as int, n);
                &&& crate::container::read_at(d, moved.offset as int, n) == plain
                &&& crate::container::read_at(self.shredded(d), moved.offset as int, n) == plain
            }),
    {
        let d = f.container(header, decoy, plan, filler, c);
        f.law_folded_container(header, decoy, plan, filler, c);
        let at = chunk.offset as int;
        let n = chunk.ciphertext_len as int;
        let y = crate::container::read_at(d, at + plan.shift, n);
        assert(y == crate::container::read_at(f.scratch, at, n));
        assert(crate::container::read_at(self.shredded(d), at + plan.shift, n) =~= y);
    }

    /// What was built as a decoy, saved and folded in, is what the duress
    /// password shows: the same files, with their chunks where they now lie.
    ///
    /// `built` is the decoy as it was last saved, under the real vault's
    /// identifier and cipher, with its first chunk where the region will begin.
    /// The password must not open the real wrapping; it
    /// has to give the key that wrapped the decoy's key; and what the decoy's
    /// manifest was sealed to has to open to it.
    pub proof fn law_duress_shows_what_was_built(
        self,
        built: VaultView<K>,
        scratch: Seq<u8>,
        nonce: Seq<u8>,
        plain_len: u64,
        sealed: Seq<u8>,
        own_filler: Seq<u8>,
        max: u64,
        f: FoldingView,
        header: HeaderView,
        plan: DuressPlan,
        filler: Seq<u8>,
        c: Seq<u8>,
        path: Seq<char>,
        authenticator: bool,
        h: HeaderView,
        kek: K,
        master: K,
    )
        requires
            self.noise.len() == crate::format::WRAPPED_KEY_LEN,
            built.can_save(nonce, sealed, own_filler, max),
            built.data_end >= V3_DATA_START,
            first_offset(built.manifest.entries) matches Some(x) ==> x == plan.append_at,
            built.header.vault_id == header.vault_id,
            built.header.crypto_suite == h.crypto_suite,
            f.scratch == built.saved(scratch, nonce, plain_len, sealed, None, own_filler, max),
            f.can_fold(
                header,
                built.saved_header(sealed, None, own_filler, max),
                plan,
                filler,
                c,
            ),
            header.format_version == 3,
            c.take(512) == header.head(),
            self.header(c) == Ok::<HeaderView, ErrorView>(h),
            plain_len <= self.max_manifest(c),
            self.real_key(h, authenticator) matches Ok(Err(_)),
            (self.kek)(built.header.kdf_salt, header.kdf_params, None) == Ok::<K, ErrorView>(kek),
            (self.unwrap)(
                kek,
                h.crypto_suite,
                h.crypto_suite.nonce_of(f.nonce),
                f.wrapped,
                crate::binding::decoy_binding(header.vault_id),
            ) == Ok::<(K, usize), ErrorView>((master, 32)),
            (self.manifest)(
                master,
                h.crypto_suite,
                h.crypto_suite.nonce_of(nonce),
                sealed,
                crate::binding::manifest_binding(
                    header.vault_id,
                    plain_len,
                    built.manifest.generation,
                ),
            ) matches Ok(r) && r.0 == built.manifest,
        ensures
            ({
                let d = f.container(
                    header,
                    built.saved_header(sealed, None, own_filler, max),
                    plan,
                    filler,
                    c,
                );
                let v = self.opened(d, path, authenticator).0->Opened_0;
                &&& self.opened(d, path, authenticator).0 is Opened
                &&& v.identity == Identity::Decoy
                &&& v.manifest == built.manifest
                &&& v.recorded() == built.manifest
                &&& v.master == Some(master)
                &&& self.opened(d, path, authenticator).1.len() == d.len()
            }),
    {
        let decoy = built.saved_header(sealed, None, own_filler, max);
        let d = f.container(header, decoy, plan, filler, c);
        f.law_folded_container(header, decoy, plan, filler, c);
        self.lemma_folded_header(f, header, decoy, plan, filler, c, h);
        let g = HeaderView {
            manifest_offset: decoy.manifest_offset,
            manifest_len: decoy.manifest_len,
            ..h
        };
        self.lemma_record_reads_back(
            built,
            scratch,
            nonce,
            plain_len,
            sealed,
            None,
            own_filler,
            max,
            self.max_manifest(c),
            master,
            g,
        );
        let r = self.read_manifest(f.scratch, g, master, self.max_manifest(c))->Ok_0;
        self.law_duress_opens_after_folding(
            f,
            header,
            decoy,
            plan,
            filler,
            c,
            path,
            authenticator,
            h,
            kek,
            master,
            r,
        );
        crate::manifest::lemma_placed_stays(built.manifest, plan.append_at);
    }
}

/// Moving chunks on moves the first of them on.
proof fn lemma_first_offset_slid(entries: Seq<EntryView>, by: u64)
    ensures
        first_offset(entries.map_values(|e: EntryView| e.slid(by))) == match first_offset(entries) {
            Some(x) => Some(crate::manifest::slid(x, by)),
            None => None,
        },
    decreases entries.len(),
{
    let f = |e: EntryView| e.slid(by);
    if entries.len() > 0 {
        lemma_first_offset_slid(entries.drop_last(), by);
        assert(entries.map_values(f).drop_last() =~= entries.drop_last().map_values(f));
    }
}

impl<K> VaultView<K> {
    /// The chunks begin right behind the header and the block, and none lies
    /// behind the place for the next one.
    pub open spec fn packed(self) -> bool {
        &&& match first_offset(self.manifest.entries) {
            Some(x) => x == V3_DATA_START,
            None => self.data_end == V3_DATA_START,
        }
        &&& V3_DATA_START <= self.data_end
        &&& self.manifest.lies_in(V3_DATA_START as int, self.data_end - V3_DATA_START)
    }

    /// An import into a packed vault leaves it packed.
    pub proof fn law_import_keeps_packed(
        self,
        stored_path: Seq<char>,
        object_id: Seq<u8>,
        limits: Limits,
        ps: Seq<Piece>,
        mtime: i64,
        store: CompressSuite,
    )
        requires
            self.packed(),
            self.import(stored_path, object_id, limits).takes(ps, limits.max_chunk_ciphertext),
        ensures
            self.imported(
                self.import(stored_path, object_id, limits).fed(ps),
                mtime,
                store,
            ).packed(),
    {
        let im = self.import(stored_path, object_id, limits);
        crate::vault::import_laws::law_chunks_lie_back_to_back(
            im,
            ps,
            limits.max_chunk_ciphertext,
        );
        let v = self.imported(im.fed(ps), mtime, store);
        assert(v.manifest.entries.drop_last() =~= self.manifest.entries);
        assert(ps.take(0) =~= Seq::<Piece>::empty());
        if ps.len() > 0 {
            assert(im.fed(ps).chunks[0].offset == self.data_end);
        }
        self.lemma_import_lies(
            V3_DATA_START as int,
            stored_path,
            object_id,
            limits,
            ps,
            mtime,
            store,
        );
    }

    /// A save leaves a packed vault packed.
    pub proof fn law_save_keeps_packed(self, root: Seq<u8>)
        requires
            self.packed(),
        ensures
            self.begun(root).packed(),
    {
    }

    /// In a decoy that is made ready to be folded in, the first chunk lies
    /// where the decoy region will begin, and none lies outside it.
    pub proof fn law_rebased_chunks_fill_the_region(
        self,
        vault_id: Seq<u8>,
        plan: DuressPlan,
        len: int,
    )
        requires
            self.packed(),
            plan.shift == plan.append_at - V3_DATA_START,
            crate::vault::duress::can_shift(self.manifest, plan.shift),
            self.data_end - V3_DATA_START <= len,
        ensures
            ({
                let m = self.rebased(vault_id, plan.shift).manifest;
                &&& first_offset(m.entries) matches Some(x) ==> x == plan.append_at
                &&& m.placed(plan.append_at) == m
                &&& m.lies_in(plan.append_at as int, len)
            }),
    {
        let m = self.rebased(vault_id, plan.shift).manifest;
        lemma_first_offset_slid(self.manifest.entries, plan.shift);
        crate::manifest::lemma_placed_stays(m, plan.append_at);
        assert forall|e: int, k: int|
            0 <= e < m.entries.len() && 0 <= k < m.entries[e].chunks.len() implies {
            let c = #[trigger] m.entries[e].chunks[k];
            plan.append_at <= c.offset && c.offset + c.ciphertext_len <= plan.append_at + len
        } by {
            let c = self.manifest.entries[e].chunks[k];
            assert(m.entries[e].chunks[k] == c.slid(plan.shift));
            assert(c.offset + plan.shift <= u64::MAX);
        }
    }
}

/// A vault that has just been made is packed.
pub proof fn law_new_vault_is_packed<K>(c: CreatingView, master: K, wrapped: Seq<u8>)
    ensures
        new_vault(c, master, wrapped).packed(),
{
}

} // verus!
