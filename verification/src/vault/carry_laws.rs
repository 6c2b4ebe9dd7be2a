//! How a decoy fares when the real contents are saved over and over: its region
//! is picked up and put down again, and everything in it is found where it now
//! lies.

use crate::error::ErrorView;
use crate::format::{DecoySlotView, HeaderView};
use crate::manifest::{ChunkView, EntryView, ManifestView};
use crate::suite::CompressSuite;
use crate::vault::chunk::{ChunkReaderView, ChunkWorld};
use crate::vault::duress::{DuressPlan, FoldingView};
use crate::vault::export::Made;
use crate::vault::import::Piece;
use crate::vault::keep_laws::Addition;
use crate::vault::outcome::World;
use crate::vault::verify::Assurance;
use crate::vault::{Identity, Limits, VaultView};
use vstd::prelude::*;

verus! {

broadcast use crate::le::group_le;

impl DecoySlotView {
    /// The region lies in a container in full, and holds the record of the
    /// decoy's manifest.
    pub open spec fn holds_together(self, container: Seq<u8>, max: u64) -> bool {
        &&& 0 < self.body_len < max * 8
        &&& self.body_offset + self.body_len <= container.len()
        &&& self.body_offset <= self.manifest_offset
        &&& self.manifest_offset + crate::frame::frame_reach(self.manifest_len) <= self.body_offset
            + self.body_len
    }

    /// What is picked up.
    pub open spec fn body(self, container: Seq<u8>) -> Seq<u8> {
        container.subrange(self.body_offset as int, self.body_offset + self.body_len)
    }
}

/// Chunks that lie in a region lie in it as deep when it is moved.
proof fn lemma_placed_lies(m: ManifestView, from: u64, to: u64, len: int)
    requires
        from + len <= u64::MAX,
        to + len <= u64::MAX,
        m.placed(from).lies_in(from as int, len),
    ensures
        m.placed(to).lies_in(to as int, len),
        m.placed(to).entries.len() == m.entries.len(),
        forall|e: int|
            0 <= e < m.entries.len() ==> #[trigger] m.placed(to).entries[e] == m.entries[e].slid(
                m.lag(to),
            ),
        forall|e: int, k: int|
            0 <= e < m.entries.len() && 0 <= k < m.entries[e].chunks.len()
                ==> (#[trigger] m.placed(to).entries[e].chunks[k]).offset - to == m.placed(
                from,
            ).entries[e].chunks[k].offset - from,
{
    let a = m.placed(from);
    let b = m.placed(to);
    assert forall|e: int, k: int|
        0 <= e < m.entries.len() && 0 <= k < m.entries[e].chunks.len() implies (
    #[trigger] b.entries[e].chunks[k]).offset - to == a.entries[e].chunks[k].offset - from by {
        let x = m.entries[e].chunks[k].offset;
        assert(a.entries[e].chunks[k].offset == crate::manifest::slid(x, m.lag(from)));
        assert(b.entries[e].chunks[k].offset == crate::manifest::slid(x, m.lag(to)));
        assert(from <= a.entries[e].chunks[k].offset <= from + len);
        if crate::manifest::first_offset(m.entries) is None {
            lemma_no_first(m.entries, e);
        }
    }
}

/// Where there is no first chunk there is no chunk.
pub proof fn lemma_no_first(entries: Seq<crate::manifest::EntryView>, e: int)
    requires
        crate::manifest::first_offset(entries) is None,
        0 <= e < entries.len(),
    ensures
        entries[e].chunks.len() == 0,
    decreases entries.len(),
{
    if e < entries.len() - 1 {
        lemma_no_first(entries.drop_last(), e);
    }
}

impl<K> World<K> {
    /// A save carries the decoy along: the same duress password opens the
    /// same slot, and finds the same manifest, where the region now lies; and
    /// every chunk is found where opening the decoy then places it. The
    /// region has to be what was read from the container `before` anything was
    /// written, and to hold the decoy's manifest and chunks; what was written
    /// since, such as the chunks of an import, may have run over it.
    ///
    /// It holds together as before in the container that was saved, so that
    /// the next save carries it just as well.
    pub proof fn law_save_keeps_the_decoy(
        self,
        v: VaultView<K>,
        before: Seq<u8>,
        c: Seq<u8>,
        nonce: Seq<u8>,
        plain_len: u64,
        sealed: Seq<u8>,
        filler: Seq<u8>,
        max: u64,
        key: K,
        shred: Seq<u8>,
        r: (ManifestView, Seq<u8>),
    )
        requires
            v.can_save(nonce, sealed, filler, max),
            v.header.slot() matches Some(s) && {
                &&& s.holds_together(before, max)
                &&& r.0.placed(s.body_offset).lies_in(s.body_offset as int, s.body_len as int)
            },
            before.len() <= u64::MAX,
            self.duress_key(v.header) == Ok::<Option<K>, ErrorView>(Some(key)),
            self.read_manifest(
                before,
                crate::vault::open::decoy_header(v.header, shred),
                key,
                max,
            ) == Ok::<(ManifestView, Seq<u8>), ErrorView>(r),
        ensures
            ({
                let s = v.header.slot()->0;
                let body = s.body(before);
                let h = v.saved_header(sealed, Some(body), filler, max);
                let d = v.saved(c, nonce, plain_len, sealed, Some(body), filler, max);
                let t = h.slot()->0;
                let m = r.0.placed(t.body_offset);
                &&& self.duress_key(h) == Ok::<Option<K>, ErrorView>(Some(key))
                &&& self.read_manifest(
                    d,
                    crate::vault::open::decoy_header(h, shred),
                    key,
                    max,
                ) == Ok::<(ManifestView, Seq<u8>), ErrorView>(r)
                &&& h.slot() == Some(crate::vault::save::moved(s, v.frame_end(sealed) as u64))
                &&& t.holds_together(d, max)
                &&& m.lies_in(t.body_offset as int, t.body_len as int)
                &&& d.len() <= u64::MAX
                &&& forall|e: int, k: int|
                    0 <= e < r.0.entries.len() && 0 <= k < r.0.entries[e].chunks.len()
                        ==> crate::container::read_at(
                        d,
                        (#[trigger] m.entries[e].chunks[k]).offset as int,
                        m.entries[e].chunks[k].ciphertext_len as int,
                    ) == crate::container::read_at(
                        before,
                        r.0.placed(s.body_offset).entries[e].chunks[k].offset as int,
                        r.0.entries[e].chunks[k].ciphertext_len as int,
                    )
            }),
    {
        let s = v.header.slot()->0;
        let body = s.body(before);
        let h = v.saved_header(sealed, Some(body), filler, max);
        let d = v.saved(c, nonce, plain_len, sealed, Some(body), filler, max);
        let end = v.frame_end(sealed);
        let t = crate::vault::save::moved(s, end as u64);
        v.law_saved_container(c, nonce, plain_len, sealed, Some(body), filler, max);
        assert(crate::vault::save::kept(v.header, Some(body), max) == Some(s));
        crate::format::law_decoy_slot_round_trips(t, filler);
        assert(h.slot() == Some(t));
        let from = s.manifest_offset as int;
        let to = t.manifest_offset as int;
        let reach = crate::frame::frame_reach(s.manifest_len) as int;
        assert(from + end - s.body_offset < 0x1_0000_0000_0000_0000);
        assert(to == from + end - s.body_offset);
        assert forall|at: int, n: int|
            s.body_offset <= at && 0 <= n && at + n <= s.body_offset
                + s.body_len implies #[trigger] crate::container::read_at(before, at, n)
            == crate::container::read_at(d, at + end - s.body_offset, n) by {
            let x = crate::container::read_at(before, at, n);
            let y = crate::container::read_at(d, at + end - s.body_offset, n);
            assert(x.len() == n && y.len() == n);
            assert forall|i: int| 0 <= i < n implies x[i] == y[i] by {
                let k = at - s.body_offset + i;
                assert(body[k] == before[s.body_offset + k]);
                assert(d.subrange(end, end + s.body_len)[k] == body[k]);
            }
            assert(x =~= y);
        }
        assert(crate::container::read_at(before, from, reach) == crate::container::read_at(
            d,
            to,
            reach,
        ));
        lemma_placed_lies(r.0, s.body_offset, t.body_offset, s.body_len as int);
        let m = r.0.placed(t.body_offset);
        let l = r.0.placed(s.body_offset);
        assert forall|e: int, k: int|
            0 <= e < r.0.entries.len() && 0 <= k
                < r.0.entries[e].chunks.len() implies crate::container::read_at(
            d,
            (#[trigger] m.entries[e].chunks[k]).offset as int,
            m.entries[e].chunks[k].ciphertext_len as int,
        ) == crate::container::read_at(
            before,
            l.entries[e].chunks[k].offset as int,
            r.0.entries[e].chunks[k].ciphertext_len as int,
        ) by {
            let p = l.entries[e].chunks[k];
            let q = m.entries[e].chunks[k];
            assert(p.ciphertext_len == r.0.entries[e].chunks[k].ciphertext_len);
            assert(q.ciphertext_len == p.ciphertext_len);
            assert(q.offset == p.offset + end - s.body_offset);
            assert(crate::container::read_at(before, p.offset as int, p.ciphertext_len as int)
                == crate::container::read_at(
                d,
                p.offset + end - s.body_offset,
                p.ciphertext_len as int,
            ));
        }
    }

    /// After a save of the real contents the duress password still opens the
    /// decoy, with all of its files, and every chunk of them reads as it did
    /// `before`. The decoy is as intact as it was: its integrity root is the
    /// one that was sealed, and the manifest that it speaks of is the one that
    /// was sealed.
    ///
    /// `shown` is the decoy as it was shown before. The registries have to
    /// accept the header, and the password must not open the real wrapping.
    pub proof fn law_decoy_opens_after_a_save(
        self,
        v: VaultView<K>,
        before: Seq<u8>,
        c: Seq<u8>,
        nonce: Seq<u8>,
        plain_len: u64,
        sealed: Seq<u8>,
        filler: Seq<u8>,
        max: u64,
        key: K,
        r: (ManifestView, Seq<u8>),
        path: Seq<char>,
        authenticator: bool,
        shown: VaultView<K>,
        w: ChunkWorld,
        store: CompressSuite,
        limit: u32,
    )
        requires
            self.noise.len() == crate::format::WRAPPED_KEY_LEN,
            v.can_save(nonce, sealed, filler, max),
            v.orderly(),
            v.header.slot() matches Some(s) && {
                &&& s.holds_together(before, max)
                &&& r.0.placed(s.body_offset).lies_in(s.body_offset as int, s.body_len as int)
                &&& shown.manifest == r.0.placed(s.body_offset)
            },
            before.len() <= u64::MAX,
            shown.header.crypto_suite == v.header.crypto_suite,
            self.duress_key(v.header) == Ok::<Option<K>, ErrorView>(Some(key)),
            self.read_manifest(
                before,
                crate::vault::open::decoy_header(v.header, self.noise),
                key,
                max,
            ) == Ok::<(ManifestView, Seq<u8>), ErrorView>(r),
            ({
                let body = v.header.slot()->0.body(before);
                let h = v.saved_header(sealed, Some(body), filler, max);
                let d = v.saved(c, nonce, plain_len, sealed, Some(body), filler, max);
                let j = (self.judge)(
                    crate::format::probe_of(crate::container::read_at(d, 0, 512)),
                );
                &&& crate::format::accepts(j, h)
                &&& j.max_manifest_bytes == max
                &&& self.real_key(h.frozen(), authenticator) matches Ok(Err(_))
            }),
        ensures
            ({
                let body = v.header.slot()->0.body(before);
                let d = v.saved(c, nonce, plain_len, sealed, Some(body), filler, max);
                let (step, after) = self.opened(d, path, authenticator);
                let u = step->Opened_0;
                &&& step is Opened
                &&& u.identity == Identity::Decoy
                &&& u.master == Some(key)
                &&& u.recorded() == r.0
                &&& u.header.crypto_suite == shown.header.crypto_suite
                &&& u.header.integrity_root == r.0.integrity_root
                &&& u.manifest.integrity_root == r.0.integrity_root
                &&& r.1 == r.0.integrity_root ==> forall|p: u64, q: u64|
                    (#[trigger] u.report(r.1, p, q)).integrity_root_matches == Assurance::Verified
                &&& u.manifest.entries.len() == shown.manifest.entries.len()
                &&& forall|e: int|
                    0 <= e < u.manifest.entries.len() ==> {
                        let x = #[trigger] u.manifest.entries[e];
                        let y = shown.manifest.entries[e];
                        &&& x == (EntryView { chunks: x.chunks, ..y })
                        &&& x.chunks.len() == y.chunks.len()
                    }
                &&& forall|e: int, ps: Seq<Piece>| #[trigger]
                    shown.keeps(e, ps, before) ==> u.keeps(e, ps, after)
                &&& forall|e: int, k: int|
                    0 <= e < u.manifest.entries.len() && 0 <= k < u.manifest.entries[e].chunks.len()
                        ==> (ChunkWorld { container: after, ..w }).outcome(
                        #[trigger] u.chunk_reader(e, k, store),
                        limit,
                    ) == (ChunkWorld { container: before, ..w }).outcome(
                        shown.chunk_reader(e, k, store),
                        limit,
                    )
            }),
    {
        let s = v.header.slot()->0;
        let body = s.body(before);
        let h = v.saved_header(sealed, Some(body), filler, max);
        let d = v.saved(c, nonce, plain_len, sealed, Some(body), filler, max);
        let g = h.frozen();
        v.law_saved_container(c, nonce, plain_len, sealed, Some(body), filler, max);
        v.lemma_saved_header(sealed, Some(body), filler, max);
        self.lemma_header_reads_back(v, c, nonce, plain_len, sealed, Some(body), filler, max, d);
        self.law_save_keeps_the_decoy(
            v,
            before,
            c,
            nonce,
            plain_len,
            sealed,
            filler,
            max,
            key,
            self.noise,
            r,
        );
        let t = h.slot()->0;
        let after = self.shredded(d);
        let at = t.manifest_offset as int;
        let reach = crate::frame::frame_reach(t.manifest_len) as int;
        assert(self.duress_key(g) == self.duress_key(h));
        assert(forall|i: int| 512 <= i < d.len() ==> after[i] == d[i]);
        assert(after.len() == d.len());
        assert(crate::container::read_at(d, at, reach) =~= crate::container::read_at(
            after,
            at,
            reach,
        ));
        assert(self.read_manifest(
            after,
            crate::vault::open::decoy_header(g, self.noise),
            key,
            max,
        ) == Ok::<(ManifestView, Seq<u8>), ErrorView>(r));
        assert(self.opened(d, path, authenticator) == self.fired(d, path, g, key));
        let u = self.opened(d, path, authenticator).0->Opened_0;
        assert(u.manifest == r.0.placed(t.body_offset));
        crate::manifest::lemma_slid_back(r.0, r.0.lag(t.body_offset));
        lemma_placed_lies(r.0, s.body_offset, t.body_offset, s.body_len as int);
        assert forall|e: int, k: int|
            0 <= e < u.manifest.entries.len() && 0 <= k
                < u.manifest.entries[e].chunks.len() implies (ChunkWorld {
            container: after,
            ..w
        }).outcome(#[trigger] u.chunk_reader(e, k, store), limit) == (ChunkWorld {
            container: before,
            ..w
        }).outcome(shown.chunk_reader(e, k, store), limit) by {
            let q = u.manifest.entries[e].chunks[k];
            let p = shown.manifest.entries[e].chunks[k];
            let n = q.ciphertext_len as int;
            assert(crate::container::read_at(d, q.offset as int, n)
                =~= crate::container::read_at(after, q.offset as int, n));
            (ChunkWorld { container: before, ..w }).law_moved_chunk_reads_the_same(
                after,
                shown.chunk_reader(e, k, store),
                q.offset,
                limit,
            );
            assert(u.chunk_reader(e, k, store) == (ChunkReaderView {
                chunk: ChunkView { offset: q.offset, ..p },
                ..shown.chunk_reader(e, k, store)
            }));
        }
        assert forall|e: int, ps: Seq<Piece>| #[trigger]
            shown.keeps(e, ps, before) implies u.keeps(e, ps, after) by {
            assert forall|i: int| 0 <= i < ps.len() implies {
                let k = #[trigger] u.manifest.entries[e].chunks[i];
                &&& k.ciphertext_len == ps[i].sealed.len()
                &&& k.plaintext_len == ps[i].plain_len
                &&& k.hash == ps[i].hash
                &&& crate::container::read_at(after, k.offset as int, ps[i].sealed.len() as int)
                    == ps[i].sealed
            } by {
                let q = u.manifest.entries[e].chunks[i];
                let p = shown.manifest.entries[e].chunks[i];
                let n = q.ciphertext_len as int;
                assert(q == (ChunkView { offset: q.offset, ..p }));
                assert(crate::container::read_at(d, q.offset as int, n)
                    =~= crate::container::read_at(after, q.offset as int, n));
            }
        }
    }

    /// A save through a handle that the duress password opened, here one that
    /// follows an import, leaves the decoy as it was: the slot keeps pointing
    /// at the decoy that was installed, so the next duress open shows the
    /// files that it held before, each as it was, and not the one that was
    /// imported.
    pub proof fn law_decoy_is_shown_as_it_was_installed(
        self,
        c: Seq<u8>,
        path: Seq<char>,
        authenticator: bool,
        a: Addition,
        limits: Limits,
        w: ChunkWorld,
        store: CompressSuite,
    )
        requires
            self.noise.len() == crate::format::WRAPPED_KEY_LEN,
            self.opened(c, path, authenticator).0 is Opened,
            self.opened(c, path, authenticator).0->Opened_0.identity == Identity::Decoy,
            c.len() <= u64::MAX,
            self.max_manifest(c) == limits.max_manifest_bytes,
            ({
                let u = self.opened(c, path, authenticator).0->Opened_0;
                let before = self.opened(c, path, authenticator).1;
                let s = u.header.slot()->0;
                let d = u.container_with(a, limits, before);
                let h = u.added(a, limits).header;
                let j = (self.judge)(
                    crate::format::probe_of(crate::container::read_at(d, 0, 512)),
                );
                &&& s.holds_together(before, limits.max_manifest_bytes)
                &&& u.manifest.lies_in(s.body_offset as int, s.body_len as int)
                &&& u.goes_through(a, limits)
                &&& a.carried == Some(s.body(before))
                &&& crate::format::accepts(j, h)
                &&& j.max_manifest_bytes == limits.max_manifest_bytes
                &&& self.real_key(h.frozen(), authenticator) matches Ok(Err(_))
            }),
        ensures
            ({
                let u = self.opened(c, path, authenticator).0->Opened_0;
                let before = self.opened(c, path, authenticator).1;
                let d = u.container_with(a, limits, before);
                let (step, after) = self.opened(d, path, authenticator);
                let t = step->Opened_0;
                &&& step is Opened
                &&& t.identity == Identity::Decoy
                &&& t.master == u.master
                &&& t.recorded() == u.recorded()
                &&& t.manifest.entries.len() == u.manifest.entries.len()
                &&& u.added(a, limits).manifest.entries.len() == u.manifest.entries.len() + 1
                &&& forall|e: int|
                    0 <= e < t.manifest.entries.len() ==> {
                        let x = #[trigger] t.manifest.entries[e];
                        let y = u.manifest.entries[e];
                        &&& x == (EntryView { chunks: x.chunks, ..y })
                        &&& x.chunks.len() == y.chunks.len()
                    }
                &&& forall|e: int, ps: Seq<Piece>| #[trigger]
                    u.keeps(e, ps, before) ==> t.keeps(e, ps, after)
                &&& forall|e: int, k: int|
                    0 <= e < t.manifest.entries.len() && 0 <= k < t.manifest.entries[e].chunks.len()
                        ==> (ChunkWorld { container: after, ..w }).outcome(
                        #[trigger] t.chunk_reader(e, k, store),
                        limits.max_chunk_ciphertext,
                    ) == (ChunkWorld { container: before, ..w }).outcome(
                        u.chunk_reader(e, k, store),
                        limits.max_chunk_ciphertext,
                    )
            }),
    {
        let u = self.opened(c, path, authenticator).0->Opened_0;
        let before = self.opened(c, path, authenticator).1;
        let h = self.header(c)->Ok_0;
        let key = self.duress_key(h)->Ok_0->0;
        let max = limits.max_manifest_bytes;
        let at = h.slot()->0.body_offset;
        let v = u.adding(a, limits);
        assert(self.opened(c, path, authenticator) == self.fired(c, path, h, key));
        let r = self.read_manifest(
            before,
            crate::vault::open::decoy_header(h, self.noise),
            key,
            max,
        )->Ok_0;
        crate::manifest::lemma_slid_back(r.0, r.0.lag(at));
        assert(u.manifest == r.0.placed(at));
        assert(u.recorded() == r.0);
        assert(self.duress_key(v.header) == self.duress_key(h));
        assert(before.len() == c.len());
        assert(v.orderly());
        self.law_decoy_opens_after_a_save(
            v,
            before,
            crate::container::applied(
                before,
                u.import(a.stored_path, a.object_id, limits).writes(a.pieces),
            ),
            a.nonce,
            a.plain_len,
            a.sealed,
            a.filler,
            max,
            key,
            r,
            path,
            authenticator,
            u,
            w,
            store,
            limits.max_chunk_ciphertext,
        );
    }
}

/// A duress password as it was installed: the decoy as it was built, and the
/// container it was built in; the last save of it; and how it was folded into
/// a real container `c` with header `header`.
pub struct Installed<K> {
    pub built: VaultView<K>,
    pub base: Seq<u8>,
    pub root: Seq<u8>,
    pub nonce: Seq<u8>,
    pub plain_len: u64,
    pub sealed: Seq<u8>,
    pub own_filler: Seq<u8>,
    pub folding: FoldingView,
    pub header: HeaderView,
    pub plan: DuressPlan,
    pub filler: Seq<u8>,
    pub c: Seq<u8>,
    /// The key that wraps the decoy's key, and the decoy's key.
    pub kek: K,
    pub master: K,
}

impl<K> Installed<K> {
    /// The decoy, made ready to be folded in, while it is being saved.
    pub open spec fn ready(self) -> VaultView<K> {
        self.built.rebased(self.header.vault_id, self.plan.shift).begun(self.root)
    }

    /// The decoy's header after that save.
    pub open spec fn last(self, max: u64) -> HeaderView {
        self.ready().saved_header(self.sealed, None, self.own_filler, max)
    }

    /// The real container with the decoy in it.
    pub open spec fn container(self, max: u64) -> Seq<u8> {
        self.folding.container(self.header, self.last(max), self.plan, self.filler, self.c)
    }

    /// Nothing was refused on the way.
    pub open spec fn wf(self, max: u64) -> bool {
        &&& self.built.packed()
        &&& self.built.header.decoy is Some
        &&& crate::vault::duress::can_shift(self.built.manifest, self.plan.shift)
        &&& self.ready().can_save(self.nonce, self.sealed, self.own_filler, max)
        &&& self.folding.scratch == self.ready().saved(
            self.base,
            self.nonce,
            self.plain_len,
            self.sealed,
            None,
            self.own_filler,
            max,
        )
        &&& self.folding.can_fold(self.header, self.last(max), self.plan, self.filler, self.c)
        &&& self.folding.body().len() < max * 8
        &&& self.container(max).len() <= u64::MAX
        &&& self.header.format_version == 3
        &&& self.c.take(512) == self.header.head()
    }
}

impl<K> World<K> {
    /// A password is the duress password that was installed: it does not open
    /// the real wrapping; it gives the key that wrapped the decoy's key; and
    /// what the decoy's manifest was sealed to opens to it.
    pub open spec fn is_duress(self, x: Installed<K>, max: u64, authenticator: bool) -> bool {
        let h = self.header(x.c)->Ok_0;
        &&& self.header(x.c) is Ok
        &&& self.max_manifest(x.c) == max
        &&& x.plain_len <= max
        &&& x.built.header.crypto_suite == h.crypto_suite
        &&& self.real_key(h, authenticator) matches Ok(Err(_))
        &&& (self.kek)(x.built.header.kdf_salt, x.header.kdf_params, None) == Ok::<K, ErrorView>(
            x.kek,
        )
        &&& (self.unwrap)(
            x.kek,
            h.crypto_suite,
            h.crypto_suite.nonce_of(x.folding.nonce),
            x.folding.wrapped,
            crate::binding::decoy_binding(x.header.vault_id),
        ) == Ok::<(K, usize), ErrorView>((x.master, 32))
        &&& (self.manifest)(
            x.master,
            h.crypto_suite,
            h.crypto_suite.nonce_of(x.nonce),
            x.sealed,
            crate::binding::manifest_binding(
                x.header.vault_id,
                x.plain_len,
                x.ready().manifest.generation,
            ),
        ) matches Ok(r) && r.0 == x.ready().manifest
    }

    /// What the installed decoy keeps in the real container.
    proof fn lemma_installed_keeps(
        self,
        x: Installed<K>,
        max: u64,
        entry: int,
        ps: Seq<Piece>,
    )
        requires
            x.wf(max),
            x.built.keeps(entry, ps, x.base),
        ensures
            x.ready().keeps(entry, ps, x.container(max)),
    {
        let ready = x.ready();
        ready.law_saved_container(
            x.base,
            x.nonce,
            x.plain_len,
            x.sealed,
            None,
            x.own_filler,
            max,
        );
        let still = VaultView {
            manifest: ManifestView { entries: x.built.manifest.entries, ..ready.manifest },
            ..ready
        };
        crate::format::lemma_image_len(ready.header);
        assert(still.filled());
        assert(still.keeps(entry, ps, x.base));
        still.law_save_keeps_entries(
            x.base,
            x.nonce,
            x.plain_len,
            x.sealed,
            None,
            x.own_filler,
            max,
            entry,
            ps,
        );
        assert(still.save_ops(x.nonce, x.plain_len, x.sealed, None, x.own_filler, max)
            =~= ready.save_ops(x.nonce, x.plain_len, x.sealed, None, x.own_filler, max));
        assert(x.built.keeps(entry, ps, x.folding.scratch));
        x.built.law_folded_decoy_keeps_entries(
            x.folding,
            x.header,
            x.last(max),
            x.plan,
            x.filler,
            x.c,
            x.header.vault_id,
            entry,
            ps,
        );
    }

    /// What the duress password finds in the real container, before anything
    /// is overwritten.
    proof fn lemma_installed_opens(
        self,
        x: Installed<K>,
        max: u64,
        path: Seq<char>,
        authenticator: bool,
    ) -> (r: (ManifestView, Seq<u8>))
        requires
            self.noise.len() == crate::format::WRAPPED_KEY_LEN,
            x.wf(max),
            self.is_duress(x, max, authenticator),
        ensures
            ({
                let d = x.container(max);
                let g = self.header(d)->Ok_0;
                let s = g.slot()->0;
                &&& self.header(d) is Ok
                &&& g.slot() is Some
                &&& g.crypto_suite == x.built.header.crypto_suite
                &&& s.holds_together(d, max)
                &&& s.body(d) == x.folding.body()
                &&& self.duress_key(g) == Ok::<Option<K>, ErrorView>(Some(x.master))
                &&& self.read_manifest(
                    d,
                    crate::vault::open::decoy_header(g, self.noise),
                    x.master,
                    max,
                ) == Ok::<(ManifestView, Seq<u8>), ErrorView>(r)
                &&& r.0 == x.ready().manifest
                &&& r.0.placed(s.body_offset) == r.0
                &&& r.0.lies_in(s.body_offset as int, s.body_len as int)
            }),
    {
        let ready = x.ready();
        let d = x.container(max);
        let h = self.header(x.c)->Ok_0;
        let f = x.folding;
        let n = f.body().len() as int;
        ready.law_saved_container(
            x.base,
            x.nonce,
            x.plain_len,
            x.sealed,
            None,
            x.own_filler,
            max,
        );
        f.law_folded_container(x.header, x.last(max), x.plan, x.filler, x.c);
        f.law_folded_region_holds_together(x.header, x.last(max), x.plan, x.filler, x.c, max);
        self.lemma_folded_header(f, x.header, x.last(max), x.plan, x.filler, x.c, h);
        x.built.law_rebased_chunks_fill_the_region(x.header.vault_id, x.plan, n);
        self.law_duress_shows_what_was_built(
            ready,
            x.base,
            x.nonce,
            x.plain_len,
            x.sealed,
            x.own_filler,
            max,
            f,
            x.header,
            x.plan,
            x.filler,
            x.c,
            path,
            authenticator,
            h,
            x.kek,
            x.master,
        );
        let g = self.header(d)->Ok_0;
        let s = g.slot()->0;
        assert(s == f.slot(x.last(max), x.plan));
        assert(self.real_key(h, authenticator) == self.real_key(g, authenticator));
        assert(self.opened(d, path, authenticator) == self.fired(d, path, g, x.master));
        let r = self.read_manifest(
            self.shredded(d),
            crate::vault::open::decoy_header(g, self.noise),
            x.master,
            max,
        )->Ok_0;
        crate::manifest::lemma_slid_back(r.0, r.0.lag(s.body_offset));
        assert(r.0 == ready.manifest);
        crate::manifest::lemma_placed_stays(ready.manifest, s.body_offset);
        let at = s.manifest_offset as int;
        let reach = crate::frame::frame_reach(s.manifest_len) as int;
        assert(crate::container::read_at(d, at, reach) =~= crate::container::read_at(
            self.shredded(d),
            at,
            reach,
        ));
        r
    }

    /// A decoy survives what happens to the real contents after it was
    /// installed: a file is imported into them, and the save that follows
    /// carries the decoy along. After that the duress password opens the decoy,
    /// with the entries that were built, and each of them is exported as the
    /// file that it was made from.
    ///
    /// `v` is a handle on the real contents, with the header as it is read from
    /// the container into which the decoy was installed. The registries have to
    /// accept the header after the import, and the duress password still must
    /// not open the real wrapping. For entry `index`, made of `ps`, the ciphers
    /// and the compression have to undo what they did.
    pub proof fn law_decoy_survives_an_import(
        self,
        x: Installed<K>,
        v: VaultView<K>,
        a: Addition,
        limits: Limits,
        path: Seq<char>,
        authenticator: bool,
        index: usize,
        ps: Seq<Piece>,
        made: Seq<Made>,
        w: ChunkWorld,
        store: CompressSuite,
    )
        requires
            self.noise.len() == crate::format::WRAPPED_KEY_LEN,
            x.wf(limits.max_manifest_bytes),
            self.is_duress(x, limits.max_manifest_bytes, authenticator),
            ({
                let max = limits.max_manifest_bytes;
                let d = x.container(max);
                let e = v.container_with(a, limits, d);
                let g = v.added(a, limits).header;
                let j = (self.judge)(
                    crate::format::probe_of(crate::container::read_at(e, 0, 512)),
                );
                &&& v.header == self.header(d)->Ok_0
                &&& v.goes_through(a, limits)
                &&& a.carried == Some(x.folding.body())
                &&& crate::format::accepts(j, g)
                &&& j.max_manifest_bytes == max
                &&& self.real_key(g.frozen(), authenticator) matches Ok(Err(_))
                &&& w.container == self.opened(e, path, authenticator).1
            }),
            x.built.keeps(index as int, ps, x.base),
            crate::paths::sanitized(
                x.built.manifest.entries[index as int].path,
                limits.max_path_depth,
            ) is Ok,
            made.len() == ps.len() <= usize::MAX,
            forall|i: int|
                0 <= i < ps.len() ==> (#[trigger] ps[i]).sealed.len()
                    <= limits.max_chunk_ciphertext,
            forall|i: int|
                0 <= i < ps.len() ==> (#[trigger] made[i]).undone(
                    w,
                    x.built.chunk_reader(index as int, i, store),
                    ps[i],
                ),
        ensures
            ({
                let d = x.container(limits.max_manifest_bytes);
                let e = v.container_with(a, limits, d);
                let step = self.opened(e, path, authenticator).0;
                let u = step->Opened_0;
                &&& step is Opened
                &&& u.identity == Identity::Decoy
                &&& u.master == Some(x.master)
                &&& u.recorded() == x.ready().manifest
                &&& u.manifest.entries.len() == x.built.manifest.entries.len()
                &&& forall|k: int|
                    0 <= k < u.manifest.entries.len() ==> {
                        let y = #[trigger] u.manifest.entries[k];
                        let z = x.built.manifest.entries[k];
                        &&& y == (EntryView { chunks: y.chunks, ..z })
                        &&& y.chunks.len() == z.chunks.len()
                    }
                &&& u.exports_as(index, made, w, store, limits)
            }),
    {
        let max = limits.max_manifest_bytes;
        let d = x.container(max);
        let e = v.container_with(a, limits, d);
        let g = self.header(d)->Ok_0;
        let r = self.lemma_installed_opens(x, max, path, authenticator);
        self.lemma_installed_keeps(x, max, index as int, ps);
        let shown = VaultView { header: g, ..x.ready() };
        assert(v.adding(a, limits).orderly());
        self.law_decoy_opens_after_a_save(
            v.adding(a, limits),
            d,
            crate::container::applied(
                d,
                v.import(a.stored_path, a.object_id, limits).writes(a.pieces),
            ),
            a.nonce,
            a.plain_len,
            a.sealed,
            a.filler,
            max,
            x.master,
            r,
            path,
            authenticator,
            shown,
            w,
            store,
            limits.max_chunk_ciphertext,
        );
        let u = self.opened(e, path, authenticator).0->Opened_0;
        assert(shown.keeps(index as int, ps, d));
        assert(u.keeps(index as int, ps, w.container));
        assert(forall|k: int|
            0 <= k < x.built.manifest.entries.len() ==> #[trigger] shown.manifest.entries[k]
                == x.built.manifest.entries[k].slid(x.plan.shift));
        assert forall|i: int| 0 <= i < ps.len() implies (#[trigger] made[i]).undone(
            w,
            u.chunk_reader(index as int, i, store),
            ps[i],
        ) by {
            assert(made[i].undone(w, x.built.chunk_reader(index as int, i, store), ps[i]));
            assert(u.manifest.entries[index as int].chunks[i].plaintext_len == ps[i].plain_len);
            assert(x.built.manifest.entries[index as int].chunks[i].plaintext_len
                == ps[i].plain_len);
        }
        u.law_kept_entry_exports(index, ps, made, w, store, limits);
    }
}

} // verus!
