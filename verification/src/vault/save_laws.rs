//! What a save leaves in the container, and what an open makes of it.

use crate::container::OpView;
use crate::error::ErrorView;
use crate::format::HeaderView;
use crate::frame::FrameView;
use crate::manifest::ManifestView;
use crate::vault::open::StepView;
use crate::vault::outcome::World;
use crate::vault::{Identity, VaultView};
use vstd::prelude::*;

verus! {

broadcast use crate::le::group_le;

impl<K> VaultView<K> {
    /// The container after a save.
    pub open spec fn saved(
        self,
        c: Seq<u8>,
        nonce: Seq<u8>,
        plain_len: u64,
        sealed: Seq<u8>,
        carried: Option<Seq<u8>>,
        filler: Seq<u8>,
        max: u64,
    ) -> Seq<u8> {
        crate::container::applied(
            c,
            self.save_ops(nonce, plain_len, sealed, carried, filler, max),
        )
    }

    /// A save that is not refused, into a container whose chunks begin behind
    /// the header and the decoy block.
    pub open spec fn can_save(
        self,
        nonce: Seq<u8>,
        sealed: Seq<u8>,
        filler: Seq<u8>,
        max: u64,
    ) -> bool {
        &&& self.wf()
        &&& self.save_refusal(sealed, max) is None
        &&& self.data_end >= self.header.head().len()
        &&& nonce.len() == 24
        &&& filler.len() == crate::format::DECOY_FILLER_LEN
        &&& max <= 0x100_0000_0000_0000
    }

    /// The header and its block have the same length before and after a save.
    pub proof fn lemma_saved_header(
        self,
        sealed: Seq<u8>,
        carried: Option<Seq<u8>>,
        filler: Seq<u8>,
        max: u64,
    )
        requires
            self.wf(),
            filler.len() == crate::format::DECOY_FILLER_LEN,
        ensures
            self.saved_header(sealed, carried, filler, max).wf(),
            self.saved_header(sealed, carried, filler, max).head().len()
                == self.header.head().len(),
            self.header.head().len() == if self.header.decoy is Some {
                512nat
            } else {
                256
            },
    {
        crate::format::lemma_image_len(self.header);
        let h = self.saved_header(sealed, carried, filler, max);
        if let Some(s) = crate::vault::save::kept(self.header, carried, max) {
            assert(s.wf());
        }
        crate::format::lemma_image_len(h);
    }

    /// What the container holds after a save: the header and its block at the
    /// start, the chunks as they were, the record of the manifest, and the
    /// carried region behind it. Nothing else.
    pub proof fn law_saved_container(
        self,
        c: Seq<u8>,
        nonce: Seq<u8>,
        plain_len: u64,
        sealed: Seq<u8>,
        carried: Option<Seq<u8>>,
        filler: Seq<u8>,
        max: u64,
    )
        requires
            self.can_save(nonce, sealed, filler, max),
        ensures
            ({
                let d = self.saved(c, nonce, plain_len, sealed, carried, filler, max);
                let h = self.saved_header(sealed, carried, filler, max);
                let n = h.head().len() as int;
                let end = self.frame_end(sealed);
                &&& d.len() == self.saved_len(sealed, carried, max)
                &&& d.take(n) == h.head()
                &&& forall|i: int| n <= i < self.data_end && i < c.len() ==> d[i] == c[i]
                &&& d.subrange(self.data_end as int, end) == self.frame(
                    nonce,
                    plain_len,
                    sealed,
                ).image()
                &&& crate::vault::save::kept(self.header, carried, max) matches Some(s) ==> d.subrange(
                    end,
                    end + s.body_len,
                ) == carried->0
            }),
    {
        let h = self.saved_header(sealed, carried, filler, max);
        let f = self.frame(nonce, plain_len, sealed);
        let end = self.frame_end(sealed);
        let last = self.saved_len(sealed, carried, max);
        let n = h.head().len() as int;
        self.lemma_saved_header(sealed, carried, filler, max);
        assert(f.image().len() == 40 + sealed.len());
        let ops = self.save_ops(nonce, plain_len, sealed, carried, filler, max);
        let one = crate::container::written(c, self.data_end as int, f.image());
        reveal_with_fuel(crate::container::applied, 5);
        assert(ops.len() == 3 || ops.len() == 4);
        let d = self.saved(c, nonce, plain_len, sealed, carried, filler, max);
        if let Some(s) = crate::vault::save::kept(self.header, carried, max) {
            let two = crate::container::written(one, end, carried->0);
            let three = crate::container::resized(two, last);
            assert(ops.drop_last().drop_last().drop_last() =~= seq![ops[0]]);
            assert(ops.drop_last().drop_last() =~= seq![ops[0], ops[1]]);
            assert(ops.drop_last() =~= seq![ops[0], ops[1], ops[2]]);
            assert(seq![ops[0]].drop_last() =~= Seq::<OpView>::empty());
            assert(d == crate::container::written(three, 0, h.head()));
            assert(d.subrange(end, end + s.body_len) =~= carried->0);
        } else {
            let three = crate::container::resized(one, last);
            assert(ops.drop_last().drop_last() =~= seq![ops[0]]);
            assert(ops.drop_last() =~= seq![ops[0], ops[1]]);
            assert(seq![ops[0]].drop_last() =~= Seq::<OpView>::empty());
            assert(d == crate::container::written(three, 0, h.head()));
        }
        assert(d.take(n) =~= h.head());
        assert(d.subrange(self.data_end as int, end) =~= f.image());
    }
}

/// The pinned byte image of a header agrees with its fields in everything
/// that a wrapped key commits to.
pub open spec fn pinned(h: HeaderView) -> bool {
    h.aad() == h.frozen().aad()
}

impl<K> VaultView<K> {
    /// A save leaves alone everything that opening the wrapped key depends on:
    /// the salts, the costs, the factors, the wrapping, and the additional
    /// data that it commits to.
    pub proof fn law_wrap_survives_a_save(
        self,
        sealed: Seq<u8>,
        carried: Option<Seq<u8>>,
        filler: Seq<u8>,
        max: u64,
    )
        requires
            self.wf(),
            pinned(self.header),
            filler.len() == crate::format::DECOY_FILLER_LEN,
        ensures
            ({
                let h = self.saved_header(sealed, carried, filler, max).frozen();
                &&& h.aad() == self.header.aad()
                &&& pinned(h)
                &&& h.kdf_salt == self.header.kdf_salt
                &&& h.kdf_params == self.header.kdf_params
                &&& h.auth == self.header.auth
                &&& h.flags == self.header.flags
                &&& h.crypto_suite == self.header.crypto_suite
                &&& h.master_key_nonce == self.header.master_key_nonce
                &&& h.wrapped_master_key == self.header.wrapped_master_key
            }),
    {
        let h = self.saved_header(sealed, carried, filler, max);
        self.lemma_saved_header(sealed, carried, filler, max);
        crate::format::law_mutable_fields_are_outside_the_aad(
            self.header,
            h.master_key_nonce,
            h.wrapped_master_key,
            h.manifest_offset,
            h.manifest_len,
            h.integrity_root,
        );
        let moved = HeaderView {
            manifest_offset: h.manifest_offset,
            manifest_len: h.manifest_len,
            integrity_root: h.integrity_root,
            ..self.header
        };
        assert(moved.image() == h.image());
    }
}

impl<K> World<K> {
    /// The record that a save wrote is found again by any header that points at
    /// it under the same identifier and cipher.
    pub proof fn lemma_record_reads_back(
        self,
        v: VaultView<K>,
        c: Seq<u8>,
        nonce: Seq<u8>,
        plain_len: u64,
        sealed: Seq<u8>,
        carried: Option<Seq<u8>>,
        filler: Seq<u8>,
        max: u64,
        limit: u64,
        key: K,
        g: HeaderView,
    )
        requires
            v.can_save(nonce, sealed, filler, max),
            plain_len <= limit,
            g.manifest_offset == v.data_end,
            g.manifest_len == crate::frame::FRAME_PREFIX + sealed.len(),
            g.crypto_suite == v.header.crypto_suite,
            g.vault_id == v.header.vault_id,
            (self.manifest)(
                key,
                v.header.crypto_suite,
                v.header.crypto_suite.nonce_of(nonce),
                sealed,
                crate::binding::manifest_binding(
                    v.header.vault_id,
                    plain_len,
                    v.manifest.generation,
                ),
            ) matches Ok(r) && r.0.generation == v.manifest.generation,
        ensures
            self.read_manifest(
                v.saved(c, nonce, plain_len, sealed, carried, filler, max),
                g,
                key,
                limit,
            ) == (self.manifest)(
                key,
                v.header.crypto_suite,
                v.header.crypto_suite.nonce_of(nonce),
                sealed,
                crate::binding::manifest_binding(
                    v.header.vault_id,
                    plain_len,
                    v.manifest.generation,
                ),
            ),
            v.data_end + g.manifest_len <= v.saved(
                c,
                nonce,
                plain_len,
                sealed,
                carried,
                filler,
                max,
            ).len(),
    {
        let d = v.saved(c, nonce, plain_len, sealed, carried, filler, max);
        let f = v.frame(nonce, plain_len, sealed);
        v.law_saved_container(c, nonce, plain_len, sealed, carried, filler, max);
        let b = crate::container::read_at(d, v.data_end as int, g.manifest_len as int);
        assert(b =~= f.image() + Seq::<u8>::empty());
        crate::frame::law_frame_round_trips(f, Seq::empty(), limit);
    }

    /// The header that a save wrote is found again.
    pub proof fn lemma_header_reads_back(
        self,
        v: VaultView<K>,
        c: Seq<u8>,
        nonce: Seq<u8>,
        plain_len: u64,
        sealed: Seq<u8>,
        carried: Option<Seq<u8>>,
        filler: Seq<u8>,
        max: u64,
        d: Seq<u8>,
    )
        requires
            v.can_save(nonce, sealed, filler, max),
            crate::format::supported(v.header.format_version),
            v.header.decoy is Some <==> v.header.format_version >= 3,
            ({
                let h = v.saved_header(sealed, carried, filler, max);
                let n = h.head().len() as int;
                let j = (self.judge)(
                    crate::format::probe_of(crate::container::read_at(d, 0, 512)),
                );
                &&& n <= d.len()
                &&& d.take(n) == v.saved(
                    c,
                    nonce,
                    plain_len,
                    sealed,
                    carried,
                    filler,
                    max,
                ).take(n)
                &&& crate::format::accepts(j, h) && j.max_manifest_bytes == max
            }),
        ensures
            self.header(d) == Ok::<HeaderView, ErrorView>(
                v.saved_header(sealed, carried, filler, max).frozen(),
            ),
            self.max_manifest(d) == max,
    {
        let h = v.saved_header(sealed, carried, filler, max);
        v.law_saved_container(c, nonce, plain_len, sealed, carried, filler, max);
        v.lemma_saved_header(sealed, carried, filler, max);
        let head = crate::container::read_at(d, 0, 512);
        let n = h.head().len() as int;
        assert(head =~= h.head() + head.skip(n)) by {
            assert(head.take(n) =~= d.take(n));
            assert(head =~= head.take(n) + head.skip(n));
        }
        let j = (self.judge)(crate::format::probe_of(head));
        crate::format::law_header_round_trips(h, j, head.skip(n));
    }

    /// What a save wrote is found again: the header, and the record from which
    /// the manifest opens.
    pub proof fn lemma_reads_back(
        self,
        v: VaultView<K>,
        c: Seq<u8>,
        nonce: Seq<u8>,
        plain_len: u64,
        sealed: Seq<u8>,
        carried: Option<Seq<u8>>,
        filler: Seq<u8>,
        max: u64,
        key: K,
    )
        requires
            v.can_save(nonce, sealed, filler, max),
            plain_len <= max,
            crate::format::supported(v.header.format_version),
            v.header.decoy is Some <==> v.header.format_version >= 3,
            ({
                let h = v.saved_header(sealed, carried, filler, max);
                let d = v.saved(c, nonce, plain_len, sealed, carried, filler, max);
                let j = (self.judge)(
                    crate::format::probe_of(crate::container::read_at(d, 0, 512)),
                );
                crate::format::accepts(j, h) && j.max_manifest_bytes == max
            }),
            (self.manifest)(
                key,
                v.header.crypto_suite,
                v.header.crypto_suite.nonce_of(nonce),
                sealed,
                crate::binding::manifest_binding(
                    v.header.vault_id,
                    plain_len,
                    v.manifest.generation,
                ),
            ) matches Ok(r) && r.0 == v.manifest,
        ensures
            ({
                let h = v.saved_header(sealed, carried, filler, max);
                let d = v.saved(c, nonce, plain_len, sealed, carried, filler, max);
                &&& self.header(d) == Ok::<HeaderView, ErrorView>(h.frozen())
                &&& self.max_manifest(d) == max
                &&& self.read_manifest(d, h.frozen(), key, max) == (self.manifest)(
                    key,
                    v.header.crypto_suite,
                    v.header.crypto_suite.nonce_of(nonce),
                    sealed,
                    crate::binding::manifest_binding(
                        v.header.vault_id,
                        plain_len,
                        v.manifest.generation,
                    ),
                )
            }),
    {
        let h = v.saved_header(sealed, carried, filler, max);
        let d = v.saved(c, nonce, plain_len, sealed, carried, filler, max);
        v.law_saved_container(c, nonce, plain_len, sealed, carried, filler, max);
        v.lemma_saved_header(sealed, carried, filler, max);
        self.lemma_header_reads_back(v, c, nonce, plain_len, sealed, carried, filler, max, d);
        self.lemma_record_reads_back(
            v,
            c,
            nonce,
            plain_len,
            sealed,
            carried,
            filler,
            max,
            max,
            key,
            h.frozen(),
        );
    }

    /// What a save writes, an open reads back: the same header, the same
    /// manifest and the same place for the next chunk.
    ///
    /// The registries have to accept the header; the password has to open the
    /// wrapped key; and what the manifest was sealed to has to open, under the
    /// same key, nonce and additional data, to the manifest.
    pub proof fn law_save_then_open(
        self,
        v: VaultView<K>,
        c: Seq<u8>,
        nonce: Seq<u8>,
        plain_len: u64,
        sealed: Seq<u8>,
        carried: Option<Seq<u8>>,
        filler: Seq<u8>,
        max: u64,
        key: K,
        authenticator: bool,
    )
        requires
            v.can_save(nonce, sealed, filler, max),
            plain_len <= max,
            crate::format::supported(v.header.format_version),
            v.header.decoy is Some <==> v.header.format_version >= 3,
            ({
                let h = v.saved_header(sealed, carried, filler, max);
                let d = v.saved(c, nonce, plain_len, sealed, carried, filler, max);
                let j = (self.judge)(
                    crate::format::probe_of(crate::container::read_at(d, 0, 512)),
                );
                &&& crate::format::accepts(j, h)
                &&& j.max_manifest_bytes == max
                &&& self.real_key(h.frozen(), authenticator) == Ok::<
                    Result<(K, usize), ErrorView>,
                    ErrorView,
                >(Ok((key, 32)))
            }),
            (self.manifest)(
                key,
                v.header.crypto_suite,
                v.header.crypto_suite.nonce_of(nonce),
                sealed,
                crate::binding::manifest_binding(
                    v.header.vault_id,
                    plain_len,
                    v.manifest.generation,
                ),
            ) == Ok::<(ManifestView, Seq<u8>), ErrorView>((v.manifest, v.manifest.integrity_root)),
        ensures
            ({
                let h = v.saved_header(sealed, carried, filler, max);
                let d = v.saved(c, nonce, plain_len, sealed, carried, filler, max);
                self.opened(d, v.path, authenticator) == (
                    StepView::Opened(
                        VaultView {
                            path: v.path,
                            header: h.frozen(),
                            manifest: v.manifest,
                            master: Some(key),
                            data_end: v.data_end,
                            identity: Identity::Real,
                            shift: 0,
                        },
                    ),
                    d,
                )
            }),
    {
        self.lemma_reads_back(v, c, nonce, plain_len, sealed, carried, filler, max, key);
    }
}

/// What is reported of a manifest that the header was not written with.
pub open spec fn other_root() -> ErrorView {
    ErrorView::Integrity("the header's integrity root does not match the manifest"@)
}

/// The manifest after a number of saves, whatever its contents come to.
pub open spec fn saved_times(m: ManifestView, roots: Seq<Seq<u8>>) -> ManifestView
    decreases roots.len(),
{
    if roots.len() == 0 {
        m
    } else {
        crate::vault::save::bumped(saved_times(m, roots.drop_last()), roots.last())
    }
}

/// Every save is a generation of its own, one above the last, until the
/// counter is full. So an earlier manifest never has the generation of a later
/// one, and what it is bound to differs.
pub proof fn law_generations_count_up(m: ManifestView, roots: Seq<Seq<u8>>)
    requires
        m.generation + roots.len() <= u64::MAX,
    ensures
        saved_times(m, roots).generation == m.generation + roots.len(),
        saved_times(m, roots).entries == m.entries,
    decreases roots.len(),
{
    if roots.len() > 0 {
        law_generations_count_up(m, roots.drop_last());
    }
}

impl<K> World<K> {
    /// A manifest that is read is of the generation that its record shows. An
    /// older one put under a newer number, or a newer one under an older, is
    /// refused even where it opens.
    pub proof fn law_generation_agrees(self, c: Seq<u8>, h: HeaderView, key: K, max: u64)
        requires
            h.manifest_len > 0,
            self.read_manifest(c, h, key, max) is Ok,
        ensures
            ({
                let b = crate::container::read_at(
                    c,
                    h.manifest_offset as int,
                    crate::frame::frame_reach(h.manifest_len) as int,
                );
                &&& crate::frame::frame_of(b, h.manifest_len, max) is Ok
                &&& self.read_manifest(c, h, key, max)->Ok_0.0.generation
                    == crate::frame::frame_of(b, h.manifest_len, max)->Ok_0.generation
            }),
    {
    }
}

impl<K> World<K> {
    /// Only the manifest that the header was written with opens: whatever lies
    /// where the header points, real contents are shown only if their manifest
    /// carries the header's integrity root. Any other manifest, an older one
    /// of the same vault among them, is refused, and nothing is written.
    pub proof fn law_another_root_is_refused(
        self,
        c: Seq<u8>,
        path: Seq<char>,
        authenticator: bool,
        h: HeaderView,
        key: K,
        r: (ManifestView, Seq<u8>),
    )
        requires
            self.header(c) == Ok::<HeaderView, ErrorView>(h),
            self.read_manifest(c, h, key, self.max_manifest(c)) == Ok::<
                (ManifestView, Seq<u8>),
                ErrorView,
            >(r),
            r.0.integrity_root != h.integrity_root,
        ensures
            self.real_key(h, authenticator) == Ok::<Result<(K, usize), ErrorView>, ErrorView>(
                Ok((key, 32)),
            ) ==> self.opened(c, path, authenticator) == (StepView::<K>::Refused(other_root()), c),
            self.contents(c, path, h, key, true) == StepView::<K>::Refused(other_root()),
            self.contents(c, path, h, key, false) == StepView::<K>::Refused(other_root()),
    {
    }

    /// The record of an older save, put back whole where the header of a later
    /// save points, does not open in its place: the open is refused because
    /// the roots differ, and nothing is written.
    ///
    /// `f` is the older record, as long as the later one, and `r` what it
    /// opens to under the vault's key: an older manifest, whose contents were
    /// different.
    pub proof fn law_older_record_is_refused(
        self,
        v: VaultView<K>,
        c: Seq<u8>,
        nonce: Seq<u8>,
        plain_len: u64,
        sealed: Seq<u8>,
        carried: Option<Seq<u8>>,
        filler: Seq<u8>,
        max: u64,
        key: K,
        authenticator: bool,
        f: FrameView,
        r: (ManifestView, Seq<u8>),
    )
        requires
            v.can_save(nonce, sealed, filler, max),
            v.orderly(),
            f.nonce.len() == 24,
            f.sealed.len() == sealed.len(),
            f.plain_len <= max,
            ({
                let h = v.saved_header(sealed, carried, filler, max);
                let d = v.saved(c, nonce, plain_len, sealed, carried, filler, max);
                let t = crate::container::written(d, v.data_end as int, f.image());
                let j = (self.judge)(
                    crate::format::probe_of(crate::container::read_at(t, 0, 512)),
                );
                &&& crate::format::accepts(j, h)
                &&& j.max_manifest_bytes == max
                &&& self.real_key(h.frozen(), authenticator) == Ok::<
                    Result<(K, usize), ErrorView>,
                    ErrorView,
                >(Ok((key, 32)))
            }),
            (self.manifest)(
                key,
                v.header.crypto_suite,
                v.header.crypto_suite.nonce_of(f.nonce),
                f.sealed,
                crate::binding::manifest_binding(v.header.vault_id, f.plain_len, f.generation),
            ) == Ok::<(ManifestView, Seq<u8>), ErrorView>(r),
            r.0.generation == f.generation,
            r.0.integrity_root != v.manifest.integrity_root,
        ensures
            ({
                let d = v.saved(c, nonce, plain_len, sealed, carried, filler, max);
                let t = crate::container::written(d, v.data_end as int, f.image());
                self.opened(t, v.path, authenticator) == (
                    StepView::<K>::Refused(other_root()),
                    t,
                )
            }),
    {
        let h = v.saved_header(sealed, carried, filler, max);
        let d = v.saved(c, nonce, plain_len, sealed, carried, filler, max);
        let t = crate::container::written(d, v.data_end as int, f.image());
        v.law_saved_container(c, nonce, plain_len, sealed, carried, filler, max);
        v.lemma_saved_header(sealed, carried, filler, max);
        assert(f.image().len() == 40 + f.sealed.len());
        let n = h.head().len() as int;
        assert(t.take(n) =~= d.take(n));
        self.lemma_header_reads_back(v, c, nonce, plain_len, sealed, carried, filler, max, t);
        let b = crate::container::read_at(t, v.data_end as int, h.manifest_len as int);
        assert(b =~= f.image() + Seq::<u8>::empty());
        crate::frame::law_frame_round_trips(f, Seq::empty(), max);
        self.law_another_root_is_refused(t, v.path, authenticator, h.frozen(), key, r);
    }
}

impl<K> VaultView<K> {
    /// A vault in good order: of a known format, with a decoy block exactly
    /// from format 3 on, and with its chunks behind the header and the block.
    pub open spec fn orderly(self) -> bool {
        &&& self.wf()
        &&& crate::format::supported(self.header.format_version)
        &&& self.header.decoy is Some <==> self.header.format_version >= 3
        &&& self.data_end >= self.header.head().len()
    }

    /// A save leaves a vault in good order.
    pub proof fn law_save_keeps_order(
        self,
        sealed: Seq<u8>,
        carried: Option<Seq<u8>>,
        filler: Seq<u8>,
        max: u64,
    )
        requires
            self.orderly(),
            filler.len() == crate::format::DECOY_FILLER_LEN,
        ensures
            (VaultView {
                header: self.saved_header(sealed, carried, filler, max),
                ..self
            }).orderly(),
    {
        self.lemma_saved_header(sealed, carried, filler, max);
    }
}

impl<K> World<K> {
    /// A vault opened into its real contents is in good order, if the
    /// container is long enough to hold a decoy block.
    pub proof fn law_opened_vault_is_orderly(
        self,
        c: Seq<u8>,
        path: Seq<char>,
        authenticator: bool,
    )
        requires
            forall|p: crate::format::Probe| (#[trigger] (self.judge)(p)).wf(),
            self.opened(c, path, authenticator).0 is Opened,
            self.opened(c, path, authenticator).0->Opened_0.identity == Identity::Real,
            c.len() >= crate::vault::open::HEAD_LEN,
        ensures
            self.opened(c, path, authenticator).0->Opened_0.orderly(),
    {
        let h = self.header(c)->Ok_0;
        let head = crate::container::read_at(c, 0, crate::vault::open::HEAD_LEN as int);
        let p = crate::format::probe_of(head);
        assert((self.judge)(p).wf());
        assert(h.wf());
        crate::format::lemma_image_len(h);
    }
}

} // verus!
