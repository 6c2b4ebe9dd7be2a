//! What each way of opening a vault asks for, and what it then shows, told from
//! the container and what the keys and ciphers answer.

use crate::error::ErrorView;
use crate::format::HeaderView;
use crate::manifest::{EntryView, ManifestView};
use crate::vault::open::{AskView, OpenerView, PhaseView, ReplyView, StepView, Way};
use crate::vault::outcome::World;
use crate::vault::Identity;
use vstd::prelude::*;

verus! {

impl<K> World<K> {
    /// The real wrapping opens exactly if the hardware contributes where it is
    /// required, the password and the factors give a key under the header's
    /// own salt and costs, the vault is not split protected, and that key opens
    /// the wrapped key under the header's nonce and its authenticated bytes.
    pub proof fn law_real_key_takes_every_factor(
        self,
        h: HeaderView,
        authenticator: bool,
        key: K,
        len: usize,
    )
        ensures
            self.real_key(h, authenticator) == Ok::<Result<(K, usize), ErrorView>, ErrorView>(
                Ok((key, len)),
            ) <==> {
                let kek = (self.kek)(h.kdf_salt, h.kdf_params, Some(h.auth));
                &&& h.auth.required.hardware ==> authenticator && (self.hardware)(
                    h.auth.credential_hint,
                    h.auth.prf_salt,
                ) is Ok
                &&& kek is Ok
                &&& h.flags & 2 == 0
                &&& (self.unwrap)(
                    kek->Ok_0,
                    h.crypto_suite,
                    h.master_key_nonce.take(h.crypto_suite.nonce_len as int),
                    h.wrapped_master_key,
                    h.aad(),
                ) == Ok::<(K, usize), ErrorView>((key, len))
            },
    {
    }

    /// The duress wrapping opens exactly if the header carries a block, and the
    /// password alone, under the slot's salt and the header's costs, gives a
    /// key that opens the slot's wrapped key, bound to the vault and to nothing
    /// else of the header, to 32 bytes.
    pub proof fn law_duress_key_takes_the_password_alone(self, h: HeaderView, key: K)
        ensures
            self.duress_key(h) == Ok::<Option<K>, ErrorView>(Some(key)) <==> {
                let s = crate::format::slot_of(h.decoy->0);
                let kek = (self.kek)(s.kdf_salt, h.kdf_params, None);
                &&& h.decoy is Some
                &&& kek is Ok
                &&& (self.unwrap)(
                    kek->Ok_0,
                    h.crypto_suite,
                    s.key_nonce.take(h.crypto_suite.nonce_len as int),
                    s.wrapped_key,
                    crate::binding::decoy_binding(h.vault_id),
                ) == Ok::<(K, usize), ErrorView>((key, 32))
            },
    {
    }

    /// A manifest is read exactly if its record lies where the header says, in
    /// full, declares a size that is accepted, opens under the vault's key when
    /// bound to the vault, that size and the generation shown beside it, and is
    /// of that generation. What is read is what the record opens to.
    pub proof fn law_manifest_is_read_exactly_when(
        self,
        c: Seq<u8>,
        h: HeaderView,
        key: K,
        max: u64,
        r: (ManifestView, Seq<u8>),
    )
        requires
            h.manifest_len > 0,
        ensures
            self.read_manifest(c, h, key, max) == Ok::<(ManifestView, Seq<u8>), ErrorView>(r) <==> {
                let at = h.manifest_offset as int;
                let len = crate::le::un64(c.subrange(at + 24, at + 32));
                let generation = crate::le::un64(c.subrange(at + 32, at + 40));
                &&& 40 <= h.manifest_len
                &&& at + h.manifest_len <= c.len()
                &&& len <= max
                &&& (self.manifest)(
                    key,
                    h.crypto_suite,
                    c.subrange(at, at + 24).take(h.crypto_suite.nonce_len as int),
                    c.subrange(at + 40, at + h.manifest_len),
                    crate::binding::manifest_binding(h.vault_id, len, generation),
                ) == Ok::<(ManifestView, Seq<u8>), ErrorView>(r)
                &&& r.0.generation == generation
            },
    {
        let at = h.manifest_offset as int;
        let reach = crate::frame::frame_reach(h.manifest_len) as int;
        let b = crate::container::read_at(c, at, reach);
        if 40 <= h.manifest_len && at + h.manifest_len <= c.len() {
            assert(b =~= c.subrange(at, at + h.manifest_len));
            assert(b.subrange(0, 24) =~= c.subrange(at, at + 24));
            assert(b.subrange(24, 32) =~= c.subrange(at + 24, at + 32));
            assert(b.subrange(32, 40) =~= c.subrange(at + 32, at + 40));
            assert(b.subrange(40, h.manifest_len as int) =~= c.subrange(
                at + 40,
                at + h.manifest_len,
            ));
        }
    }

    /// Where there is no record yet, the manifest is empty.
    pub proof fn law_no_record_is_an_empty_manifest(
        self,
        c: Seq<u8>,
        h: HeaderView,
        key: K,
        max: u64,
    )
        requires
            h.manifest_len == 0,
        ensures
            ({
                let r = self.read_manifest(c, h, key, max);
                &&& r is Ok
                &&& r->Ok_0.0.entries.len() == 0
                &&& r->Ok_0.0.generation == 0
                &&& r->Ok_0.1 == self.empty_root
            }),
    {
    }

    /// A password opens the real contents exactly if the header is in order,
    /// the real wrapping opens to a key of 32 bytes, the manifest reads, and
    /// the header's root, the manifest's root and what its contents come to are
    /// all the same. What is shown is that manifest, under that header and that
    /// key; the next chunk goes where the record lies.
    pub proof fn law_real_contents_open_exactly_when(
        self,
        c: Seq<u8>,
        path: Seq<char>,
        authenticator: bool,
    )
        ensures
            ({
                let step = self.opened(c, path, authenticator).0;
                let h = self.header(c)->Ok_0;
                let wrapping = self.real_key(h, authenticator)->Ok_0;
                let key = wrapping->Ok_0.0;
                let r = self.read_manifest(c, h, key, self.max_manifest(c));
                let v = step->Opened_0;
                &&& step is Opened && v.identity == Identity::Real <==> {
                    &&& self.header(c) is Ok
                    &&& self.real_key(h, authenticator) is Ok
                    &&& wrapping is Ok
                    &&& wrapping->Ok_0.1 == 32
                    &&& r is Ok
                    &&& r->Ok_0.0.integrity_root == h.integrity_root
                    &&& r->Ok_0.1 == h.integrity_root
                }
                &&& step is Opened && v.identity == Identity::Real ==> {
                    &&& v.path == path
                    &&& v.header == h
                    &&& v.manifest == r->Ok_0.0
                    &&& v.master == Some(key)
                    &&& v.data_end == h.manifest_offset
                    &&& v.shift == 0
                    &&& self.opened(c, path, authenticator).1 == c
                }
            }),
    {
    }

    /// A password opens the decoy exactly if the header is in order, the real
    /// wrapping was tried and did not open, the duress wrapping opens, and the
    /// decoy's manifest reads where the slot says. Nothing else, and no setting,
    /// stands in the way.
    pub proof fn law_decoy_opens_exactly_when(
        self,
        c: Seq<u8>,
        path: Seq<char>,
        authenticator: bool,
    )
        requires
            self.noise.len() == 48,
        ensures
            ({
                let step = self.opened(c, path, authenticator).0;
                let h = self.header(c)->Ok_0;
                let s = crate::format::slot_of(h.decoy->0);
                let key = self.duress_key(h)->Ok_0->0;
                let at = HeaderView {
                    manifest_offset: s.manifest_offset,
                    manifest_len: s.manifest_len,
                    ..h
                };
                let d = crate::container::written(c, 104, self.noise);
                let r = self.read_manifest(d, at, key, self.max_manifest(c));
                let v = step->Opened_0;
                let fires = self.header(c) is Ok && self.real_key(h, authenticator) is Ok
                    && self.real_key(h, authenticator)->Ok_0 is Err && self.duress_key(h) is Ok
                    && self.duress_key(h)->Ok_0 is Some;
                &&& step is Opened && v.identity == Identity::Decoy <==> fires && r is Ok
                &&& fires ==> self.opened(c, path, authenticator).1 == d
                &&& !fires ==> self.opened(c, path, authenticator).1 == c
                &&& fires && r is Ok ==> {
                    &&& v.path == path
                    &&& v.header.vault_id == h.vault_id
                    &&& v.header.crypto_suite == h.crypto_suite
                    &&& v.header.compress_suite == h.compress_suite
                    &&& v.header.decoy == h.decoy
                    &&& v.header.wrapped_master_key == self.noise
                    &&& v.header.integrity_root == r->Ok_0.0.integrity_root
                    &&& v.manifest.integrity_root == r->Ok_0.0.integrity_root
                    &&& v.manifest.generation == r->Ok_0.0.generation
                    &&& v.manifest.entries.len() == r->Ok_0.0.entries.len()
                    &&& v.master == Some(key)
                    &&& v.data_end == s.manifest_offset
                }
                &&& fires && r is Err ==> step == StepView::<K>::Refused(r->Err_0)
            }),
    {
        let h = self.header(c)->Ok_0;
        if self.header(c) is Ok && self.duress_key(h) is Ok && self.duress_key(h)->Ok_0 is Some {
            let s = crate::format::slot_of(h.decoy->0);
            let at = HeaderView {
                manifest_offset: s.manifest_offset,
                manifest_len: s.manifest_len,
                ..h
            };
            let decoy = crate::vault::open::decoy_header(h, self.noise);
            let key = self.duress_key(h)->Ok_0->0;
            let d = crate::container::written(c, 104, self.noise);
            assert(c.len() >= 512);
            assert(self.read_manifest(d, at, key, self.max_manifest(c)) == self.read_manifest(
                d,
                decoy,
                key,
                self.max_manifest(c),
            ));
        }
    }

    /// A wrapping that opens to something that is not 32 bytes long is no key:
    /// the open is refused, and nothing is written.
    pub proof fn law_a_key_has_32_bytes(
        self,
        c: Seq<u8>,
        path: Seq<char>,
        authenticator: bool,
        h: HeaderView,
        key: K,
        len: usize,
    )
        requires
            self.header(c) == Ok::<HeaderView, ErrorView>(h),
            self.real_key(h, authenticator) == Ok::<Result<(K, usize), ErrorView>, ErrorView>(
                Ok((key, len)),
            ),
            len != 32,
        ensures
            self.opened(c, path, authenticator).0 matches StepView::Refused(ErrorView::Crypto(_)),
            self.opened(c, path, authenticator).1 == c,
    {
    }

    /// Key components open a vault exactly if it is split protected, its bundle
    /// is there and belongs to it, the components release a key, that key opens
    /// the wrapped key to 32 bytes, and the manifest that then reads carries the
    /// header's root.
    pub proof fn law_components_open_exactly_when(self, c: Seq<u8>, path: Seq<char>)
        ensures
            ({
                let step = self.released(c, path);
                let h = self.header(c)->Ok_0;
                let wrapping = (self.unwrap)(
                    self.release->Ok_0,
                    h.crypto_suite,
                    h.master_key_nonce.take(h.crypto_suite.nonce_len as int),
                    h.wrapped_master_key,
                    h.aad(),
                );
                let key = wrapping->Ok_0.0;
                let r = self.read_manifest(c, h, key, self.max_manifest(c));
                &&& step is Opened <==> {
                    &&& self.header(c) is Ok
                    &&& h.flags & 2 != 0
                    &&& self.bundle == Some(Ok::<Seq<u8>, ErrorView>(h.vault_id))
                    &&& self.release is Ok
                    &&& wrapping is Ok
                    &&& wrapping->Ok_0.1 == 32
                    &&& r is Ok
                    &&& r->Ok_0.0.integrity_root == h.integrity_root
                }
                &&& step is Opened ==> {
                    let v = step->Opened_0;
                    &&& v.identity == Identity::Real
                    &&& v.path == path
                    &&& v.header == h
                    &&& v.manifest == r->Ok_0.0
                    &&& v.master == Some(key)
                    &&& v.data_end == h.manifest_offset
                    &&& v.shift == 0
                }
                &&& !(step is Opened) ==> step is Refused
            }),
    {
    }

    /// What is reported when nothing opens: what speaks against the header
    /// first; then what stopped the real wrapping; and where that was only
    /// that it did not open, what it failed with, unless the duress wrapping
    /// stopped too.
    pub proof fn law_refusal_names_the_first_cause(
        self,
        c: Seq<u8>,
        path: Seq<char>,
        authenticator: bool,
    )
        ensures
            ({
                let (step, after) = self.opened(c, path, authenticator);
                let h = self.header(c)->Ok_0;
                let k = self.real_key(h, authenticator);
                &&& self.header(c) is Err ==> step == StepView::<K>::Refused(
                    self.header(c)->Err_0,
                ) && after == c
                &&& self.header(c) is Ok && k is Err ==> step == StepView::<K>::Refused(k->Err_0)
                    && after == c
                &&& self.header(c) is Ok && k is Ok && k->Ok_0 is Err && self.duress_key(h)
                    == Ok::<Option<K>, ErrorView>(None) ==> step == StepView::<K>::Refused(
                    k->Ok_0->Err_0,
                ) && after == c
                &&& self.header(c) is Ok && h.auth.required.hardware && authenticator && (
                self.hardware)(h.auth.credential_hint, h.auth.prf_salt) is Err ==> step
                    == StepView::<K>::Refused(
                    (self.hardware)(h.auth.credential_hint, h.auth.prf_salt)->Err_0,
                )
            }),
    {
    }
}

/// Placing a manifest puts its first chunk at the place, moves every other
/// chunk just as far, and changes nothing else.
pub proof fn law_placed_together(m: ManifestView, to: u64, e: int, k: int)
    requires
        0 <= e < m.entries.len(),
        0 <= k < m.entries[e].chunks.len(),
    ensures
        ({
            let p = m.placed(to);
            let x = m.entries[e];
            let y = p.entries[e];
            let from = crate::manifest::first_offset(m.entries)->0;
            &&& crate::manifest::first_offset(m.entries) is Some
            &&& p.entries.len() == m.entries.len()
            &&& p.generation == m.generation
            &&& p.integrity_root == m.integrity_root
            &&& y == (EntryView { chunks: y.chunks, ..x })
            &&& y.chunks.len() == x.chunks.len()
            &&& y.chunks[k].ciphertext_len == x.chunks[k].ciphertext_len
            &&& y.chunks[k].plaintext_len == x.chunks[k].plaintext_len
            &&& y.chunks[k].hash == x.chunks[k].hash
            &&& 0 <= x.chunks[k].offset + to - from <= u64::MAX ==> y.chunks[k].offset
                == x.chunks[k].offset + to - from
        }),
{
    if crate::manifest::first_offset(m.entries) is None {
        crate::vault::carry_laws::lemma_no_first(m.entries, e);
    }
}

/// The first chunk of a list of entries is the first of the first entry that
/// has any.
pub proof fn law_first_offset_is_the_first(entries: Seq<EntryView>, e: int)
    requires
        0 <= e < entries.len(),
        entries[e].chunks.len() > 0,
        forall|i: int| 0 <= i < e ==> (#[trigger] entries[i]).chunks.len() == 0,
    ensures
        crate::manifest::first_offset(entries) == Some(entries[e].chunks[0].offset),
    decreases entries.len(),
{
    let init = entries.drop_last();
    if e < init.len() {
        assert forall|i: int| 0 <= i < e implies (#[trigger] init[i]).chunks.len() == 0 by {
            assert(entries[i].chunks.len() == 0);
        }
        law_first_offset_is_the_first(init, e);
    } else {
        lemma_none_before(init);
    }
}

/// Entries without chunks have no first one.
proof fn lemma_none_before(entries: Seq<EntryView>)
    requires
        forall|i: int| 0 <= i < entries.len() ==> (#[trigger] entries[i]).chunks.len() == 0,
    ensures
        crate::manifest::first_offset(entries) is None,
    decreases entries.len(),
{
    if entries.len() > 0 {
        let init = entries.drop_last();
        assert forall|i: int| 0 <= i < init.len() implies (#[trigger] init[i]).chunks.len() == 0 by {
            assert(entries[i].chunks.len() == 0);
        }
        lemma_none_before(init);
        assert(entries.last() == entries[entries.len() - 1]);
    }
}

/// The real contents are read without writing; only where the duress identity
/// is tried does the container have to be writable. Opening begins with the
/// real identity, except where the duress identity alone is tried.
pub proof fn law_an_open_begins_by_reading<K>(path: Seq<char>, way: Way, o: OpenerView<K>, e: ErrorView)
    ensures
        ({
            let a = crate::vault::open::first::<K>(path, way);
            let b = crate::vault::open::first_duress::<K>(path);
            let c = o.to_duress(e);
            &&& a->Ask_1 == (AskView::<K>::Head { writable: false })
            &&& a->Ask_0.phase == PhaseView::<K>::Head(Identity::Real)
            &&& a->Ask_0.path == path
            &&& a->Ask_0.way == way
            &&& a->Ask_0.fallback is None
            &&& b->Ask_1 == (AskView::<K>::Head { writable: true })
            &&& b->Ask_0.phase == PhaseView::<K>::Head(Identity::Decoy)
            &&& b->Ask_0.path == path
            &&& b->Ask_0.fallback is None
            &&& c->Ask_1 == (AskView::<K>::Head { writable: true })
            &&& c->Ask_0 == (OpenerView {
                fallback: Some(e),
                phase: PhaseView::Head(Identity::Decoy),
                ..o
            })
        }),
{
}

/// The bundle of a split vault is looked for beside the vault, under its name
/// and an ending; that it is missing is said with that name.
pub proof fn law_bundle_lies_beside_the_vault<K>(
    o: OpenerView<K>,
    b: Seq<u8>,
    j: crate::format::JudgementView,
    h: HeaderView,
)
    requires
        o.way is Components,
        crate::format::parsed(b, j) == Ok::<HeaderView, ErrorView>(h),
        h.flags & 2 != 0,
    ensures
        ({
            let step = o.on_judged(Identity::Real, b, j);
            &&& step is Ask
            &&& step->Ask_1 == (AskView::<K>::Bundle { path: o.path + ".split"@ })
            &&& crate::vault::open::next(step->Ask_0, ReplyView::<K>::NoBundle) == StepView::<
                K,
            >::Refused(
                ErrorView::Format(
                    "the split bundle "@ + (o.path + ".split"@)
                        + " is missing. Without it the vault cannot be opened by anyone, including its owner; restore it from a backup"@,
                ),
            )
        }),
{
}

impl<K> World<K> {
    /// A record that is too short to be one is said to be that, whatever lies
    /// there; one that the container ends before is said to be cut off.
    pub proof fn law_short_records_say_why(self, c: Seq<u8>, h: HeaderView, key: K, max: u64)
        ensures
            ({
                let r = self.read_manifest(c, h, key, max);
                let at = h.manifest_offset as int;
                &&& 0 < h.manifest_len < 32 ==> r == Err::<(ManifestView, Seq<u8>), ErrorView>(
                    ErrorView::Format("manifest record is too short"@),
                )
                &&& 32 <= h.manifest_len && at + 24 > c.len() ==> r == Err::<
                    (ManifestView, Seq<u8>),
                    ErrorView,
                >(ErrorView::Format("vault is truncated at the manifest"@))
                &&& 32 <= h.manifest_len < 40 && at + 40 <= c.len() && crate::le::un64(
                    c.subrange(at + 24, at + 32),
                ) <= max ==> r == Err::<(ManifestView, Seq<u8>), ErrorView>(
                    ErrorView::Format("manifest region is too small"@),
                )
                &&& 40 <= h.manifest_len && at + 40 <= c.len() < at + h.manifest_len
                    && crate::le::un64(c.subrange(at + 24, at + 32)) <= max ==> r == Err::<
                    (ManifestView, Seq<u8>),
                    ErrorView,
                >(ErrorView::Format("vault is truncated at the manifest"@))
            }),
    {
        let at = h.manifest_offset as int;
        let b = crate::container::read_at(
            c,
            at,
            crate::frame::frame_reach(h.manifest_len) as int,
        );
        if at + 40 <= c.len() {
            assert(b.subrange(24, 32) =~= c.subrange(at + 24, at + 32));
        }
    }
}

} // verus!
