//! What a duress password does, and what no other password does.

use crate::error::ErrorView;
use crate::format::HeaderView;
use crate::vault::open::{AskView, OpenerView, PhaseView, StepView, Way};
use crate::vault::outcome::World;
use crate::vault::Identity;
use vstd::prelude::*;

verus! {

impl<K> World<K> {
    /// Opening changes a container only when the real identity did not open
    /// and the duress identity did. In particular an ordinary open writes
    /// nothing.
    pub proof fn law_only_duress_writes(self, c: Seq<u8>, path: Seq<char>, authenticator: bool)
        requires
            self.opened(c, path, authenticator).1 != c,
        ensures
            self.header(c) is Ok,
            self.real_key(self.header(c)->Ok_0, authenticator) is Ok,
            self.real_key(self.header(c)->Ok_0, authenticator)->Ok_0 is Err,
            self.duress_key(self.header(c)->Ok_0) is Ok,
            self.duress_key(self.header(c)->Ok_0)->Ok_0 is Some,
    {
    }

    /// A password behind which there is no duress identity destroys nothing:
    /// the open fails with what the real identity failed with, and the
    /// container is as it was.
    pub proof fn law_wrong_password_destroys_nothing(
        self,
        c: Seq<u8>,
        path: Seq<char>,
        authenticator: bool,
        h: HeaderView,
        e: ErrorView,
    )
        requires
            self.header(c) == Ok::<HeaderView, ErrorView>(h),
            self.real_key(h, authenticator) == Ok::<Result<(K, usize), ErrorView>, ErrorView>(
                Err(e),
            ),
            self.duress_key(h) == Ok::<Option<K>, ErrorView>(None),
        ensures
            self.opened(c, path, authenticator) == (StepView::<K>::Refused(e), c),
    {
    }

    /// A password that opens the real identity never reaches the decoy, even
    /// if it would open the duress wrapping as well.
    pub proof fn law_real_password_never_fires(
        self,
        c: Seq<u8>,
        path: Seq<char>,
        authenticator: bool,
        h: HeaderView,
        r: (K, usize),
    )
        requires
            self.header(c) == Ok::<HeaderView, ErrorView>(h),
            self.real_key(h, authenticator) == Ok::<Result<(K, usize), ErrorView>, ErrorView>(
                Ok(r),
            ),
        ensures
            self.opened(c, path, authenticator).1 == c,
            self.opened(c, path, authenticator).0 matches StepView::Opened(v) ==> v.identity
                == Identity::Real,
    {
    }

    /// A container of a format before 3 has no duress identity, whatever lies
    /// behind its header: no password fires one, and opening writes nothing.
    pub proof fn law_older_formats_have_no_duress(
        self,
        c: Seq<u8>,
        path: Seq<char>,
        authenticator: bool,
        h: HeaderView,
    )
        requires
            self.header(c) == Ok::<HeaderView, ErrorView>(h),
            h.format_version < 3,
        ensures
            self.duress_key(h) == Ok::<Option<K>, ErrorView>(None),
            self.duress(c, path, None) == (StepView::<K>::NotDuress, c),
            self.opened(c, path, authenticator).1 == c,
            self.opened(c, path, authenticator).0 matches StepView::Opened(v) ==> v.identity
                == Identity::Real,
    {
    }

    /// A header that carries a slot was read from a container that holds the
    /// whole decoy block.
    proof fn lemma_slot_needs_block(self, c: Seq<u8>)
        requires
            self.header(c) is Ok,
            self.header(c)->Ok_0.slot() is Some,
        ensures
            c.len() >= crate::vault::open::HEAD_LEN,
    {
    }

    /// When a duress password fires, the real wrapped key is replaced by
    /// random bytes and nothing else changes: not the rest of the header, not
    /// the decoy block, not a chunk, and not the length of the container.
    pub proof fn law_duress_overwrites_only_the_real_key(
        self,
        c: Seq<u8>,
        path: Seq<char>,
        authenticator: bool,
        h: HeaderView,
        e: ErrorView,
        key: K,
    )
        requires
            self.noise.len() == crate::format::WRAPPED_KEY_LEN,
            self.header(c) == Ok::<HeaderView, ErrorView>(h),
            self.real_key(h, authenticator) == Ok::<Result<(K, usize), ErrorView>, ErrorView>(
                Err(e),
            ),
            self.duress_key(h) == Ok::<Option<K>, ErrorView>(Some(key)),
        ensures
            ({
                let d = self.opened(c, path, authenticator).1;
                &&& d.len() == c.len()
                &&& d.subrange(104, 152) == self.noise
                &&& forall|i: int| 0 <= i < c.len() && !(104 <= i < 152) ==> d[i] == c[i]
            }),
    {
        self.lemma_slot_needs_block(c);
        assert(self.opened(c, path, authenticator).1 == self.shredded(c));
        assert(self.shredded(c).subrange(104, 152) =~= self.noise);
    }

    /// The header of a container whose real key was overwritten: the wrapping
    /// is the noise, and everything else reads as before.
    pub proof fn law_header_after_duress(self, c: Seq<u8>)
        requires
            self.noise.len() == crate::format::WRAPPED_KEY_LEN,
            self.header(c) is Ok,
            self.header(c)->Ok_0.slot() is Some,
        ensures
            self.header(self.shredded(c)) == Ok::<HeaderView, ErrorView>(
                HeaderView {
                    wrapped_master_key: self.noise,
                    raw: Some(self.shredded(c).take(256)),
                    ..self.header(c)->Ok_0
                },
            ),
            self.header(self.shredded(c))->Ok_0.aad() == self.header(c)->Ok_0.aad(),
            self.max_manifest(self.shredded(c)) == self.max_manifest(c),
    {
        self.lemma_slot_needs_block(c);
        let d = self.shredded(c);
        let a = crate::container::read_at(c, 0, 512);
        let b = crate::container::read_at(d, 0, 512);
        assert(a.len() == 512 && b.len() == 512);
        assert(forall|i: int| 0 <= i < 512 && !(104 <= i < 152) ==> a[i] == b[i]);
        assert(a.take(8) =~= b.take(8));
        assert(a.subrange(8, 10) =~= b.subrange(8, 10));
        assert(a.subrange(10, 12) =~= b.subrange(10, 12));
        assert(a.subrange(12, 14) =~= b.subrange(12, 14));
        assert(a.subrange(14, 16) =~= b.subrange(14, 16));
        assert(a.subrange(16, 32) =~= b.subrange(16, 32));
        assert(a.subrange(32, 36) =~= b.subrange(32, 36));
        assert(a.subrange(36, 40) =~= b.subrange(36, 40));
        assert(a.subrange(40, 44) =~= b.subrange(40, 44));
        assert(a.subrange(44, 48) =~= b.subrange(44, 48));
        assert(a.subrange(48, 80) =~= b.subrange(48, 80));
        assert(a.subrange(80, 104) =~= b.subrange(80, 104));
        assert(b.subrange(104, 152) =~= self.noise);
        assert(a.subrange(152, 160) =~= b.subrange(152, 160));
        assert(a.subrange(160, 168) =~= b.subrange(160, 168));
        assert(a.subrange(168, 200) =~= b.subrange(168, 200));
        assert(a.subrange(200, 202) =~= b.subrange(200, 202));
        assert(a.subrange(204, 236) =~= b.subrange(204, 236));
        assert(a.subrange(236, 256) =~= b.subrange(236, 256));
        assert(a.subrange(256, 512) =~= b.subrange(256, 512));
        assert(b.take(256) =~= d.take(256));
        assert(crate::format::probe_of(a) == crate::format::probe_of(b));
        let x = a.take(256);
        let y = b.take(256);
        assert(x.take(80) =~= y.take(80));
        assert(x.subrange(200, 256) =~= y.subrange(200, 256));
    }

    /// The decoy keeps working after it has fired, every time. A later open
    /// with the same password, whatever noise it draws, shows the same decoy,
    /// as long as the password does not happen to open the overwritten real
    /// wrapping.
    pub proof fn law_decoy_keeps_opening(
        self,
        c: Seq<u8>,
        path: Seq<char>,
        authenticator: bool,
        noise: Seq<u8>,
    )
        requires
            self.noise.len() == crate::format::WRAPPED_KEY_LEN,
            noise.len() == crate::format::WRAPPED_KEY_LEN,
            self.opened(c, path, authenticator).0 is Opened,
            self.opened(c, path, authenticator).0->Opened_0.identity == Identity::Decoy,
            self.header(c)->Ok_0.slot()->0.manifest_offset >= crate::format::V3_DATA_START,
            self.real_key(self.header(self.shredded(c))->Ok_0, authenticator) matches Ok(Err(_)),
        ensures
            ({
                let d = self.opened(c, path, authenticator).1;
                let later = World { noise, ..self };
                let v = self.opened(c, path, authenticator).0->Opened_0;
                let w = later.opened(d, path, authenticator).0->Opened_0;
                &&& later.opened(d, path, authenticator).0 is Opened
                &&& w.identity == Identity::Decoy
                &&& w.manifest == v.manifest
                &&& w.master == v.master
                &&& w.data_end == v.data_end
                &&& w.header.slot() == v.header.slot()
                &&& later.opened(d, path, authenticator).1.len() == c.len()
            }),
    {
        let h = self.header(c)->Ok_0;
        let later = World { noise, ..self };
        let d = self.shredded(c);
        let e = later.shredded(d);
        self.lemma_slot_needs_block(c);
        self.law_header_after_duress(c);
        assert(later.header(d) == self.header(d));
        let g = later.header(d)->Ok_0;
        assert(self.duress_key(h) == later.duress_key(g));
        assert(later.real_key(g, authenticator) == self.real_key(g, authenticator));
        let key = self.duress_key(h)->Ok_0->0;
        let one = crate::vault::open::decoy_header(h, self.noise);
        let two = crate::vault::open::decoy_header(g, noise);
        let reach = crate::frame::frame_reach(one.manifest_len) as int;
        let at = one.manifest_offset as int;
        assert(d.len() == c.len() && e.len() == c.len());
        assert(crate::container::read_at(d, at, reach) =~= crate::container::read_at(
            e,
            at,
            reach,
        ));
        assert(self.read_manifest(d, one, key, self.max_manifest(c)) == later.read_manifest(
            e,
            two,
            key,
            later.max_manifest(d),
        ));
    }

    /// Once a duress password has fired, the real contents are gone, to
    /// everyone: whoever opens the container later, with a password or with
    /// key components, whose key does not open the noise that replaced the
    /// wrapped key, and behind whose password there is no duress identity, is
    /// refused, and changes nothing.
    pub proof fn law_real_contents_are_gone(
        self,
        later: World<K>,
        c: Seq<u8>,
        path: Seq<char>,
        authenticator: bool,
        kek: K,
        e: ErrorView,
        f: ErrorView,
    )
        requires
            self.noise.len() == crate::format::WRAPPED_KEY_LEN,
            self.header(c) is Ok,
            self.header(c)->Ok_0.slot() is Some,
            later.judge == self.judge,
            ({
                let h = self.header(c)->Ok_0;
                let nonce = h.crypto_suite.nonce_of(h.master_key_nonce);
                &&& h.auth.required.hardware ==> authenticator && (later.hardware)(
                    h.auth.credential_hint,
                    h.auth.prf_salt,
                ) is Ok
                &&& (later.kek)(h.kdf_salt, h.kdf_params, Some(h.auth)) == Ok::<K, ErrorView>(
                    kek,
                )
                &&& (later.unwrap)(kek, h.crypto_suite, nonce, self.noise, h.aad()) == Err::<
                    (K, usize),
                    ErrorView,
                >(e)
                &&& later.release matches Ok(k) ==> (later.unwrap)(
                    k,
                    h.crypto_suite,
                    nonce,
                    self.noise,
                    h.aad(),
                ) == Err::<(K, usize), ErrorView>(f)
                &&& later.duress_key(h) == Ok::<Option<K>, ErrorView>(None)
            }),
        ensures
            ({
                let d = self.shredded(c);
                &&& later.opened(d, path, authenticator).0 is Refused
                &&& later.opened(d, path, authenticator).1 == d
                &&& !crate::format::flags::is_split(self.header(c)->Ok_0.flags) ==> later.opened(
                    d,
                    path,
                    authenticator,
                ).0 == StepView::<K>::Refused(e)
                &&& later.released(d, path) is Refused
            }),
    {
        let d = self.shredded(c);
        self.law_header_after_duress(c);
        assert(later.header(d) == self.header(d));
        let g = later.header(d)->Ok_0;
        assert(later.duress_key(g) == later.duress_key(self.header(c)->Ok_0));
    }

    /// A vault that requires a hardware factor is refused when no
    /// authenticator is at hand, whatever the password, and nothing is
    /// written: there is no path that falls back to the password alone.
    pub proof fn law_hardware_is_never_optional(self, c: Seq<u8>, path: Seq<char>, h: HeaderView)
        requires
            self.header(c) == Ok::<HeaderView, ErrorView>(h),
            h.auth.required.hardware,
        ensures
            self.opened(c, path, false) == (
                StepView::<K>::Refused(
                    ErrorView::NotImplemented(crate::vault::open::no_authenticator()),
                ),
                c,
            ),
    {
    }

    /// What has happened to a container by the time an opener is at a step.
    pub open spec fn so_far(self, c: Seq<u8>, step: StepView<K>, d: Seq<u8>) -> bool {
        match step {
            StepView::Ask(o, ask) => match o.phase {
                PhaseView::Reread(_, _, _) => d == self.shredded(c) && !(ask is Overwrite),
                PhaseView::Frame(Identity::Decoy, _, _) => d == self.shredded(c) && !(
                ask is Overwrite),
                PhaseView::Manifest(Identity::Decoy, _, _) => d == self.shredded(c) && !(
                ask is Overwrite),
                PhaseView::Overwrite(_, _, s) => d == c && ask == (AskView::<K>::Overwrite {
                    at: 104,
                    bytes: self.noise,
                }),
                _ => d == c && !(ask is Overwrite),
            },
            StepView::Opened(v) => d == if v.identity is Decoy {
                self.shredded(c)
            } else {
                c
            },
            _ => d == c || d == self.shredded(c),
        }
    }

    /// One more question keeps the account straight.
    proof fn lemma_so_far(self, c: Seq<u8>, o: OpenerView<K>, ask: AskView<K>, d: Seq<u8>)
        requires
            self.so_far(c, StepView::Ask(o, ask), d),
        ensures
            self.so_far(
                c,
                crate::vault::open::next(o, self.answer(d, ask).0),
                self.answer(d, ask).1,
            ),
    {
    }

    /// However far an opener has come, and so wherever it is interrupted: it
    /// asks for nothing of the decoy, and shows nothing of it, before the real
    /// key is gone; and until a duress wrapping has opened, the container is
    /// untouched.
    pub proof fn law_key_is_gone_before_the_decoy_is_read(
        self,
        c: Seq<u8>,
        path: Seq<char>,
        way: Way,
        fuel: nat,
    )
        ensures
            ({
                let (step, d) = self.play(c, crate::vault::open::first(path, way), fuel);
                self.so_far(c, step, d)
            }),
    {
        self.lemma_so_far_play(c, crate::vault::open::first(path, way), c, fuel);
    }

    /// Any number of questions keeps the account straight.
    proof fn lemma_so_far_play(self, c: Seq<u8>, step: StepView<K>, d: Seq<u8>, fuel: nat)
        requires
            self.so_far(c, step, d),
        ensures
            ({
                let (s, e) = self.play(d, step, fuel);
                self.so_far(c, s, e)
            }),
        decreases fuel,
    {
        if let StepView::Ask(o, ask) = step {
            if fuel > 0 {
                self.lemma_so_far(c, o, ask, d);
                self.lemma_so_far_play(
                    c,
                    crate::vault::open::next(o, self.answer(d, ask).0),
                    self.answer(d, ask).1,
                    (fuel - 1) as nat,
                );
            }
        }
    }
}

} // verus!
