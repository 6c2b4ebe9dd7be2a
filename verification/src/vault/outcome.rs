//! What opening a container comes to, whatever the keys and ciphers are.
//!
//! Everything outside an opener is gathered in a [`World`], which answers for
//! one password. Running an opener against a world and a container gives an
//! outcome and the container as it is afterwards. The laws here hold of every
//! world.

use crate::error::ErrorView;
use crate::format::{flags, HeaderView, JudgementView, Probe};
use crate::manifest::ManifestView;
use crate::suite::{AuthView, CryptoSuite, KdfParams};
use crate::vault::open::{AskView, OpenerView, PhaseView, ReplyView, StepView, Way};
use crate::vault::{Identity, VaultView};
use vstd::prelude::*;

verus! {

/// What answers an opener: the registries, and the keys and ciphers as they
/// are for one password, one authenticator and one set of key components.
#[verifier::reject_recursive_types(K)]
pub struct World<K> {
    pub judge: spec_fn(Probe) -> JudgementView,
    pub hardware: spec_fn(Seq<u8>, Seq<u8>) -> Result<(), ErrorView>,
    pub kek: spec_fn(Seq<u8>, KdfParams, Option<AuthView>) -> Result<K, ErrorView>,
    /// The vault id in the split bundle; nothing when there is no bundle.
    pub bundle: Option<Result<Seq<u8>, ErrorView>>,
    pub release: Result<K, ErrorView>,
    /// The key inside a wrapping, and its length.
    pub unwrap: spec_fn(K, CryptoSuite, Seq<u8>, Seq<u8>, Seq<u8>) -> Result<
        (K, usize),
        ErrorView,
    >,
    /// The random bytes that a wrapped key is overwritten with.
    pub noise: Seq<u8>,
    /// The manifest inside a ciphertext, and what its contents come to.
    pub manifest: spec_fn(K, CryptoSuite, Seq<u8>, Seq<u8>, Seq<u8>) -> Result<
        (ManifestView, Seq<u8>),
        ErrorView,
    >,
    pub empty_root: Seq<u8>,
}

impl<K> World<K> {
    /// The reply to a question, and the container after it.
    pub open spec fn answer(self, c: Seq<u8>, ask: AskView<K>) -> (ReplyView<K>, Seq<u8>) {
        match ask {
            AskView::Head { .. } => (
                ReplyView::Bytes(
                    crate::container::read_at(c, 0, crate::vault::open::HEAD_LEN as int),
                ),
                c,
            ),
            AskView::Judge(p) => (ReplyView::Judged((self.judge)(p)), c),
            AskView::Hardware { hint, salt } => (
                match (self.hardware)(hint, salt) {
                    Ok(_) => ReplyView::Hardware,
                    Err(e) => ReplyView::Failed(e),
                },
                c,
            ),
            AskView::Kek { salt, params, auth } => (
                match (self.kek)(salt, params, auth) {
                    Ok(k) => ReplyView::Kek(k),
                    Err(e) => ReplyView::Failed(e),
                },
                c,
            ),
            AskView::Bundle { path } => (
                match self.bundle {
                    None => ReplyView::NoBundle,
                    Some(Ok(vault_id)) => ReplyView::Bundle { vault_id },
                    Some(Err(e)) => ReplyView::Failed(e),
                },
                c,
            ),
            AskView::Release => (
                match self.release {
                    Ok(k) => ReplyView::Kek(k),
                    Err(e) => ReplyView::Failed(e),
                },
                c,
            ),
            AskView::Unwrap { kek, suite, nonce, wrapped, aad } => (
                match (self.unwrap)(kek, suite, nonce, wrapped, aad) {
                    Ok(r) => ReplyView::Unwrapped { key: r.0, len: r.1 },
                    Err(e) => ReplyView::Failed(e),
                },
                c,
            ),
            AskView::Random => (ReplyView::Random(self.noise), c),
            AskView::Overwrite { at, bytes } => (
                ReplyView::Written,
                crate::container::written(c, at as int, bytes),
            ),
            AskView::Bytes { at, len } => (
                ReplyView::Bytes(crate::container::read_at(c, at as int, len as int)),
                c,
            ),
            AskView::EmptyRoot { master } => (
                ReplyView::Root { master, root: self.empty_root },
                c,
            ),
            AskView::Manifest { master, suite, nonce, sealed, aad } => (
                match (self.manifest)(master, suite, nonce, sealed, aad) {
                    Ok(r) => ReplyView::Manifest { master, manifest: r.0, root: r.1 },
                    Err(e) => ReplyView::Failed(e),
                },
                c,
            ),
        }
    }

    /// Answers questions until there are none left, or `fuel` of them.
    pub open spec fn play(self, c: Seq<u8>, step: StepView<K>, fuel: nat) -> (
        StepView<K>,
        Seq<u8>,
    )
        decreases fuel,
    {
        match step {
            StepView::Ask(o, ask) => if fuel == 0 {
                (step, c)
            } else {
                let (reply, d) = self.answer(c, ask);
                self.play(d, crate::vault::open::next(o, reply), (fuel - 1) as nat)
            },
            _ => (step, c),
        }
    }

    /// The header that a container opens with.
    pub open spec fn header(self, c: Seq<u8>) -> Result<HeaderView, ErrorView> {
        let head = crate::container::read_at(c, 0, crate::vault::open::HEAD_LEN as int);
        crate::format::parsed(head, (self.judge)(crate::format::probe_of(head)))
    }

    /// The largest manifest that is accepted.
    pub open spec fn max_manifest(self, c: Seq<u8>) -> u64 {
        let head = crate::container::read_at(c, 0, crate::vault::open::HEAD_LEN as int);
        (self.judge)(crate::format::probe_of(head)).max_manifest_bytes
    }

    /// What reading the manifest that a header points at gives.
    pub open spec fn read_manifest(self, c: Seq<u8>, h: HeaderView, key: K, max: u64) -> Result<
        (ManifestView, Seq<u8>),
        ErrorView,
    > {
        if h.manifest_len == 0 {
            Ok((crate::manifest::empty_manifest(), self.empty_root))
        } else if h.manifest_len < 32 {
            Err(ErrorView::Format("manifest record is too short"@))
        } else {
            let b = crate::container::read_at(
                c,
                h.manifest_offset as int,
                crate::frame::frame_reach(h.manifest_len) as int,
            );
            match crate::frame::frame_of(b, h.manifest_len, max) {
                Err(e) => Err(e),
                Ok(f) => match (self.manifest)(
                    key,
                    h.crypto_suite,
                    h.crypto_suite.nonce_of(f.nonce),
                    f.sealed,
                    crate::binding::manifest_binding(h.vault_id, f.plain_len, f.generation),
                ) {
                    Err(e) => Err(e),
                    Ok(r) => if r.0.generation != f.generation {
                        Err(
                            ErrorView::Integrity(
                                "the manifest's generation does not match the one recorded beside it"@,
                            ),
                        )
                    } else {
                        Ok(r)
                    },
                },
            }
        }
    }

    /// The key behind the duress wrapping of a header, if the password opens
    /// it. An error is one that stops the open; a slot that does not open is
    /// none.
    pub open spec fn duress_key(self, h: HeaderView) -> Result<Option<K>, ErrorView> {
        match h.slot() {
            None => Ok(None),
            Some(slot) => match (self.kek)(slot.kdf_salt, h.kdf_params, None) {
                Err(e) => Err(e),
                Ok(kek) => match (self.unwrap)(
                    kek,
                    h.crypto_suite,
                    h.crypto_suite.nonce_of(slot.key_nonce),
                    slot.wrapped_key,
                    crate::binding::decoy_binding(h.vault_id),
                ) {
                    Err(_) => Ok(None),
                    Ok(r) => if r.1 == 32 {
                        Ok(Some(r.0))
                    } else {
                        Ok(None)
                    },
                },
            },
        }
    }

    /// The container once the real wrapped key has been overwritten.
    pub open spec fn shredded(self, c: Seq<u8>) -> Seq<u8> {
        crate::container::written(c, crate::format::WRAPPED_KEY_AT as int, self.noise)
    }

    /// What trying the duress identity comes to. `fallback` is reported when
    /// there is none behind the password.
    pub open spec fn duress(self, c: Seq<u8>, path: Seq<char>, fallback: Option<ErrorView>) -> (
        StepView<K>,
        Seq<u8>,
    ) {
        let none = match fallback {
            Some(e) => StepView::Refused(e),
            None => StepView::NotDuress,
        };
        if c.len() < crate::vault::open::HEAD_LEN {
            (none, c)
        } else {
            match self.header(c) {
                Err(e) => (StepView::Refused(e), c),
                Ok(h) => match self.duress_key(h) {
                    Err(e) => (StepView::Refused(e), c),
                    Ok(None) => (none, c),
                    Ok(Some(key)) => self.fired(c, path, h, key),
                },
            }
        }
    }

    /// What follows once a duress wrapping has opened: the real wrapped key is
    /// overwritten, and then the decoy is read, with its chunks where the slot
    /// says that their region lies.
    pub open spec fn fired(self, c: Seq<u8>, path: Seq<char>, h: HeaderView, key: K) -> (
        StepView<K>,
        Seq<u8>,
    ) {
        let d = self.shredded(c);
        let decoy = crate::vault::open::decoy_header(h, self.noise);
        let at = crate::format::slot_of(h.decoy->0).body_offset;
        match self.read_manifest(d, decoy, key, self.max_manifest(c)) {
            Err(e) => (StepView::Refused(e), d),
            Ok(r) => (
                StepView::Opened(
                    VaultView {
                        path,
                        header: HeaderView { integrity_root: r.0.integrity_root, ..decoy },
                        manifest: r.0.placed(at),
                        master: Some(key),
                        data_end: decoy.manifest_offset,
                        identity: Identity::Decoy,
                        shift: r.0.lag(at),
                    },
                ),
                d,
            ),
        }
    }

    /// What the real wrapping of a header opens to. The outer error stops the
    /// open; the inner one is reported unless the duress identity opens.
    pub open spec fn real_key(self, h: HeaderView, authenticator: bool) -> Result<
        Result<(K, usize), ErrorView>,
        ErrorView,
    > {
        if h.auth.required.hardware && !authenticator {
            Err(ErrorView::NotImplemented(crate::vault::open::no_authenticator()))
        } else if h.auth.required.hardware && (self.hardware)(
            h.auth.credential_hint,
            h.auth.prf_salt,
        ) is Err {
            Err((self.hardware)(h.auth.credential_hint, h.auth.prf_salt)->Err_0)
        } else {
            match (self.kek)(h.kdf_salt, h.kdf_params, Some(h.auth)) {
                Err(e) => Err(e),
                Ok(kek) => if flags::is_split(h.flags) {
                    Ok(Err(ErrorView::Other(crate::vault::open::split_needed())))
                } else {
                    Ok(
                        (self.unwrap)(
                            kek,
                            h.crypto_suite,
                            h.crypto_suite.nonce_of(h.master_key_nonce),
                            h.wrapped_master_key,
                            h.aad(),
                        ),
                    )
                },
            }
        }
    }

    /// The real contents under a key, if everything recorded of them agrees.
    pub open spec fn contents(
        self,
        c: Seq<u8>,
        path: Seq<char>,
        h: HeaderView,
        key: K,
        check_root: bool,
    ) -> StepView<K> {
        match self.read_manifest(c, h, key, self.max_manifest(c)) {
            Err(e) => StepView::Refused(e),
            Ok(r) => if r.0.integrity_root != h.integrity_root {
                StepView::Refused(
                    ErrorView::Integrity(
                        "the header's integrity root does not match the manifest"@,
                    ),
                )
            } else if check_root && r.1 != r.0.integrity_root {
                StepView::Refused(
                    ErrorView::Integrity("manifest integrity root is inconsistent"@),
                )
            } else {
                StepView::Opened(
                    VaultView {
                        path,
                        header: h,
                        manifest: r.0,
                        master: Some(key),
                        data_end: h.manifest_offset,
                        identity: Identity::Real,
                        shift: 0,
                    },
                )
            },
        }
    }

    /// What opening a container with a password comes to, and the container
    /// afterwards.
    pub open spec fn opened(self, c: Seq<u8>, path: Seq<char>, authenticator: bool) -> (
        StepView<K>,
        Seq<u8>,
    ) {
        match self.header(c) {
            Err(e) => (StepView::Refused(e), c),
            Ok(h) => match self.real_key(h, authenticator) {
                Err(e) => (StepView::Refused(e), c),
                Ok(Err(e)) => self.duress(c, path, Some(e)),
                Ok(Ok(r)) => if r.1 != 32 {
                    (
                        StepView::Refused(
                            ErrorView::Crypto("unwrapped master key has the wrong length"@),
                        ),
                        c,
                    )
                } else {
                    (self.contents(c, path, h, r.0, true), c)
                },
            },
        }
    }

    /// What opening a container with key components comes to.
    pub open spec fn released(self, c: Seq<u8>, path: Seq<char>) -> StepView<K> {
        match self.header(c) {
            Err(e) => StepView::Refused(e),
            Ok(h) => if !flags::is_split(h.flags) {
                StepView::Refused(
                    ErrorView::Other(
                        "this vault is not split protected; open it with a password"@,
                    ),
                )
            } else {
                match self.bundle {
                    None => StepView::Refused(
                        ErrorView::Format(crate::vault::open::bundle_missing(path + ".split"@)),
                    ),
                    Some(Err(e)) => StepView::Refused(e),
                    Some(Ok(id)) => if id != h.vault_id {
                        StepView::Refused(
                            ErrorView::Integrity("the split bundle belongs to a different vault"@),
                        )
                    } else {
                        match self.release {
                            Err(e) => StepView::Refused(e),
                            Ok(key) => match (self.unwrap)(
                                key,
                                h.crypto_suite,
                                h.crypto_suite.nonce_of(h.master_key_nonce),
                                h.wrapped_master_key,
                                h.aad(),
                            ) {
                                Err(e) => StepView::Refused(e),
                                Ok(r) => if r.1 != 32 {
                                    StepView::Refused(
                                        ErrorView::Crypto(
                                            "unwrapped master key has the wrong length"@,
                                        ),
                                    )
                                } else {
                                    self.contents(c, path, h, r.0, false)
                                },
                            },
                        }
                    },
                }
            },
        }
    }

    /// One question answered.
    proof fn lemma_one(self, c: Seq<u8>, o: OpenerView<K>, ask: AskView<K>, fuel: nat)
        requires
            fuel > 0,
        ensures
            self.play(c, StepView::Ask(o, ask), fuel) == self.play(
                self.answer(c, ask).1,
                crate::vault::open::next(o, self.answer(c, ask).0),
                (fuel - 1) as nat,
            ),
    {
    }

    /// Reading the decoy's manifest, question by question.
    proof fn lemma_decoy_manifest(
        self,
        c: Seq<u8>,
        o: OpenerView<K>,
        h: HeaderView,
        key: K,
        fuel: nat,
    )
        requires
            fuel >= 2,
        ensures
            self.play(c, o.to_manifest(Identity::Decoy, h, key), fuel) == (
                match self.read_manifest(c, h, key, o.max_manifest) {
                    Err(e) => StepView::Refused(e),
                    Ok(r) => StepView::Opened(o.decoy_vault(h, key, r.0)),
                },
                c,
            ),
    {
        reveal_with_fuel(World::play, 3);
    }

    /// Reading the real manifest, question by question.
    proof fn lemma_real_manifest(
        self,
        c: Seq<u8>,
        o: OpenerView<K>,
        h: HeaderView,
        key: K,
        fuel: nat,
    )
        requires
            fuel >= 2,
            o.max_manifest == self.max_manifest(c),
        ensures
            self.play(c, o.to_manifest(Identity::Real, h, key), fuel) == (
                self.contents(c, o.path, h, key, !(o.way is Components)),
                c,
            ),
    {
        reveal_with_fuel(World::play, 3);
    }

    /// Once the noise is drawn, overwriting it and reading it back succeeds.
    proof fn lemma_shred(self, c: Seq<u8>, o: OpenerView<K>, h: HeaderView, key: K, fuel: nat)
        requires
            fuel >= 5,
            c.len() >= crate::vault::open::HEAD_LEN,
            self.noise.len() == crate::format::WRAPPED_KEY_LEN,
            o.max_manifest == self.max_manifest(c),
            o.phase == PhaseView::Random(h, key),
        ensures
            self.play(c, StepView::Ask(o, AskView::Random), fuel) == self.fired(
                c,
                o.path,
                h,
                key,
            ),
    {
        let d = self.shredded(c);
        assert(crate::container::read_at(d, 104, 48) =~= self.noise);
        assert(self.noise.take(48) =~= self.noise);
        let o2 = o.at(PhaseView::Overwrite(h, key, self.noise));
        let o3 = o.at(PhaseView::Reread(h, key, self.noise));
        self.lemma_one(c, o, AskView::Random, fuel);
        self.lemma_one(
            c,
            o2,
            AskView::Overwrite { at: 104, bytes: self.noise },
            (fuel - 1) as nat,
        );
        self.lemma_one(d, o3, AskView::Bytes { at: 104, len: 48 }, (fuel - 2) as nat);
        self.lemma_decoy_manifest(
            d,
            o3,
            crate::vault::open::decoy_header(h, self.noise),
            key,
            (fuel - 3) as nat,
        );
    }

    /// Trying the duress identity, question by question.
    proof fn lemma_duress(self, c: Seq<u8>, o: OpenerView<K>, fuel: nat)
        requires
            fuel >= 9,
            self.noise.len() == crate::format::WRAPPED_KEY_LEN,
            o.phase == PhaseView::<K>::Head(Identity::Decoy),
        ensures
            self.play(c, StepView::Ask(o, AskView::Head { writable: true }), fuel) == self.duress(
                c,
                o.path,
                o.fallback,
            ),
    {
        let head = crate::container::read_at(c, 0, crate::vault::open::HEAD_LEN as int);
        self.lemma_one(c, o, AskView::Head { writable: true }, fuel);
        if head.len() >= crate::vault::open::HEAD_LEN {
            let p = crate::format::probe_of(head);
            let j = (self.judge)(p);
            let o1 = o.at(PhaseView::Judge(Identity::Decoy, head));
            self.lemma_one(c, o1, AskView::Judge(p), (fuel - 1) as nat);
            if let Ok(h) = self.header(c) {
                if let Some(slot) = h.slot() {
                    let o2 = OpenerView {
                        max_manifest: j.max_manifest_bytes,
                        phase: PhaseView::Kek(Identity::Decoy, h),
                        ..o
                    };
                    self.lemma_one(
                        c,
                        o2,
                        AskView::Kek { salt: slot.kdf_salt, params: h.kdf_params, auth: None },
                        (fuel - 2) as nat,
                    );
                    if let Ok(kek) = (self.kek)(slot.kdf_salt, h.kdf_params, None) {
                        let o3 = o2.at(PhaseView::Unwrap(Identity::Decoy, h));
                        self.lemma_one(
                            c,
                            o3,
                            AskView::Unwrap {
                                kek,
                                suite: h.crypto_suite,
                                nonce: h.crypto_suite.nonce_of(slot.key_nonce),
                                wrapped: slot.wrapped_key,
                                aad: crate::binding::decoy_binding(h.vault_id),
                            },
                            (fuel - 3) as nat,
                        );
                        if let Ok(Some(key)) = self.duress_key(h) {
                            let o4 = o3.at(PhaseView::Random(h, key));
                            self.lemma_shred(c, o4, h, key, (fuel - 4) as nat);
                        }
                    }
                }
            }
        }
    }

    /// From the key that the password gives on.
    proof fn lemma_from_kek(
        self,
        c: Seq<u8>,
        o: OpenerView<K>,
        h: HeaderView,
        authenticator: bool,
        fuel: nat,
    )
        requires
            fuel >= 12,
            self.noise.len() == crate::format::WRAPPED_KEY_LEN,
            self.header(c) == Ok::<HeaderView, ErrorView>(h),
            o.way == (Way::Password { authenticator }),
            o.max_manifest == self.max_manifest(c),
            h.auth.required.hardware ==> authenticator && (self.hardware)(
                h.auth.credential_hint,
                h.auth.prf_salt,
            ) is Ok,
        ensures
            self.play(c, o.ask_kek(h), fuel) == self.opened(c, o.path, authenticator),
    {
        let o1 = o.at(PhaseView::Kek(Identity::Real, h));
        self.lemma_one(
            c,
            o1,
            AskView::Kek { salt: h.kdf_salt, params: h.kdf_params, auth: Some(h.auth) },
            fuel,
        );
        if let Ok(kek) = (self.kek)(h.kdf_salt, h.kdf_params, Some(h.auth)) {
            if flags::is_split(h.flags) {
                let o2 = OpenerView {
                    fallback: Some(ErrorView::Other(crate::vault::open::split_needed())),
                    phase: PhaseView::Head(Identity::Decoy),
                    ..o1
                };
                self.lemma_duress(c, o2, (fuel - 1) as nat);
            } else {
                let o2 = o1.at(PhaseView::Unwrap(Identity::Real, h));
                let nonce = h.crypto_suite.nonce_of(h.master_key_nonce);
                self.lemma_one(
                    c,
                    o2,
                    AskView::Unwrap {
                        kek,
                        suite: h.crypto_suite,
                        nonce,
                        wrapped: h.wrapped_master_key,
                        aad: h.aad(),
                    },
                    (fuel - 1) as nat,
                );
                match (self.unwrap)(kek, h.crypto_suite, nonce, h.wrapped_master_key, h.aad()) {
                    Err(e) => {
                        let o3 = OpenerView {
                            fallback: Some(e),
                            phase: PhaseView::Head(Identity::Decoy),
                            ..o2
                        };
                        self.lemma_duress(c, o3, (fuel - 2) as nat);
                    },
                    Ok(r) => {
                        if r.1 == 32 {
                            self.lemma_real_manifest(c, o2, h, r.0, (fuel - 2) as nat);
                        }
                    },
                }
            }
        }
    }

    /// The start of a container, read and judged.
    proof fn lemma_head(self, c: Seq<u8>, o: OpenerView<K>, fuel: nat)
        requires
            fuel >= 2,
            o.phase == PhaseView::<K>::Head(Identity::Real),
        ensures
            match self.header(c) {
                Err(e) => self.play(c, StepView::Ask(o, AskView::Head { writable: false }), fuel) == (
                    StepView::<K>::Refused(e),
                    c,
                ),
                Ok(h) => {
                    let head = crate::container::read_at(
                        c,
                        0,
                        crate::vault::open::HEAD_LEN as int,
                    );
                    let j = (self.judge)(crate::format::probe_of(head));
                    self.play(c, StepView::Ask(o, AskView::Head { writable: false }), fuel) == self.play(
                        c,
                        o.on_judged(Identity::Real, head, j),
                        (fuel - 2) as nat,
                    )
                },
            },
    {
        let head = crate::container::read_at(c, 0, crate::vault::open::HEAD_LEN as int);
        let p = crate::format::probe_of(head);
        let j = (self.judge)(p);
        self.lemma_one(c, o, AskView::Head { writable: false }, fuel);
        if head.len() >= crate::format::HEADER_LEN {
            let o1 = o.at(PhaseView::Judge(Identity::Real, head));
            self.lemma_one(c, o1, AskView::Judge(p), (fuel - 1) as nat);
            assert(o1.on_judged(Identity::Real, head, j) == o.on_judged(Identity::Real, head, j));
        }
    }

    /// An opener, run with a password, comes to what [`World::opened`] says.
    pub proof fn law_open_runs(self, c: Seq<u8>, path: Seq<char>, authenticator: bool)
        requires
            self.noise.len() == crate::format::WRAPPED_KEY_LEN,
        ensures
            self.play(
                c,
                crate::vault::open::first(path, Way::Password { authenticator }),
                16,
            ) == self.opened(c, path, authenticator),
    {
        let o = OpenerView {
            path,
            way: Way::Password { authenticator },
            max_manifest: 0,
            fallback: None,
            phase: PhaseView::<K>::Head(Identity::Real),
        };
        self.lemma_head(c, o, 16);
        if let Ok(h) = self.header(c) {
            let o1 = OpenerView { max_manifest: self.max_manifest(c), ..o };
            if h.auth.required.hardware {
                if authenticator {
                    let o2 = o1.at(PhaseView::Hardware(h));
                    self.lemma_one(
                        c,
                        o2,
                        AskView::Hardware {
                            hint: h.auth.credential_hint,
                            salt: h.auth.prf_salt,
                        },
                        14,
                    );
                    if (self.hardware)(h.auth.credential_hint, h.auth.prf_salt) is Ok {
                        self.lemma_from_kek(c, o2, h, authenticator, 13);
                    }
                }
            } else {
                self.lemma_from_kek(c, o1, h, authenticator, 14);
            }
        }
    }

    /// An opener that tries only the duress identity comes to what
    /// [`World::duress`] says.
    pub proof fn law_duress_runs(self, c: Seq<u8>, path: Seq<char>)
        requires
            self.noise.len() == crate::format::WRAPPED_KEY_LEN,
        ensures
            self.play(c, crate::vault::open::first_duress(path), 16) == self.duress(
                c,
                path,
                None,
            ),
    {
        let o = OpenerView {
            path,
            way: Way::Password { authenticator: false },
            max_manifest: 0,
            fallback: None,
            phase: PhaseView::<K>::Head(Identity::Decoy),
        };
        self.lemma_duress(c, o, 16);
    }

    /// An opener, run with key components, comes to what [`World::released`]
    /// says, and leaves the container as it is.
    pub proof fn law_components_run(self, c: Seq<u8>, path: Seq<char>)
        ensures
            self.play(c, crate::vault::open::first(path, Way::Components), 16) == (
                self.released(c, path),
                c,
            ),
    {
        let o = OpenerView {
            path,
            way: Way::Components,
            max_manifest: 0,
            fallback: None,
            phase: PhaseView::<K>::Head(Identity::Real),
        };
        self.lemma_head(c, o, 16);
        if let Ok(h) = self.header(c) {
            let o1 = OpenerView { max_manifest: self.max_manifest(c), ..o };
            if flags::is_split(h.flags) {
                let o2 = o1.at(PhaseView::Bundle(h));
                self.lemma_one(c, o2, AskView::Bundle { path: path + ".split"@ }, 14);
                if let Some(Ok(id)) = self.bundle {
                    if id == h.vault_id {
                        let o3 = o1.at(PhaseView::Release(h));
                        self.lemma_one(c, o3, AskView::Release, 13);
                        if let Ok(kek) = self.release {
                            let o4 = o1.at(PhaseView::Unwrap(Identity::Real, h));
                            let nonce = h.crypto_suite.nonce_of(h.master_key_nonce);
                            self.lemma_one(
                                c,
                                o4,
                                AskView::Unwrap {
                                    kek,
                                    suite: h.crypto_suite,
                                    nonce,
                                    wrapped: h.wrapped_master_key,
                                    aad: h.aad(),
                                },
                                12,
                            );
                            if let Ok(r) = (self.unwrap)(
                                kek,
                                h.crypto_suite,
                                nonce,
                                h.wrapped_master_key,
                                h.aad(),
                            ) {
                                if r.1 == 32 {
                                    self.lemma_real_manifest(c, o4, h, r.0, 11);
                                }
                            }
                        }
                    }
                }
            }
        }
    }
}

} // verus!
