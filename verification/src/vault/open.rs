//! Opening a vault, one question at a time.
//!
//! An [`Opener`] decides what happens next; whoever runs it does the reading,
//! the writing and the cryptography, and answers. The real identity is always
//! tried first. A duress wrapping is reached only once that has failed, so an
//! ordinary open never goes near it; and when one does open, the real wrapped
//! key is overwritten and read back before anything of the decoy is returned.

use crate::binding::{decoy_aad, manifest_aad};
use crate::error::{Error, ErrorView};
use crate::format::{flags, Header, HeaderView, Judgement, JudgementView, Probe};
use crate::frame::Frame;
use crate::le::same_bytes;
use crate::manifest::{Manifest, ManifestView};
use crate::paths::split_bundle_path;
use crate::suite::{AuthDescriptor, AuthView, CryptoSuite, KdfParams, VaultId};
use crate::text::join3;
use crate::vault::{Identity, Vault, VaultView};
use vstd::prelude::*;

verus! {

/// How much of a container is read first: the header and the decoy block.
pub const HEAD_LEN: usize = 512;

/// With what a vault is being opened.
#[derive(Debug, Clone, Copy, PartialEq, Eq, Structural)]
pub enum Way {
    /// A password, with or without an authenticator at hand.
    Password { authenticator: bool },
    /// A quorum of key components.
    Components,
}

/// What is asked of whoever runs an opener.
pub enum Ask<K> {
    /// The first [`HEAD_LEN`] bytes of the container, or as many as there are.
    /// Where the duress identity is tried the container has to be writable.
    Head { writable: bool },
    /// What the registries say of a header.
    Judge(Probe),
    /// The hardware contribution, to be kept for the key that follows.
    Hardware { hint: [u8; 20], salt: [u8; 32] },
    /// The key that the password gives under a salt, composed with the
    /// hardware contribution where a descriptor is named.
    Kek { salt: [u8; 32], params: KdfParams, auth: Option<AuthDescriptor> },
    /// The split bundle at a path.
    Bundle { path: String },
    /// The key that the components release from the bundle.
    Release,
    /// The key inside a wrapping.
    Unwrap { kek: K, suite: CryptoSuite, nonce: Vec<u8>, wrapped: [u8; 48], aad: Vec<u8> },
    /// Fresh random bytes, as many as a wrapped key has.
    Random,
    /// That bytes be written at a position, and reach the storage.
    Overwrite { at: u64, bytes: [u8; 48] },
    /// Up to `len` bytes at a position, as many as there are.
    Bytes { at: u64, len: u64 },
    /// What the contents of an empty manifest come to.
    EmptyRoot { master: K },
    /// The manifest inside a ciphertext, and what its contents come to.
    Manifest { master: K, suite: CryptoSuite, nonce: Vec<u8>, sealed: Vec<u8>, aad: Vec<u8> },
}

/// A question, with its parts as their views.
pub enum AskView<K> {
    Head { writable: bool },
    Judge(Probe),
    Hardware { hint: Seq<u8>, salt: Seq<u8> },
    Kek { salt: Seq<u8>, params: KdfParams, auth: Option<AuthView> },
    Bundle { path: Seq<char> },
    Release,
    Unwrap { kek: K, suite: CryptoSuite, nonce: Seq<u8>, wrapped: Seq<u8>, aad: Seq<u8> },
    Random,
    Overwrite { at: u64, bytes: Seq<u8> },
    Bytes { at: u64, len: u64 },
    EmptyRoot { master: K },
    Manifest { master: K, suite: CryptoSuite, nonce: Seq<u8>, sealed: Seq<u8>, aad: Seq<u8> },
}

impl<K> View for Ask<K> {
    type V = AskView<K>;

    open spec fn view(&self) -> AskView<K> {
        match *self {
            Ask::Head { writable } => AskView::Head { writable },
            Ask::Judge(p) => AskView::Judge(p),
            Ask::Hardware { hint, salt } => AskView::Hardware { hint: hint@, salt: salt@ },
            Ask::Kek { salt, params, auth } => AskView::Kek {
                salt: salt@,
                params,
                auth: match auth {
                    Some(a) => Some(a@),
                    None => None,
                },
            },
            Ask::Bundle { path } => AskView::Bundle { path: path@ },
            Ask::Release => AskView::Release,
            Ask::Unwrap { kek, suite, nonce, wrapped, aad } => AskView::Unwrap {
                kek,
                suite,
                nonce: nonce@,
                wrapped: wrapped@,
                aad: aad@,
            },
            Ask::Random => AskView::Random,
            Ask::Overwrite { at, bytes } => AskView::Overwrite { at, bytes: bytes@ },
            Ask::Bytes { at, len } => AskView::Bytes { at, len },
            Ask::EmptyRoot { master } => AskView::EmptyRoot { master },
            Ask::Manifest { master, suite, nonce, sealed, aad } => AskView::Manifest {
                master,
                suite,
                nonce: nonce@,
                sealed: sealed@,
                aad: aad@,
            },
        }
    }
}

/// What comes back for a question.
pub enum Reply<K> {
    /// It could not be done.
    Failed(Error),
    Bytes(Vec<u8>),
    Judged(Judgement),
    /// The hardware has contributed.
    Hardware,
    Kek(K),
    /// The split bundle was found, and belongs to this vault.
    Bundle { vault_id: VaultId },
    /// There is no split bundle.
    NoBundle,
    /// The wrapping opened, to a secret of so many bytes.
    Unwrapped { key: K, len: usize },
    Random([u8; 48]),
    /// The bytes are written.
    Written,
    Root { master: K, root: [u8; 32] },
    Manifest { master: K, manifest: Manifest, root: [u8; 32] },
}

/// A reply, with its parts as their views.
pub enum ReplyView<K> {
    Failed(ErrorView),
    Bytes(Seq<u8>),
    Judged(JudgementView),
    Hardware,
    Kek(K),
    Bundle { vault_id: Seq<u8> },
    NoBundle,
    Unwrapped { key: K, len: usize },
    Random(Seq<u8>),
    Written,
    Root { master: K, root: Seq<u8> },
    Manifest { master: K, manifest: ManifestView, root: Seq<u8> },
}

impl<K> View for Reply<K> {
    type V = ReplyView<K>;

    open spec fn view(&self) -> ReplyView<K> {
        match *self {
            Reply::Failed(e) => ReplyView::Failed(e@),
            Reply::Bytes(b) => ReplyView::Bytes(b@),
            Reply::Judged(j) => ReplyView::Judged(j@),
            Reply::Hardware => ReplyView::Hardware,
            Reply::Kek(k) => ReplyView::Kek(k),
            Reply::Bundle { vault_id } => ReplyView::Bundle { vault_id: vault_id@ },
            Reply::NoBundle => ReplyView::NoBundle,
            Reply::Unwrapped { key, len } => ReplyView::Unwrapped { key, len },
            Reply::Random(b) => ReplyView::Random(b@),
            Reply::Written => ReplyView::Written,
            Reply::Root { master, root } => ReplyView::Root { master, root: root@ },
            Reply::Manifest { master, manifest, root } => ReplyView::Manifest {
                master,
                manifest: manifest@,
                root: root@,
            },
        }
    }
}

impl<K> ReplyView<K> {
    /// A judged suite's nonce fits the field it is stored in.
    pub open spec fn wf(self) -> bool {
        self matches ReplyView::Judged(j) ==> j.wf()
    }
}

/// What an opener is waiting for.
enum Phase<K> {
    Head(Identity),
    Judge(Identity, Vec<u8>),
    Hardware(Header),
    Kek(Identity, Header),
    Bundle(Header),
    Release(Header),
    Unwrap(Identity, Header),
    Random(Header, K),
    Overwrite(Header, K, [u8; 48]),
    Reread(Header, K, [u8; 48]),
    Frame(Identity, Header, K),
    Root(Header),
    Manifest(Identity, Header, u64),
}

/// A phase, with its parts as their views.
pub enum PhaseView<K> {
    Head(Identity),
    Judge(Identity, Seq<u8>),
    Hardware(HeaderView),
    Kek(Identity, HeaderView),
    Bundle(HeaderView),
    Release(HeaderView),
    Unwrap(Identity, HeaderView),
    Random(HeaderView, K),
    Overwrite(HeaderView, K, Seq<u8>),
    Reread(HeaderView, K, Seq<u8>),
    Frame(Identity, HeaderView, K),
    Root(HeaderView),
    Manifest(Identity, HeaderView, u64),
}

impl<K> Phase<K> {
    spec fn view(self) -> PhaseView<K> {
        match self {
            Phase::Head(side) => PhaseView::Head(side),
            Phase::Judge(side, b) => PhaseView::Judge(side, b@),
            Phase::Hardware(h) => PhaseView::Hardware(h@),
            Phase::Kek(side, h) => PhaseView::Kek(side, h@),
            Phase::Bundle(h) => PhaseView::Bundle(h@),
            Phase::Release(h) => PhaseView::Release(h@),
            Phase::Unwrap(side, h) => PhaseView::Unwrap(side, h@),
            Phase::Random(h, k) => PhaseView::Random(h@, k),
            Phase::Overwrite(h, k, s) => PhaseView::Overwrite(h@, k, s@),
            Phase::Reread(h, k, s) => PhaseView::Reread(h@, k, s@),
            Phase::Frame(side, h, k) => PhaseView::Frame(side, h@, k),
            Phase::Root(h) => PhaseView::Root(h@),
            Phase::Manifest(side, h, g) => PhaseView::Manifest(side, h@, g),
        }
    }
}

/// A header from which nonces and wrappings can be taken; for the decoy, one
/// with a block.
pub open spec fn usable(side: Identity, h: HeaderView) -> bool {
    &&& h.wf()
    &&& h.crypto_suite.wf()
    &&& side is Decoy ==> h.decoy is Some
}

impl<K> PhaseView<K> {
    pub open spec fn wf(self) -> bool {
        match self {
            PhaseView::Head(_) => true,
            PhaseView::Judge(_, b) => b.len() >= crate::format::HEADER_LEN,
            PhaseView::Hardware(h) => usable(Identity::Real, h),
            PhaseView::Kek(side, h) => usable(side, h),
            PhaseView::Bundle(h) => usable(Identity::Real, h),
            PhaseView::Release(h) => usable(Identity::Real, h),
            PhaseView::Unwrap(side, h) => usable(side, h),
            PhaseView::Random(h, _) => usable(Identity::Decoy, h),
            PhaseView::Overwrite(h, _, s) => usable(Identity::Decoy, h),
            PhaseView::Reread(h, _, s) => usable(Identity::Decoy, h),
            PhaseView::Frame(side, h, _) => usable(side, h),
            PhaseView::Root(h) => usable(Identity::Real, h),
            PhaseView::Manifest(side, h, _) => usable(side, h),
        }
    }
}

/// The opening of one vault, between two questions.
pub struct Opener<K> {
    path: String,
    way: Way,
    max_manifest: u64,
    /// What to report if there is no duress identity behind the password.
    /// Absent when only the duress identity is being tried.
    fallback: Option<Error>,
    phase: Phase<K>,
}

/// An opener, with its parts as their views.
pub struct OpenerView<K> {
    pub path: Seq<char>,
    pub way: Way,
    pub max_manifest: u64,
    pub fallback: Option<ErrorView>,
    pub phase: PhaseView<K>,
}

impl<K> View for Opener<K> {
    type V = OpenerView<K>;

    closed spec fn view(&self) -> OpenerView<K> {
        OpenerView {
            path: self.path@,
            way: self.way,
            max_manifest: self.max_manifest,
            fallback: match self.fallback {
                Some(e) => Some(e@),
                None => None,
            },
            phase: self.phase.view(),
        }
    }
}

/// What an opener comes to: another question, or an end.
pub enum Step<K> {
    Ask(Opener<K>, Ask<K>),
    Opened(Vault<K>),
    Refused(Error),
    /// There is no duress identity behind the password that was tried.
    NotDuress,
}

/// A step, with its parts as their views.
pub enum StepView<K> {
    Ask(OpenerView<K>, AskView<K>),
    Opened(VaultView<K>),
    Refused(ErrorView),
    NotDuress,
}

impl<K> View for Step<K> {
    type V = StepView<K>;

    open spec fn view(&self) -> StepView<K> {
        match *self {
            Step::Ask(o, a) => StepView::Ask(o@, a@),
            Step::Opened(v) => StepView::Opened(v@),
            Step::Refused(e) => StepView::Refused(e@),
            Step::NotDuress => StepView::NotDuress,
        }
    }
}

impl<K> StepView<K> {
    /// The opener goes on in order, or the vault is in order.
    pub open spec fn wf(self) -> bool {
        match self {
            StepView::Ask(o, _) => o.phase.wf(),
            StepView::Opened(v) => v.wf(),
            _ => true,
        }
    }
}

impl<K> OpenerView<K> {
    /// The same opener, waiting for something else.
    pub open spec fn at(self, phase: PhaseView<K>) -> OpenerView<K> {
        OpenerView { phase, ..self }
    }

    /// No duress identity was found.
    pub open spec fn give_up(self) -> StepView<K> {
        match self.fallback {
            Some(e) => StepView::Refused(e),
            None => StepView::NotDuress,
        }
    }

    /// The real identity did not open: the duress identity is tried, and `e`
    /// is reported if there is none.
    pub open spec fn to_duress(self, e: ErrorView) -> StepView<K> {
        StepView::Ask(
            OpenerView {
                fallback: Some(e),
                phase: PhaseView::Head(Identity::Decoy),
                ..self
            },
            AskView::Head { writable: true },
        )
    }

    /// The start of the container was read.
    pub open spec fn on_head(self, side: Identity, b: Seq<u8>) -> StepView<K> {
        if side is Decoy && b.len() < HEAD_LEN {
            self.give_up()
        } else if b.len() < crate::format::HEADER_LEN {
            StepView::Refused(ErrorView::Format("file is too short to be an AZV vault"@))
        } else {
            StepView::Ask(
                self.at(PhaseView::Judge(side, b)),
                AskView::Judge(crate::format::probe_of(b)),
            )
        }
    }

    /// The key that the password gives for the real identity is asked for.
    pub open spec fn ask_kek(self, h: HeaderView) -> StepView<K> {
        StepView::Ask(
            self.at(PhaseView::Kek(Identity::Real, h)),
            AskView::Kek { salt: h.kdf_salt, params: h.kdf_params, auth: Some(h.auth) },
        )
    }

    /// The header was judged.
    pub open spec fn on_judged(self, side: Identity, b: Seq<u8>, j: JudgementView) -> StepView<
        K,
    > {
        let o = OpenerView { max_manifest: j.max_manifest_bytes, ..self };
        match crate::format::parsed(b, j) {
            Err(e) => StepView::Refused(e),
            Ok(h) => match side {
                Identity::Decoy => match h.slot() {
                    None => o.give_up(),
                    Some(slot) => StepView::Ask(
                        o.at(PhaseView::Kek(Identity::Decoy, h)),
                        AskView::Kek { salt: slot.kdf_salt, params: h.kdf_params, auth: None },
                    ),
                },
                Identity::Real => match o.way {
                    Way::Password { authenticator } => if h.auth.required.hardware {
                        if authenticator {
                            StepView::Ask(
                                o.at(PhaseView::Hardware(h)),
                                AskView::Hardware {
                                    hint: h.auth.credential_hint,
                                    salt: h.auth.prf_salt,
                                },
                            )
                        } else {
                            StepView::Refused(ErrorView::NotImplemented(no_authenticator()))
                        }
                    } else {
                        o.ask_kek(h)
                    },
                    Way::Components => if flags::is_split(h.flags) {
                        StepView::Ask(
                            o.at(PhaseView::Bundle(h)),
                            AskView::Bundle { path: o.path + ".split"@ },
                        )
                    } else {
                        StepView::Refused(
                            ErrorView::Other(
                                "this vault is not split protected; open it with a password"@,
                            ),
                        )
                    },
                },
            },
        }
    }

    /// The real wrapping is asked to be opened.
    pub open spec fn ask_unwrap(self, h: HeaderView, kek: K) -> StepView<K> {
        StepView::Ask(
            self.at(PhaseView::Unwrap(Identity::Real, h)),
            AskView::Unwrap {
                kek,
                suite: h.crypto_suite,
                nonce: h.crypto_suite.nonce_of(h.master_key_nonce),
                wrapped: h.wrapped_master_key,
                aad: h.aad(),
            },
        )
    }

    /// The key of a side was derived.
    pub open spec fn on_kek(self, side: Identity, h: HeaderView, kek: K) -> StepView<K> {
        match side {
            Identity::Real => if flags::is_split(h.flags) {
                self.to_duress(ErrorView::Other(split_needed()))
            } else {
                self.ask_unwrap(h, kek)
            },
            Identity::Decoy => {
                let slot = crate::format::slot_of(h.decoy->0);
                StepView::Ask(
                    self.at(PhaseView::Unwrap(Identity::Decoy, h)),
                    AskView::Unwrap {
                        kek,
                        suite: h.crypto_suite,
                        nonce: h.crypto_suite.nonce_of(slot.key_nonce),
                        wrapped: slot.wrapped_key,
                        aad: crate::binding::decoy_binding(h.vault_id),
                    },
                )
            },
        }
    }

    /// A split bundle was found.
    pub open spec fn on_bundle(self, h: HeaderView, vault_id: Seq<u8>) -> StepView<K> {
        if vault_id != h.vault_id {
            StepView::Refused(
                ErrorView::Integrity("the split bundle belongs to a different vault"@),
            )
        } else {
            StepView::Ask(self.at(PhaseView::Release(h)), AskView::Release)
        }
    }

    /// A wrapping opened.
    pub open spec fn on_unwrapped(
        self,
        side: Identity,
        h: HeaderView,
        key: K,
        len: usize,
    ) -> StepView<K> {
        match side {
            Identity::Real => if len != 32 {
                StepView::Refused(
                    ErrorView::Crypto("unwrapped master key has the wrong length"@),
                )
            } else {
                self.to_manifest(Identity::Real, h, key)
            },
            Identity::Decoy => if len != 32 {
                self.give_up()
            } else {
                StepView::Ask(self.at(PhaseView::Random(h, key)), AskView::Random)
            },
        }
    }

    /// The overwritten key was read back.
    pub open spec fn on_reread(
        self,
        h: HeaderView,
        key: K,
        shredded: Seq<u8>,
        b: Seq<u8>,
    ) -> StepView<K> {
        if b.len() < crate::format::WRAPPED_KEY_LEN {
            StepView::Refused(ErrorView::Io("failed to fill whole buffer"@))
        } else if b.take(crate::format::WRAPPED_KEY_LEN as int) != shredded {
            StepView::Refused(ErrorView::Other("the vault could not be opened"@))
        } else {
            self.to_manifest(Identity::Decoy, decoy_header(h, shredded), key)
        }
    }

    /// The key is there, and the manifest is looked for.
    pub open spec fn to_manifest(self, side: Identity, h: HeaderView, key: K) -> StepView<K> {
        if h.manifest_len == 0 {
            if side is Decoy {
                StepView::Opened(self.decoy_vault(h, key, crate::manifest::empty_manifest()))
            } else if self.way is Components {
                self.real_vault(h, key, crate::manifest::empty_manifest(), None)
            } else {
                StepView::Ask(self.at(PhaseView::Root(h)), AskView::EmptyRoot { master: key })
            }
        } else if h.manifest_len < 32 {
            StepView::Refused(ErrorView::Format("manifest record is too short"@))
        } else {
            StepView::Ask(
                self.at(PhaseView::Frame(side, h, key)),
                AskView::Bytes {
                    at: h.manifest_offset,
                    len: crate::frame::frame_reach(h.manifest_len),
                },
            )
        }
    }

    /// The manifest's record was read.
    pub open spec fn on_frame(
        self,
        side: Identity,
        h: HeaderView,
        key: K,
        b: Seq<u8>,
    ) -> StepView<K> {
        match crate::frame::frame_of(b, h.manifest_len, self.max_manifest) {
            Err(e) => StepView::Refused(e),
            Ok(f) => StepView::Ask(
                self.at(PhaseView::Manifest(side, h, f.generation)),
                AskView::Manifest {
                    master: key,
                    suite: h.crypto_suite,
                    nonce: h.crypto_suite.nonce_of(f.nonce),
                    sealed: f.sealed,
                    aad: crate::binding::manifest_binding(h.vault_id, f.plain_len, f.generation),
                },
            ),
        }
    }

    /// The manifest was opened.
    pub open spec fn on_manifest(
        self,
        side: Identity,
        h: HeaderView,
        generation: u64,
        master: K,
        m: ManifestView,
        root: Seq<u8>,
    ) -> StepView<K> {
        if m.generation != generation {
            StepView::Refused(
                ErrorView::Integrity(
                    "the manifest's generation does not match the one recorded beside it"@,
                ),
            )
        } else if side is Decoy {
            StepView::Opened(self.decoy_vault(h, master, m))
        } else if self.way is Components {
            self.real_vault(h, master, m, None)
        } else {
            self.real_vault(h, master, m, Some(root))
        }
    }

    /// The real contents, if the header, the manifest and, where it is known,
    /// what the contents come to all agree.
    pub open spec fn real_vault(
        self,
        h: HeaderView,
        master: K,
        m: ManifestView,
        root: Option<Seq<u8>>,
    ) -> StepView<K> {
        if m.integrity_root != h.integrity_root {
            StepView::Refused(
                ErrorView::Integrity("the header's integrity root does not match the manifest"@),
            )
        } else if root is Some && root->0 != m.integrity_root {
            StepView::Refused(ErrorView::Integrity("manifest integrity root is inconsistent"@))
        } else {
            StepView::Opened(
                VaultView {
                    path: self.path,
                    header: h,
                    manifest: m,
                    master: Some(master),
                    data_end: h.manifest_offset,
                    identity: Identity::Real,
                    shift: 0,
                },
            )
        }
    }

    /// The decoy contents, under a header that speaks of them, and with the
    /// chunks where the slot says that their region lies now.
    pub open spec fn decoy_vault(self, h: HeaderView, master: K, m: ManifestView) -> VaultView<
        K,
    > {
        let at = crate::format::slot_of(h.decoy->0).body_offset;
        VaultView {
            path: self.path,
            header: HeaderView { integrity_root: m.integrity_root, ..h },
            manifest: m.placed(at),
            master: Some(master),
            data_end: h.manifest_offset,
            identity: Identity::Decoy,
            shift: m.lag(at),
        }
    }
}

/// A header that points at the decoy's manifest, with its key overwritten.
pub open spec fn decoy_header(h: HeaderView, shredded: Seq<u8>) -> HeaderView {
    let slot = crate::format::slot_of(h.decoy->0);
    HeaderView {
        wrapped_master_key: shredded,
        manifest_offset: slot.manifest_offset,
        manifest_len: slot.manifest_len,
        ..h
    }
}

/// What is reported when a factor is missing.
pub open spec fn no_authenticator() -> Seq<char> {
    "this vault requires a FIDO2 factor. No authenticator was supplied, and the vault is refused rather than opened with the password alone"@
}

/// What is reported when a password is offered for a split vault.
pub open spec fn split_needed() -> Seq<char> {
    "this vault is protected by split keys and cannot be opened with a password alone. Supply the required key components; see `zt split status`"@
}

/// What is reported when a split bundle is missing.
pub open spec fn bundle_missing(path: Seq<char>) -> Seq<char> {
    "the split bundle "@ + path
        + " is missing. Without it the vault cannot be opened by anyone, including its owner; restore it from a backup"@
}

/// The first question of an open.
pub open spec fn first<K>(path: Seq<char>, way: Way) -> StepView<K> {
    StepView::Ask(
        OpenerView {
            path,
            way,
            max_manifest: 0,
            fallback: None,
            phase: PhaseView::Head(Identity::Real),
        },
        AskView::Head { writable: false },
    )
}

/// The first question when only the duress identity is tried.
pub open spec fn first_duress<K>(path: Seq<char>) -> StepView<K> {
    StepView::Ask(
        OpenerView {
            path,
            way: Way::Password { authenticator: false },
            max_manifest: 0,
            fallback: None,
            phase: PhaseView::Head(Identity::Decoy),
        },
        AskView::Head { writable: true },
    )
}

/// What follows a reply.
pub open spec fn next<K>(o: OpenerView<K>, r: ReplyView<K>) -> StepView<K> {
    match (o.phase, r) {
        (PhaseView::Unwrap(Identity::Real, _), ReplyView::Failed(e)) => if o.way is Components {
            StepView::Refused(e)
        } else {
            o.to_duress(e)
        },
        (PhaseView::Unwrap(Identity::Decoy, _), ReplyView::Failed(_)) => o.give_up(),
        (_, ReplyView::Failed(e)) => StepView::Refused(e),
        (PhaseView::Head(side), ReplyView::Bytes(b)) => o.on_head(side, b),
        (PhaseView::Judge(side, b), ReplyView::Judged(j)) => o.on_judged(side, b, j),
        (PhaseView::Hardware(h), ReplyView::Hardware) => o.ask_kek(h),
        (PhaseView::Kek(side, h), ReplyView::Kek(k)) => o.on_kek(side, h, k),
        (PhaseView::Bundle(h), ReplyView::NoBundle) => StepView::Refused(
            ErrorView::Format(bundle_missing(o.path + ".split"@)),
        ),
        (PhaseView::Bundle(h), ReplyView::Bundle { vault_id }) => o.on_bundle(h, vault_id),
        (PhaseView::Release(h), ReplyView::Kek(k)) => o.ask_unwrap(h, k),
        (PhaseView::Unwrap(side, h), ReplyView::Unwrapped { key, len }) => o.on_unwrapped(
            side,
            h,
            key,
            len,
        ),
        (PhaseView::Random(h, key), ReplyView::Random(s)) => StepView::Ask(
            o.at(PhaseView::Overwrite(h, key, s)),
            AskView::Overwrite { at: crate::format::WRAPPED_KEY_AT as u64, bytes: s },
        ),
        (PhaseView::Overwrite(h, key, s), ReplyView::Written) => StepView::Ask(
            o.at(PhaseView::Reread(h, key, s)),
            AskView::Bytes {
                at: crate::format::WRAPPED_KEY_AT as u64,
                len: crate::format::WRAPPED_KEY_LEN as u64,
            },
        ),
        (PhaseView::Reread(h, key, s), ReplyView::Bytes(b)) => o.on_reread(h, key, s, b),
        (PhaseView::Frame(side, h, key), ReplyView::Bytes(b)) => o.on_frame(side, h, key, b),
        (PhaseView::Root(h), ReplyView::Root { master, root }) => o.real_vault(
            h,
            master,
            crate::manifest::empty_manifest(),
            Some(root),
        ),
        (
            PhaseView::Manifest(side, h, generation),
            ReplyView::Manifest { master, manifest, root },
        ) => o.on_manifest(side, h, generation, master, manifest, root),
        _ => StepView::Refused(
            ErrorView::Other("the reply does not answer what was asked"@),
        ),
    }
}

impl<K> Vault<K> {
    /// Begins to open a vault with a password alone.
    pub fn open(path: String) -> (r: Step<K>)
        ensures
            r@ == first::<K>(path@, Way::Password { authenticator: false }),
            r@.wf(),
    {
        Self::open_with(path, false)
    }

    /// Begins to open a vault with a password, and with a hardware factor when
    /// one is required.
    ///
    /// A vault that requires a hardware factor is refused when no
    /// authenticator is at hand: there is no path that falls back to the
    /// password alone.
    pub fn open_with(path: String, authenticator: bool) -> (r: Step<K>)
        ensures
            r@ == first::<K>(path@, Way::Password { authenticator }),
            r@.wf(),
    {
        begin(path, Way::Password { authenticator }, Identity::Real)
    }

    /// Begins to open a split-protected vault from a quorum of key components.
    pub fn open_with_components(path: String) -> (r: Step<K>)
        ensures
            r@ == first::<K>(path@, Way::Components),
            r@.wf(),
    {
        begin(path, Way::Components, Identity::Real)
    }

    /// Begins to try the duress identity alone.
    pub fn try_duress_open(path: String) -> (r: Step<K>)
        ensures
            r@ == first_duress::<K>(path@),
            r@.wf(),
    {
        begin(path, Way::Password { authenticator: false }, Identity::Decoy)
    }
}

/// Asks the first question.
fn begin<K>(path: String, way: Way, side: Identity) -> (r: Step<K>)
    ensures
        r@ == StepView::Ask(
            (OpenerView::<K> {
                path: path@,
                way,
                max_manifest: 0,
                fallback: None,
                phase: PhaseView::Head(side),
            }),
            AskView::Head { writable: side is Decoy },
        ),
        r@.wf(),
{
    Step::Ask(
        Opener { path, way, max_manifest: 0, fallback: None, phase: Phase::Head(side) },
        Ask::Head { writable: side == Identity::Decoy },
    )
}

impl<K> Opener<K> {
    /// Goes on with what came back for the last question.
    pub fn step(self, reply: Reply<K>) -> (r: Step<K>)
        requires
            self@.phase.wf(),
            reply@.wf(),
        ensures
            r@ == next(self@, reply@),
            r@.wf(),
    {
        let Opener { path, way, max_manifest, fallback, phase } = self;
        let base: Base = Base { path, way, max_manifest, fallback };
        match (phase, reply) {
            (Phase::Unwrap(side, _), Reply::Failed(e)) => match side {
                Identity::Real => match base.way {
                    Way::Components => Step::Refused(e),
                    Way::Password { .. } => base.to_duress(e),
                },
                Identity::Decoy => base.give_up(),
            },
            (_, Reply::Failed(e)) => Step::Refused(e),
            (Phase::Head(side), Reply::Bytes(b)) => base.on_head(side, b),
            (Phase::Judge(side, b), Reply::Judged(j)) => base.on_judged(side, b, j),
            (Phase::Hardware(h), Reply::Hardware) => base.ask_kek(h),
            (Phase::Kek(side, h), Reply::Kek(k)) => base.on_kek(side, h, k),
            (Phase::Bundle(_), Reply::NoBundle) => {
                let at = split_bundle_path(base.path.as_str());
                Step::Refused(
                    Error::Format(
                        join3(
                            "the split bundle ",
                            at.as_str(),
                            " is missing. Without it the vault cannot be opened by anyone, including its owner; restore it from a backup",
                        ),
                    ),
                )
            },
            (Phase::Bundle(h), Reply::Bundle { vault_id }) => base.on_bundle(h, vault_id),
            (Phase::Release(h), Reply::Kek(k)) => base.ask_unwrap(h, k),
            (Phase::Unwrap(side, h), Reply::Unwrapped { key, len }) => base.on_unwrapped(
                side,
                h,
                key,
                len,
            ),
            (Phase::Random(h, key), Reply::Random(s)) => base.ask(
                Phase::Overwrite(h, key, s),
                Ask::Overwrite { at: crate::format::WRAPPED_KEY_AT as u64, bytes: s },
            ),
            (Phase::Overwrite(h, key, s), Reply::Written) => base.ask(
                Phase::Reread(h, key, s),
                Ask::Bytes {
                    at: crate::format::WRAPPED_KEY_AT as u64,
                    len: crate::format::WRAPPED_KEY_LEN as u64,
                },
            ),
            (Phase::Reread(h, key, s), Reply::Bytes(b)) => base.on_reread(h, key, s, b),
            (Phase::Frame(side, h, key), Reply::Bytes(b)) => base.on_frame(side, h, key, b),
            (Phase::Root(h), Reply::Root { master, root }) => base.real_vault(
                h,
                master,
                Manifest::empty(),
                Some(root),
            ),
            (
                Phase::Manifest(side, h, generation),
                Reply::Manifest { master, manifest, root },
            ) => base.on_manifest(side, h, generation, master, manifest, root),
            _ => Step::Refused(
                Error::Other("the reply does not answer what was asked".to_owned()),
            ),
        }
    }
}

/// What an opener keeps from one question to the next.
struct Base {
    path: String,
    way: Way,
    max_manifest: u64,
    fallback: Option<Error>,
}

impl Base {
    /// The opener that these parts belong to. What it waits for plays no role
    /// in what follows.
    spec fn with<K>(self) -> OpenerView<K> {
        OpenerView {
            path: self.path@,
            way: self.way,
            max_manifest: self.max_manifest,
            fallback: match self.fallback {
                Some(e) => Some(e@),
                None => None,
            },
            phase: PhaseView::Head(Identity::Real),
        }
    }

    /// Asks a question.
    fn ask<K>(self, phase: Phase<K>, ask: Ask<K>) -> (r: Step<K>)
        ensures
            r@ == StepView::Ask(self.with::<K>().at(phase.view()), ask@),
    {
        let Base { path, way, max_manifest, fallback } = self;
        Step::Ask(Opener { path, way, max_manifest, fallback, phase }, ask)
    }

    /// No duress identity was found.
    fn give_up<K>(self) -> (r: Step<K>)
        ensures
            r@ == self.with::<K>().give_up(),
            r@.wf(),
    {
        match self.fallback {
            Some(e) => Step::Refused(e),
            None => Step::NotDuress,
        }
    }

    /// Turns to the duress identity.
    ///
    /// Also tried before reporting that a split vault needs its components:
    /// under coercion the person will not have their token, and the duress
    /// path has to work from a password alone.
    fn to_duress<K>(self, e: Error) -> (r: Step<K>)
        ensures
            r@ == self.with::<K>().to_duress(e@),
            r@.wf(),
    {
        let Base { path, way, max_manifest, fallback: _ } = self;
        Step::Ask(
            Opener {
                path,
                way,
                max_manifest,
                fallback: Some(e),
                phase: Phase::Head(Identity::Decoy),
            },
            Ask::Head { writable: true },
        )
    }

    fn on_head<K>(self, side: Identity, b: Vec<u8>) -> (r: Step<K>)
        ensures
            r@ == self.with::<K>().on_head(side, b@),
            r@.wf(),
    {
        if side == Identity::Decoy && b.len() < HEAD_LEN {
            return self.give_up();
        }
        match crate::format::probe(b.as_slice()) {
            None => Step::Refused(Error::Format("file is too short to be an AZV vault".to_owned())),
            Some(p) => self.ask(Phase::Judge(side, b), Ask::Judge(p)),
        }
    }

    fn ask_kek<K>(self, h: Header) -> (r: Step<K>)
        requires
            usable(Identity::Real, h@),
        ensures
            r@ == self.with::<K>().ask_kek(h@),
            r@.wf(),
    {
        self.ask(
            Phase::Kek(Identity::Real, h),
            Ask::Kek { salt: h.kdf_salt, params: h.kdf_params, auth: Some(h.auth) },
        )
    }

    fn on_judged<K>(self, side: Identity, b: Vec<u8>, j: Judgement) -> (r: Step<K>)
        requires
            j@.wf(),
        ensures
            r@ == self.with::<K>().on_judged(side, b@, j@),
            r@.wf(),
    {
        let Base { path, way, max_manifest: _, fallback } = self;
        let base = Base { path, way, max_manifest: j.max_manifest_bytes, fallback };
        let h: Header = match Header::from_bytes(b.as_slice(), j) {
            Err(e) => return Step::Refused(e),
            Ok(h) => h,
        };
        assert(h@.crypto_suite.wf());
        match side {
            Identity::Decoy => match h.decoy_slot() {
                None => base.give_up(),
                Some(slot) => base.ask(
                    Phase::Kek(Identity::Decoy, h),
                    Ask::Kek { salt: slot.kdf_salt, params: h.kdf_params, auth: None },
                ),
            },
            Identity::Real => match base.way {
                Way::Password { authenticator } => if h.auth.requires_hardware() {
                    if authenticator {
                        base.ask(
                            Phase::Hardware(h),
                            Ask::Hardware {
                                hint: h.auth.credential_hint,
                                salt: h.auth.prf_salt,
                            },
                        )
                    } else {
                        Step::Refused(
                            Error::NotImplemented(
                                "this vault requires a FIDO2 factor. No authenticator was supplied, and the vault is refused rather than opened with the password alone".to_owned(),
                            ),
                        )
                    }
                } else {
                    base.ask_kek(h)
                },
                Way::Components => if h.flags & flags::SPLIT_PROTECTED != 0 {
                    let at = split_bundle_path(base.path.as_str());
                    base.ask(Phase::Bundle(h), Ask::Bundle { path: at })
                } else {
                    Step::Refused(
                        Error::Other(
                            "this vault is not split protected; open it with a password".to_owned(),
                        ),
                    )
                },
            },
        }
    }

    fn ask_unwrap<K>(self, h: Header, kek: K) -> (r: Step<K>)
        requires
            usable(Identity::Real, h@),
        ensures
            r@ == self.with::<K>().ask_unwrap(h@, kek),
            r@.wf(),
    {
        let nonce = h.crypto_suite.nonce(&h.master_key_nonce);
        let aad = h.aad();
        self.ask(
            Phase::Unwrap(Identity::Real, h),
            Ask::Unwrap { kek, suite: h.crypto_suite, nonce, wrapped: h.wrapped_master_key, aad },
        )
    }

    fn on_kek<K>(self, side: Identity, h: Header, kek: K) -> (r: Step<K>)
        requires
            usable(side, h@),
        ensures
            r@ == self.with::<K>().on_kek(side, h@, kek),
            r@.wf(),
    {
        match side {
            Identity::Real => if h.flags & flags::SPLIT_PROTECTED != 0 {
                self.to_duress(
                    Error::Other(
                        "this vault is protected by split keys and cannot be opened with a password alone. Supply the required key components; see `zt split status`".to_owned(),
                    ),
                )
            } else {
                self.ask_unwrap(h, kek)
            },
            Identity::Decoy => match h.decoy_slot() {
                None => self.give_up(),
                Some(slot) => {
                    let nonce = h.crypto_suite.nonce(&slot.key_nonce);
                    let aad = decoy_aad(&h.vault_id);
                    self.ask(
                        Phase::Unwrap(Identity::Decoy, h),
                        Ask::Unwrap {
                            kek,
                            suite: h.crypto_suite,
                            nonce,
                            wrapped: slot.wrapped_key,
                            aad,
                        },
                    )
                },
            },
        }
    }

    fn on_bundle<K>(self, h: Header, vault_id: VaultId) -> (r: Step<K>)
        requires
            usable(Identity::Real, h@),
        ensures
            r@ == self.with::<K>().on_bundle(h@, vault_id@),
            r@.wf(),
    {
        if !same_bytes(vault_id.as_bytes().as_slice(), h.vault_id.as_bytes().as_slice()) {
            return Step::Refused(
                Error::Integrity("the split bundle belongs to a different vault".to_owned()),
            );
        }
        self.ask(Phase::Release(h), Ask::Release)
    }

    fn on_unwrapped<K>(self, side: Identity, h: Header, key: K, len: usize) -> (r: Step<K>)
        requires
            usable(side, h@),
        ensures
            r@ == self.with::<K>().on_unwrapped(side, h@, key, len),
            r@.wf(),
    {
        match side {
            Identity::Real => if len != 32 {
                Step::Refused(
                    Error::Crypto("unwrapped master key has the wrong length".to_owned()),
                )
            } else {
                self.to_manifest(Identity::Real, h, key)
            },
            Identity::Decoy => if len != 32 {
                self.give_up()
            } else {
                // The real key goes first. Everything after is presentation.
                self.ask(Phase::Random(h, key), Ask::Random)
            },
        }
    }

    fn on_reread<K>(self, h: Header, key: K, shredded: [u8; 48], b: Vec<u8>) -> (r: Step<K>)
        requires
            usable(Identity::Decoy, h@),
        ensures
            r@ == self.with::<K>().on_reread(h@, key, shredded@, b@),
            r@.wf(),
    {
        if b.len() < crate::format::WRAPPED_KEY_LEN {
            return Step::Refused(Error::Io("failed to fill whole buffer".to_owned()));
        }
        let readback: [u8; 48] = crate::le::array_at::<48>(b.as_slice(), 0);
        assert(readback@ =~= b@.take(48));
        if !same_bytes(readback.as_slice(), shredded.as_slice()) {
            return Step::Refused(Error::Other("the vault could not be opened".to_owned()));
        }
        match h.decoy_slot() {
            None => self.give_up(),
            Some(slot) => {
                let mut decoy = h;
                decoy.wrapped_master_key = shredded;
                decoy.manifest_offset = slot.manifest_offset;
                decoy.manifest_len = slot.manifest_len;
                assert(decoy@ =~= decoy_header(h@, shredded@));
                self.to_manifest(Identity::Decoy, decoy, key)
            },
        }
    }

    fn to_manifest<K>(self, side: Identity, h: Header, key: K) -> (r: Step<K>)
        requires
            usable(side, h@),
        ensures
            r@ == self.with::<K>().to_manifest(side, h@, key),
            r@.wf(),
    {
        if h.manifest_len == 0 {
            match side {
                Identity::Decoy => Step::Opened(self.decoy_vault(h, key, Manifest::empty())),
                Identity::Real => match self.way {
                    Way::Components => self.real_vault(h, key, Manifest::empty(), None),
                    Way::Password { .. } => self.ask(
                        Phase::Root(h),
                        Ask::EmptyRoot { master: key },
                    ),
                },
            }
        } else if h.manifest_len < 32 {
            Step::Refused(Error::Format("manifest record is too short".to_owned()))
        } else {
            let len: u64 = if h.manifest_len < crate::frame::FRAME_PREFIX {
                crate::frame::FRAME_PREFIX
            } else {
                h.manifest_len
            };
            self.ask(Phase::Frame(side, h, key), Ask::Bytes { at: h.manifest_offset, len })
        }
    }

    fn on_frame<K>(self, side: Identity, h: Header, key: K, b: Vec<u8>) -> (r: Step<K>)
        requires
            usable(side, h@),
        ensures
            r@ == self.with::<K>().on_frame(side, h@, key, b@),
            r@.wf(),
    {
        match Frame::from_bytes(b.as_slice(), h.manifest_len, self.max_manifest) {
            Err(e) => Step::Refused(e),
            Ok(f) => {
                let nonce = h.crypto_suite.nonce(&f.nonce);
                let aad = manifest_aad(&h.vault_id, f.plain_len, f.generation);
                self.ask(
                    Phase::Manifest(side, h, f.generation),
                    Ask::Manifest {
                        master: key,
                        suite: h.crypto_suite,
                        nonce,
                        sealed: f.sealed,
                        aad,
                    },
                )
            },
        }
    }

    fn on_manifest<K>(
        self,
        side: Identity,
        h: Header,
        generation: u64,
        master: K,
        m: Manifest,
        root: [u8; 32],
    ) -> (r: Step<K>)
        requires
            usable(side, h@),
        ensures
            r@ == self.with::<K>().on_manifest(side, h@, generation, master, m@, root@),
            r@.wf(),
    {
        // The generation outside was needed to decrypt at all. Checking it
        // against the sealed copy means the visible one cannot be used to
        // point at a different generation.
        if m.generation != generation {
            return Step::Refused(
                Error::Integrity(
                    "the manifest's generation does not match the one recorded beside it".to_owned(),
                ),
            );
        }
        match side {
            Identity::Decoy => Step::Opened(self.decoy_vault(h, master, m)),
            Identity::Real => match self.way {
                Way::Components => self.real_vault(h, master, m, None),
                Way::Password { .. } => self.real_vault(h, master, m, Some(root)),
            },
        }
    }

    /// The header's copy of the root is outside the authenticated prefix, so
    /// the manifest's copy is authoritative and must agree.
    fn real_vault<K>(self, h: Header, master: K, m: Manifest, root: Option<[u8; 32]>) -> (r: Step<
        K,
    >)
        requires
            usable(Identity::Real, h@),
        ensures
            r@ == self.with::<K>().real_vault(
                h@,
                master,
                m@,
                match root {
                    Some(x) => Some(x@),
                    None => None,
                },
            ),
            r@.wf(),
    {
        if !same_bytes(m.integrity_root.as_slice(), h.integrity_root.as_slice()) {
            return Step::Refused(
                Error::Integrity(
                    "the header's integrity root does not match the manifest".to_owned(),
                ),
            );
        }
        if let Some(x) = root {
            if !same_bytes(x.as_slice(), m.integrity_root.as_slice()) {
                return Step::Refused(
                    Error::Integrity("manifest integrity root is inconsistent".to_owned()),
                );
            }
        }
        Step::Opened(
            Vault {
                path: self.path,
                data_end: h.manifest_offset,
                header: h,
                manifest: m,
                master: Some(master),
                identity: Identity::Real,
                shift: 0,
            },
        )
    }

    /// The header was taken from the real identity, so its integrity root
    /// describes the real contents. Left as it was, verifying the decoy would
    /// report damage that is not there.
    ///
    /// The decoy's region may have been moved by saves of the real contents,
    /// which cannot seal the decoy's manifest anew. It began with the first
    /// chunk when the manifest was sealed, so everything has moved as far as
    /// that one.
    fn decoy_vault<K>(self, h: Header, master: K, m: Manifest) -> (r: Vault<K>)
        requires
            usable(Identity::Decoy, h@),
        ensures
            r@ == self.with::<K>().decoy_vault(h@, master, m@),
            r@.wf(),
    {
        let mut header = h;
        header.integrity_root = m.integrity_root;
        assert(header@ =~= (HeaderView { integrity_root: m@.integrity_root, ..h@ }));
        let shift: u64 = match h.decoy_slot() {
            Some(slot) => m.lag(slot.body_offset),
            None => 0,
        };
        let mut manifest = m;
        manifest.slide(shift);
        Vault {
            path: self.path,
            data_end: h.manifest_offset,
            header,
            manifest,
            master: Some(master),
            identity: Identity::Decoy,
            shift,
        }
    }
}

} // verus!
