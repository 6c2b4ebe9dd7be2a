//! Making a vault.
//!
//! A [`Creating`] is a vault that nothing has been written of yet. It says what
//! the keys are derived from and what the master key is wrapped under; once
//! the key is wrapped it becomes a vault, which is then saved.

use crate::error::{Error, ErrorView};
use crate::format::{Header, HeaderView, DECOY_BLOCK_LEN, SALT_LEN, V3_DATA_START, WRAPPED_KEY_LEN};
use crate::le::array_at;
use crate::lossy::from_utf8_lossy;
use crate::manifest::{Manifest, ManifestView};
use crate::strength::require_acceptable;
use crate::suite::{AuthDescriptor, AuthView, KdfParams, VaultId};
use crate::text::join2;
use crate::vault::outcome::World;
use crate::vault::save::{SealRequest, SealView};
use crate::vault::{Identity, Vault, VaultOptions, VaultView};
use vstd::prelude::*;

verus! {

/// The random bytes that a new vault takes.
#[derive(Debug, Clone, Copy)]
pub struct Noise {
    pub kdf_salt: [u8; SALT_LEN],
    pub master_key_nonce: [u8; 24],
    pub prf_salt: [u8; 32],
    pub vault_id: [u8; 16],
    pub decoy: [u8; DECOY_BLOCK_LEN],
}

/// What kind of authenticator is at hand.
#[derive(Debug, Clone, Copy, PartialEq, Eq, Structural)]
pub enum AuthenticatorKind {
    Fido2Prf,
    Other,
}

/// Why a vault is not made, if it is not. `text` is the password as text.
pub open spec fn create_refusal(
    path: Seq<char>,
    exists_already: bool,
    text: Seq<char>,
    opts: VaultOptions,
    kdf: Result<(), ErrorView>,
    factors: Result<(), ErrorView>,
    authenticator: Option<AuthenticatorKind>,
) -> Option<ErrorView> {
    if let Err(e) = kdf {
        Some(e)
    } else if let Err(e) = factors {
        Some(e)
    } else if !crate::strength::assessment(text).acceptable() {
        Some(ErrorView::Other(crate::strength::assessment(text).sentence()))
    } else if exists_already {
        Some(ErrorView::Other(path + " already exists"@))
    } else if opts.factors.hardware && authenticator is None {
        Some(
            ErrorView::NotImplemented(
                "this vault requires a FIDO2 factor but no authenticator was supplied"@,
            ),
        )
    } else if opts.factors.hardware && authenticator != Some(AuthenticatorKind::Fido2Prf) {
        Some(ErrorView::Other("authenticator is of the wrong kind"@))
    } else {
        None
    }
}

/// What a new vault asks of whoever opens it. The salt of the hardware factor
/// is recorded only where there is one.
pub open spec fn new_auth(opts: VaultOptions, noise: Noise) -> AuthView {
    AuthView {
        required: opts.factors,
        prf_salt: if opts.factors.hardware {
            noise.prf_salt@
        } else {
            Seq::new(32, |i: int| 0u8)
        },
        credential_hint: Seq::new(20, |i: int| 0u8),
    }
}

/// The header of a new vault, pinned before the key is wrapped.
pub open spec fn new_header(opts: VaultOptions, noise: Noise) -> HeaderView {
    HeaderView::fresh(
        opts.crypto_suite,
        opts.compress_suite,
        noise.vault_id@,
        opts.kdf_params,
        noise.kdf_salt@,
        noise.master_key_nonce@,
        new_auth(opts, noise),
        noise.decoy@,
    ).frozen()
}

/// A vault in the making.
pub struct Creating {
    path: String,
    header: Header,
}

/// A vault in the making, with its parts as their views.
pub struct CreatingView {
    pub path: Seq<char>,
    pub header: HeaderView,
}

impl View for Creating {
    type V = CreatingView;

    closed spec fn view(&self) -> CreatingView {
        CreatingView { path: self.path@, header: self.header@ }
    }
}

impl CreatingView {
    /// What the authenticator is asked for, when the vault needs one.
    pub open spec fn hardware_basis(self) -> Option<(Seq<u8>, Seq<u8>)> {
        if self.header.auth.required.hardware {
            Some((self.header.auth.credential_hint, self.header.auth.prf_salt))
        } else {
            None
        }
    }

    /// What the key that wraps is derived from.
    pub open spec fn kek_basis(self) -> (Seq<u8>, KdfParams, AuthView) {
        (self.header.kdf_salt, self.header.kdf_params, self.header.auth)
    }

    /// What the master key is wrapped under.
    pub open spec fn wrap_seal(self) -> SealView {
        SealView {
            suite: self.header.crypto_suite,
            nonce: self.header.crypto_suite.nonce_of(self.header.master_key_nonce),
            aad: self.header.aad(),
        }
    }
}

impl Creating {
    /// What the authenticator is asked for, when the vault needs one: the
    /// credential hint and the salt.
    ///
    /// Asked before anything is written, so that a missing authenticator
    /// leaves no half-made vault.
    pub fn hardware_request(&self) -> (r: Option<([u8; 20], [u8; 32])>)
        ensures
            self@.hardware_basis() == match r {
                Some((hint, salt)) => Some((hint@, salt@)),
                None => None,
            },
            match r {
                Some((hint, salt)) => self@.header.auth.required.hardware && hint@
                    == self@.header.auth.credential_hint && salt@ == self@.header.auth.prf_salt,
                None => !self@.header.auth.required.hardware,
            },
    {
        if self.header.auth.requires_hardware() {
            Some((self.header.auth.credential_hint, self.header.auth.prf_salt))
        } else {
            None
        }
    }

    /// What the key that wraps is derived from: a salt, costs, and the factors
    /// it is composed with.
    pub fn kek_request(&self) -> (r: ([u8; 32], KdfParams, AuthDescriptor))
        ensures
            (r.0@, r.1, r.2@) == self@.kek_basis(),
            r.0@ == self@.header.kdf_salt,
            r.1 == self@.header.kdf_params,
            r.2@ == self@.header.auth,
    {
        (self.header.kdf_salt, self.header.kdf_params, self.header.auth)
    }

    /// What the master key is wrapped under. It commits to the header.
    pub fn wrap_request(&self) -> (r: SealRequest)
        requires
            self@.header.crypto_suite.wf(),
        ensures
            r@ == self@.wrap_seal(),
            r.suite == self@.header.crypto_suite,
            r.nonce@ == self@.header.crypto_suite.nonce_of(self@.header.master_key_nonce),
            r.aad@ == self@.header.aad(),
    {
        SealRequest {
            suite: self.header.crypto_suite,
            nonce: self.header.crypto_suite.nonce(&self.header.master_key_nonce),
            aad: self.header.aad(),
        }
    }

    /// Makes the vault, once its master key is wrapped. It is unlocked, empty,
    /// and still to be saved.
    pub fn finish<K>(self, master: K, wrapped: Vec<u8>) -> (r: Result<Vault<K>, Error>)
        ensures
            match r {
                Ok(v) => {
                    &&& wrapped@.len() == WRAPPED_KEY_LEN
                    &&& v@ == new_vault(self@, master, wrapped@)
                    &&& self@.header.crypto_suite.wf() ==> v@.wf()
                },
                Err(e) => wrapped@.len() != WRAPPED_KEY_LEN && e@ == ErrorView::Crypto(
                    "unexpected wrapped key length"@,
                ),
            },
    {
        if wrapped.len() != WRAPPED_KEY_LEN {
            return Err(Error::Crypto("unexpected wrapped key length".to_owned()));
        }
        let key: [u8; WRAPPED_KEY_LEN] = array_at::<WRAPPED_KEY_LEN>(wrapped.as_slice(), 0);
        assert(key@ =~= wrapped@);
        let mut header = self.header;
        header.set_wrapped_key(key);
        Ok(
            Vault {
                path: self.path,
                header,
                manifest: Manifest::empty(),
                master: Some(master),
                data_end: V3_DATA_START,
                identity: Identity::Real,
                shift: 0,
            },
        )
    }
}

/// A vault that has just been made.
pub open spec fn new_vault<K>(c: CreatingView, master: K, wrapped: Seq<u8>) -> VaultView<K> {
    VaultView {
        path: c.path,
        header: HeaderView { wrapped_master_key: wrapped, ..c.header },
        manifest: crate::manifest::empty_manifest(),
        master: Some(master),
        data_end: V3_DATA_START,
        identity: Identity::Real,
        shift: 0,
    }
}

/// Begins to make a vault under a password that is already text.
///
/// `kdf` and `factors` are what the registries say of the costs and of the
/// factors that were chosen; `noise` is random.
pub fn begin_create(
    path: String,
    exists_already: bool,
    text: &str,
    opts: &VaultOptions,
    kdf: Result<(), Error>,
    factors: Result<(), Error>,
    authenticator: Option<AuthenticatorKind>,
    noise: &Noise,
) -> (r: Result<Creating, Error>)
    ensures
        ({
            let refusal = create_refusal(
                path@,
                exists_already,
                text@,
                *opts,
                crate::format::result_view(kdf),
                crate::format::result_view(factors),
                authenticator,
            );
            match r {
                Ok(c) => refusal is None && c@ == (CreatingView {
                    path: path@,
                    header: new_header(*opts, *noise),
                }),
                Err(e) => refusal == Some(e@),
            }
        }),
{
    if let Err(e) = kdf {
        return Err(e);
    }
    if let Err(e) = factors {
        return Err(e);
    }
    if let Err(e) = require_acceptable(text) {
        return Err(e);
    }
    if exists_already {
        return Err(Error::Other(join2(path.as_str(), " already exists")));
    }
    if opts.factors.hardware {
        match authenticator {
            None => {
                return Err(
                    Error::NotImplemented(
                        "this vault requires a FIDO2 factor but no authenticator was supplied".to_owned(),
                    ),
                );
            },
            Some(AuthenticatorKind::Other) => {
                return Err(Error::Other("authenticator is of the wrong kind".to_owned()));
            },
            Some(AuthenticatorKind::Fido2Prf) => {},
        }
    }
    let auth = AuthDescriptor {
        required: opts.factors,
        prf_salt: if opts.factors.hardware {
            noise.prf_salt
        } else {
            [0u8;32]
        },
        credential_hint: [0u8;20],
    };
    proof {
        assert(auth.credential_hint@ =~= new_auth(*opts, *noise).credential_hint);
        assert(auth.prf_salt@ =~= new_auth(*opts, *noise).prf_salt);
    }
    let mut header = Header::new(
        opts.crypto_suite,
        opts.compress_suite,
        VaultId::from_bytes(noise.vault_id),
        opts.kdf_params,
        noise.kdf_salt,
        noise.master_key_nonce,
        auth,
        noise.decoy,
    );
    // Pin the authenticated byte image before the key is wrapped.
    header.freeze();
    Ok(Creating { path, header })
}

impl<K> Vault<K> {
    /// Begins to make a vault, password only.
    pub fn create(
        path: String,
        exists_already: bool,
        password: &[u8],
        opts: &VaultOptions,
        kdf: Result<(), Error>,
        factors: Result<(), Error>,
        noise: &Noise,
    ) -> (r: Result<Creating, Error>)
        ensures
            ({
                let refusal = create_refusal(
                    path@,
                    exists_already,
                    crate::lossy::utf8_lossy_text(password@),
                    *opts,
                    crate::format::result_view(kdf),
                    crate::format::result_view(factors),
                    None,
                );
                match r {
                    Ok(c) => refusal is None && c@ == (CreatingView {
                        path: path@,
                        header: new_header(*opts, *noise),
                    }),
                    Err(e) => refusal == Some(e@),
                }
            }),
    {
        Self::create_with(path, exists_already, password, opts, kdf, factors, None, noise)
    }

    /// Begins to make a vault, optionally binding a hardware factor.
    pub fn create_with(
        path: String,
        exists_already: bool,
        password: &[u8],
        opts: &VaultOptions,
        kdf: Result<(), Error>,
        factors: Result<(), Error>,
        authenticator: Option<AuthenticatorKind>,
        noise: &Noise,
    ) -> (r: Result<Creating, Error>)
        ensures
            ({
                let refusal = create_refusal(
                    path@,
                    exists_already,
                    crate::lossy::utf8_lossy_text(password@),
                    *opts,
                    crate::format::result_view(kdf),
                    crate::format::result_view(factors),
                    authenticator,
                );
                match r {
                    Ok(c) => refusal is None && c@ == (CreatingView {
                        path: path@,
                        header: new_header(*opts, *noise),
                    }),
                    Err(e) => refusal == Some(e@),
                }
            }),
    {
        let text = from_utf8_lossy(password);
        begin_create(
            path,
            exists_already,
            text.as_str(),
            opts,
            kdf,
            factors,
            authenticator,
            noise,
        )
    }
}

impl<K> World<K> {
    /// A vault that was made and saved can be opened with what it was made
    /// with. It is empty, in its first generation, and holds the key it was
    /// made with.
    ///
    /// The registries have to accept its header; the password and the hardware
    /// have to give the key that wrapped, and that key has to open what it
    /// wrapped; and the sealed manifest has to open to the manifest.
    pub proof fn law_create_then_open(
        self,
        path: Seq<char>,
        opts: VaultOptions,
        noise: Noise,
        master: K,
        kek: K,
        wrapped: Seq<u8>,
        root: Seq<u8>,
        nonce: Seq<u8>,
        plain_len: u64,
        sealed: Seq<u8>,
        filler: Seq<u8>,
        max: u64,
        authenticator: bool,
    )
        requires
            opts.crypto_suite.wf(),
            wrapped.len() == WRAPPED_KEY_LEN,
            root.len() == 32,
            nonce.len() == 24,
            filler.len() == crate::format::DECOY_FILLER_LEN,
            plain_len <= max <= 0x100_0000_0000_0000,
            crate::frame::FRAME_PREFIX + sealed.len() <= max,
            opts.factors.hardware ==> authenticator && (self.hardware)(
                new_auth(opts, noise).credential_hint,
                noise.prf_salt@,
            ) is Ok,
            (self.kek)(noise.kdf_salt@, opts.kdf_params, Some(new_auth(opts, noise))) == Ok::<
                K,
                ErrorView,
            >(kek),
            (self.unwrap)(
                kek,
                opts.crypto_suite,
                opts.crypto_suite.nonce_of(noise.master_key_nonce@),
                wrapped,
                new_header(opts, noise).aad(),
            ) == Ok::<(K, usize), ErrorView>((master, 32)),
            ({
                let v = first_write(path, opts, noise, master, wrapped, root);
                let d = v.saved(Seq::empty(), nonce, plain_len, sealed, None, filler, max);
                let h = v.saved_header(sealed, None, filler, max);
                let j = (self.judge)(
                    crate::format::probe_of(crate::container::read_at(d, 0, 512)),
                );
                crate::format::accepts(j, h) && j.max_manifest_bytes == max
            }),
            (self.manifest)(
                master,
                opts.crypto_suite,
                opts.crypto_suite.nonce_of(nonce),
                sealed,
                crate::binding::manifest_binding(noise.vault_id@, plain_len, 1),
            ) == Ok::<(ManifestView, Seq<u8>), ErrorView>(
                (crate::vault::save::bumped(crate::manifest::empty_manifest(), root), root),
            ),
        ensures
            ({
                let v = first_write(path, opts, noise, master, wrapped, root);
                let d = v.saved(Seq::empty(), nonce, plain_len, sealed, None, filler, max);
                &&& self.opened(d, path, authenticator).1 == d
                &&& self.opened(d, path, authenticator).0 is Opened
                &&& ({
                    let o = self.opened(d, path, authenticator).0->Opened_0;
                    &&& o.identity == Identity::Real
                    &&& o.master == Some(master)
                    &&& o.manifest.entries.len() == 0
                    &&& o.manifest.generation == 1
                    &&& o.data_end == V3_DATA_START
                    &&& o.header.vault_id == noise.vault_id@
                    &&& o.header.decoy == Some(noise.decoy@)
                })
            }),
    {
        let v = first_write(path, opts, noise, master, wrapped, root);
        let h0 = new_header(opts, noise);
        let base = HeaderView::fresh(
            opts.crypto_suite,
            opts.compress_suite,
            noise.vault_id@,
            opts.kdf_params,
            noise.kdf_salt@,
            noise.master_key_nonce@,
            new_auth(opts, noise),
            noise.decoy@,
        );
        crate::format::lemma_image_len(base);
        crate::format::flags::lemma_no_flags();
        assert(v.header.wf());
        let moved = HeaderView { wrapped_master_key: wrapped, ..h0 };
        crate::format::law_mutable_fields_are_outside_the_aad(
            h0,
            h0.master_key_nonce,
            wrapped,
            h0.manifest_offset,
            h0.manifest_len,
            h0.integrity_root,
        );
        assert(v.header == moved);
        assert(h0.frozen().aad() == h0.aad());
        crate::format::lemma_image_len(v.header);
        v.law_wrap_survives_a_save(sealed, None, filler, max);
        self.law_save_then_open(
            v,
            Seq::empty(),
            nonce,
            plain_len,
            sealed,
            None,
            filler,
            max,
            master,
            authenticator,
        );
    }
}

/// A vault that has just been made is in good order.
pub proof fn law_new_vault_is_orderly<K>(
    path: Seq<char>,
    opts: VaultOptions,
    noise: Noise,
    master: K,
    wrapped: Seq<u8>,
)
    requires
        opts.crypto_suite.wf(),
        wrapped.len() == WRAPPED_KEY_LEN,
    ensures
        new_vault(CreatingView { path, header: new_header(opts, noise) }, master, wrapped).orderly(),
{
    let v = new_vault(CreatingView { path, header: new_header(opts, noise) }, master, wrapped);
    let base = HeaderView::fresh(
        opts.crypto_suite,
        opts.compress_suite,
        noise.vault_id@,
        opts.kdf_params,
        noise.kdf_salt@,
        noise.master_key_nonce@,
        new_auth(opts, noise),
        noise.decoy@,
    );
    crate::format::lemma_image_len(base);
    assert(v.header.wf());
    crate::format::lemma_image_len(v.header);
}

/// A new vault as its first save writes it.
pub open spec fn first_write<K>(
    path: Seq<char>,
    opts: VaultOptions,
    noise: Noise,
    master: K,
    wrapped: Seq<u8>,
    root: Seq<u8>,
) -> VaultView<K> {
    let v = new_vault(
        CreatingView { path, header: new_header(opts, noise) },
        master,
        wrapped,
    );
    v.begun(root)
}

} // verus!
