//! Converting a vault to split protection.
//!
//! Only the wrapped key is rewritten: the master key is unchanged, so nothing
//! stored in the vault is re-encrypted however large it is.

use crate::error::{Error, ErrorView};
use crate::format::{flags, HeaderView, WRAPPED_KEY_LEN};
use crate::le::array_at;
use crate::paths::split_bundle_path;
use crate::vault::open::StepView;
use crate::vault::outcome::World;
use crate::vault::save::{SealRequest, SealView};
use crate::vault::{Vault, VaultView};
use vstd::prelude::*;

verus! {

impl<K> VaultView<K> {
    /// Why a vault cannot be converted, if it cannot.
    pub open spec fn enroll_refusal(self) -> Option<ErrorView> {
        if flags::is_split(self.header.flags) {
            Some(ErrorView::Other("this vault is already split protected"@))
        } else if self.master is None {
            Some(ErrorView::Locked)
        } else {
            None
        }
    }

    /// The header that the new wrapping commits to: already marked as split
    /// protected, so that the mark cannot be taken away.
    pub open spec fn split_header(self, nonce: Seq<u8>) -> HeaderView {
        HeaderView {
            flags: self.header.flags | flags::SPLIT_PROTECTED,
            master_key_nonce: nonce,
            ..self.header
        }.frozen()
    }

    /// What the master key is wrapped under anew.
    pub open spec fn split_seal(self, nonce: Seq<u8>) -> SealView {
        let h = self.split_header(nonce);
        SealView {
            suite: h.crypto_suite,
            nonce: h.crypto_suite.nonce_of(nonce),
            aad: h.aad(),
        }
    }

    /// The vault with its key wrapped anew.
    pub open spec fn rewrapped(self, wrapped: Seq<u8>) -> VaultView<K> {
        VaultView {
            header: HeaderView { wrapped_master_key: wrapped, ..self.header }.frozen(),
            ..self
        }
    }
}

impl<K> Vault<K> {
    /// Whether the vault can be converted. Asked before the release key is
    /// split.
    pub fn can_enroll(&self) -> (r: Result<(), Error>)
        ensures
            match r {
                Ok(_) => self@.enroll_refusal() is None,
                Err(e) => self@.enroll_refusal() == Some(e@),
            },
    {
        if self.is_split_protected() {
            return Err(Error::Other("this vault is already split protected".to_owned()));
        }
        if self.master.is_none() {
            return Err(Error::Locked);
        }
        Ok(())
    }

    /// Marks the vault as split protected, and says what the master key is
    /// wrapped under. The mark lies in the authenticated part, so the wrap
    /// commits to the vault already being split protected.
    pub fn enroll_split(&mut self, nonce: [u8; 24]) -> (r: Result<SealRequest, Error>)
        requires
            old(self)@.wf(),
        ensures
            match r {
                Ok(q) => {
                    let h = old(self)@.split_header(nonce@);
                    &&& old(self)@.enroll_refusal() is None
                    &&& final(self)@ == (VaultView { header: h, ..old(self)@ })
                    &&& q@ == old(self)@.split_seal(nonce@)
                    &&& q.suite == h.crypto_suite
                    &&& q.nonce@ == h.crypto_suite.nonce_of(nonce@)
                    &&& q.aad@ == h.aad()
                },
                Err(e) => old(self)@.enroll_refusal() == Some(e@) && final(self)@ == old(self)@,
            },
    {
        if let Err(e) = self.can_enroll() {
            return Err(e);
        }
        self.header.protect_with_split(nonce);
        Ok(
            SealRequest {
                suite: self.header.crypto_suite,
                nonce: self.header.crypto_suite.nonce(&nonce),
                aad: self.header.aad(),
            },
        )
    }

    /// Takes the key wrapped under the release key. Gives the path at which
    /// the split bundle is written, before the vault is saved: an orphaned
    /// bundle is harmless, whereas a split-protected header with no bundle
    /// would be an unopenable vault.
    pub fn finish_enroll(&mut self, wrapped: Vec<u8>) -> (r: Result<String, Error>)
        ensures
            match r {
                Ok(path) => {
                    &&& wrapped@.len() == WRAPPED_KEY_LEN
                    &&& final(self)@ == old(self)@.rewrapped(wrapped@)
                    &&& path@ == old(self)@.path + ".split"@
                },
                Err(e) => {
                    &&& wrapped@.len() != WRAPPED_KEY_LEN
                    &&& e@ == ErrorView::Crypto("unexpected wrapped key length"@)
                    &&& final(self)@ == old(self)@
                },
            },
    {
        if wrapped.len() != WRAPPED_KEY_LEN {
            return Err(Error::Crypto("unexpected wrapped key length".to_owned()));
        }
        let key: [u8; WRAPPED_KEY_LEN] = array_at::<WRAPPED_KEY_LEN>(wrapped.as_slice(), 0);
        assert(key@ =~= wrapped@);
        self.header.set_wrapped_key(key);
        self.header.freeze();
        Ok(split_bundle_path(self.path.as_str()))
    }
}

/// Converting a vault marks it, keeps everything but the wrapping, and leaves
/// it in order: the wrapping commits to the marked header, and the byte image
/// stays pinned to it.
pub proof fn law_enroll_keeps_the_contents<K>(v: VaultView<K>, nonce: Seq<u8>, wrapped: Seq<u8>)
    requires
        v.wf(),
        nonce.len() == 24,
        wrapped.len() == WRAPPED_KEY_LEN,
    ensures
        ({
            let marked = VaultView { header: v.split_header(nonce), ..v };
            let w = marked.rewrapped(wrapped);
            &&& w.wf()
            &&& flags::is_split(w.header.flags)
            &&& w.header.aad() == marked.header.aad()
            &&& crate::vault::save_laws::pinned(w.header)
            &&& w.header.wrapped_master_key == wrapped
            &&& w.header.master_key_nonce == nonce
            &&& w.header.vault_id == v.header.vault_id
            &&& w.header.decoy == v.header.decoy
            &&& w.header.kdf_salt == v.header.kdf_salt
            &&& w.manifest == v.manifest
            &&& w.master == v.master
            &&& w.data_end == v.data_end
        }),
{
    let base = HeaderView {
        flags: v.header.flags | flags::SPLIT_PROTECTED,
        master_key_nonce: nonce,
        ..v.header
    };
    let marked = VaultView { header: v.split_header(nonce), ..v };
    flags::lemma_set_split(v.header.flags);
    crate::format::lemma_image_len(base);
    let next = HeaderView { wrapped_master_key: wrapped, ..marked.header };
    crate::format::lemma_image_len(next);
    crate::format::law_mutable_fields_are_outside_the_aad(
        marked.header,
        nonce,
        wrapped,
        base.manifest_offset,
        base.manifest_len,
        base.integrity_root,
    );
}

impl<K> World<K> {
    /// A split-protected vault does not open with a password alone, whatever
    /// the password: the open is refused with a sentence that says so, and
    /// nothing is written, unless a duress identity lies behind the password.
    pub proof fn law_split_vault_needs_its_components(
        self,
        c: Seq<u8>,
        path: Seq<char>,
        authenticator: bool,
        h: HeaderView,
    )
        requires
            self.header(c) == Ok::<HeaderView, ErrorView>(h),
            flags::is_split(h.flags),
            self.duress_key(h) == Ok::<Option<K>, ErrorView>(None),
        ensures
            self.opened(c, path, authenticator).0 is Refused,
            self.opened(c, path, authenticator).1 == c,
            self.real_key(h, authenticator) is Ok ==> self.opened(c, path, authenticator).0
                == StepView::<K>::Refused(ErrorView::Other(crate::vault::open::split_needed())),
    {
    }

    /// What a split-protected vault was saved as, its components open: the
    /// same contents under the same key.
    pub proof fn law_enroll_then_release(
        self,
        v: VaultView<K>,
        c: Seq<u8>,
        nonce: Seq<u8>,
        plain_len: u64,
        sealed: Seq<u8>,
        carried: Option<Seq<u8>>,
        filler: Seq<u8>,
        max: u64,
        release: K,
        key: K,
    )
        requires
            v.can_save(nonce, sealed, filler, max),
            plain_len <= max,
            crate::vault::save_laws::pinned(v.header),
            flags::is_split(v.header.flags),
            crate::format::supported(v.header.format_version),
            v.header.decoy is Some <==> v.header.format_version >= 3,
            ({
                let h = v.saved_header(sealed, carried, filler, max);
                let d = v.saved(c, nonce, plain_len, sealed, carried, filler, max);
                let j = (self.judge)(
                    crate::format::probe_of(crate::container::read_at(d, 0, 512)),
                );
                crate::format::accepts(j, h) && j.max_manifest_bytes == max
            }),
            self.bundle == Some(Ok::<Seq<u8>, ErrorView>(v.header.vault_id)),
            self.release == Ok::<K, ErrorView>(release),
            (self.unwrap)(
                release,
                v.header.crypto_suite,
                v.header.crypto_suite.nonce_of(v.header.master_key_nonce),
                v.header.wrapped_master_key,
                v.header.aad(),
            ) == Ok::<(K, usize), ErrorView>((key, 32)),
            (self.manifest)(
                key,
                v.header.crypto_suite,
                v.header.crypto_suite.nonce_of(nonce),
                sealed,
                crate::binding::manifest_binding(
                    v.header.vault_id,
                    plain_len,
                    v.manifest.generation,
                ),
            ) matches Ok(r) && r.0 == v.manifest,
        ensures
            ({
                let d = v.saved(c, nonce, plain_len, sealed, carried, filler, max);
                &&& self.released(d, v.path) is Opened
                &&& self.released(d, v.path)->Opened_0.manifest == v.manifest
                &&& self.released(d, v.path)->Opened_0.master == Some(key)
                &&& self.released(d, v.path)->Opened_0.data_end == v.data_end
            }),
    {
        self.lemma_reads_back(v, c, nonce, plain_len, sealed, carried, filler, max, key);
        v.law_wrap_survives_a_save(sealed, carried, filler, max);
    }
}

/// Converting a vault changes its mark, its nonce and its wrapping, and nothing
/// else that the header records; in particular no other flag, no factor and no
/// cost.
pub proof fn law_enroll_changes_only_the_wrapping<K>(
    v: VaultView<K>,
    nonce: Seq<u8>,
    wrapped: Seq<u8>,
)
    ensures
        ({
            let marked = VaultView { header: v.split_header(nonce), ..v };
            let w = marked.rewrapped(wrapped);
            &&& w.header == (HeaderView {
                flags: w.header.flags,
                master_key_nonce: nonce,
                wrapped_master_key: wrapped,
                raw: w.header.raw,
                ..v.header
            })
            &&& w.header.flags & 2 != 0
            &&& forall|bit: u32| bit & 2 == 0 ==> #[trigger] (w.header.flags & bit)
                == v.header.flags & bit
            &&& w == (VaultView { header: w.header, ..v })
        }),
{
    let f = v.header.flags;
    assert((f | 2) & 2 != 0) by (bit_vector);
    assert forall|bit: u32| bit & 2 == 0 implies #[trigger] ((f | 2) & bit) == f & bit by {
        assert(bit & 2 == 0 ==> (f | 2) & bit == f & bit) by (bit_vector);
    }
}

} // verus!
