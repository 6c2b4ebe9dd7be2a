//! A vault: what an open handle holds, and what it tells of itself.
//!
//! ```text
//! [0..256)                 header
//! [256..512)               decoy block, from format 3 on
//! [512..manifest_offset)   authenticated chunks, back to back
//! [manifest_offset..)      manifest record, then the decoy region if any
//! ```
//!
//! The password never encrypts anything directly. It only unwraps the master
//! key, so that changing it rewraps 48 bytes.

use crate::error::{Error, ErrorView};
use crate::format::{flags, Header, HeaderView};
use crate::manifest::{Entry, Manifest, ManifestView};
use crate::suite::{CompressSuite, CryptoSuite, FactorSet, KdfParams, VaultId};
use vstd::prelude::*;

pub mod carry_laws;
pub mod chunk;
pub mod create;
pub mod duress;
pub mod duress_laws;
pub mod export;
pub mod fold_laws;
pub mod import;
pub mod import_laws;
pub mod keep_laws;
pub mod open;
pub mod open_laws;
pub mod outcome;
pub mod purge;
pub mod request_laws;
pub mod rule_laws;
pub mod save;
pub mod save_laws;
pub mod split;
pub mod verify;

verus! {

/// Plaintext bytes per chunk. Bounds memory and localises corruption.
pub const CHUNK_SIZE: usize = 1048576;

/// The level used for chunk compression. Modest on purpose: a slow compressor
/// lengthens the window in which plaintext is resident.
pub const COMPRESSION_LEVEL: i32 = 3;

/// Sizes and counts above which something is refused.
#[derive(Debug, Clone, Copy, PartialEq, Eq, Structural)]
pub struct Limits {
    pub max_manifest_bytes: u64,
    pub max_path_depth: usize,
    pub max_entries: usize,
    pub max_chunk_ciphertext: u32,
}

impl Limits {
    /// Offsets that are sums of a position in a file and of a few sizes within
    /// these limits do not overflow.
    pub open spec fn wf(self) -> bool {
        self.max_manifest_bytes <= 0x100_0000_0000_0000
    }
}

/// Settings chosen when a vault is created.
#[derive(Debug, Clone, Copy, PartialEq, Eq, Structural)]
pub struct VaultOptions {
    pub crypto_suite: CryptoSuite,
    pub compress_suite: CompressSuite,
    pub kdf_params: KdfParams,
    pub compression_level: i32,
    /// Which authentication factors the vault will require.
    pub factors: FactorSet,
}

impl VaultOptions {
    /// Settings at the usual compression level.
    pub fn new(
        crypto_suite: CryptoSuite,
        compress_suite: CompressSuite,
        kdf_params: KdfParams,
        factors: FactorSet,
    ) -> (r: Self)
        ensures
            r == (VaultOptions {
                crypto_suite,
                compress_suite,
                kdf_params,
                compression_level: COMPRESSION_LEVEL,
                factors,
            }),
    {
        VaultOptions {
            crypto_suite,
            compress_suite,
            kdf_params,
            compression_level: COMPRESSION_LEVEL,
            factors,
        }
    }
}

/// Which set of contents a vault was opened into.
#[derive(Debug, Clone, Copy, PartialEq, Eq, Structural)]
pub enum Identity {
    /// The real contents.
    Real,
    /// The duress contents. Reaching this means the real key has been
    /// destroyed.
    Decoy,
}

/// An open vault. `K` is the master key; dropping the vault drops it.
pub struct Vault<K> {
    path: String,
    header: Header,
    manifest: Manifest,
    /// Present only while unlocked.
    master: Option<K>,
    /// First byte after the last chunk, and where the manifest begins.
    data_end: u64,
    /// Which contents this handle was opened into.
    identity: Identity,
    /// How far the chunks lie further on than the sealed manifest says. A
    /// decoy's manifest is sealed once, and saves of the real contents move
    /// its chunks along.
    shift: u64,
}

/// A vault, with its parts as their views.
#[verifier::ext_equal]
pub struct VaultView<K> {
    pub path: Seq<char>,
    pub header: HeaderView,
    pub manifest: ManifestView,
    pub master: Option<K>,
    pub data_end: u64,
    pub identity: Identity,
    pub shift: u64,
}

impl<K> View for Vault<K> {
    type V = VaultView<K>;

    closed spec fn view(&self) -> VaultView<K> {
        VaultView {
            path: self.path@,
            header: self.header@,
            manifest: self.manifest@,
            master: self.master,
            data_end: self.data_end,
            identity: self.identity,
            shift: self.shift,
        }
    }
}

impl<K> VaultView<K> {
    /// The byte fields have the lengths they are stored in, and a nonce of the
    /// vault's suite fits its field.
    pub open spec fn wf(self) -> bool {
        &&& self.header.wf()
        &&& self.manifest.integrity_root.len() == 32
        &&& self.header.crypto_suite.wf()
    }

    /// The vault without its key.
    pub open spec fn locked(self) -> VaultView<K> {
        VaultView { master: None, ..self }
    }

    /// The manifest as it was sealed, before its chunks were moved along.
    pub open spec fn recorded(self) -> ManifestView {
        self.manifest.slid(crate::manifest::gap(self.shift, 0))
    }
}

impl<K> Vault<K> {
    pub fn vault_id(&self) -> (r: VaultId)
        ensures
            r@ == self@.header.vault_id,
    {
        self.header.vault_id
    }

    pub fn crypto_suite(&self) -> (r: CryptoSuite)
        ensures
            r == self@.header.crypto_suite,
    {
        self.header.crypto_suite
    }

    pub fn compress_suite(&self) -> (r: CompressSuite)
        ensures
            r == self@.header.compress_suite,
    {
        self.header.compress_suite
    }

    pub fn kdf_params(&self) -> (r: KdfParams)
        ensures
            r == self@.header.kdf_params,
    {
        self.header.kdf_params
    }

    /// Whether this vault requires a quorum of key components to open.
    pub fn is_split_protected(&self) -> (r: bool)
        ensures
            r == flags::is_split(self@.header.flags),
    {
        self.header.flags & flags::SPLIT_PROTECTED != 0
    }

    pub fn factors(&self) -> (r: FactorSet)
        ensures
            r == self@.header.auth.required,
    {
        self.header.auth.required
    }

    pub fn format_version(&self) -> (r: u16)
        ensures
            r == self@.header.format_version,
    {
        self.header.format_version
    }

    pub fn is_unlocked(&self) -> (r: bool)
        ensures
            r == (self@.master is Some),
    {
        self.master.is_some()
    }

    pub fn entries(&self) -> (r: &Vec<Entry>)
        ensures
            crate::manifest::entry_views(r@) == self@.manifest.entries,
    {
        &self.manifest.entries
    }

    /// The manifest as it was sealed: what its integrity root speaks of.
    pub fn recorded(&self) -> (r: Manifest)
        ensures
            r@ == self@.recorded(),
    {
        let mut m: Manifest = self.manifest.copy();
        m.slide(0u64.wrapping_sub(self.shift));
        m
    }

    /// The manifest, for encoding.
    pub fn manifest(&self) -> (r: &Manifest)
        ensures
            r@ == self@.manifest,
    {
        &self.manifest
    }

    pub fn path(&self) -> (r: &str)
        ensures
            r@ == self@.path,
    {
        self.path.as_str()
    }

    /// How a vault was opened.
    ///
    /// Not shown to the person who opened it: a decoy that announced itself
    /// would be useless.
    pub fn opened_as(&self) -> (r: Identity)
        ensures
            r == self@.identity,
    {
        self.identity
    }

    /// The master key, while the vault is unlocked.
    pub fn master(&self) -> (r: Result<&K, Error>)
        ensures
            match r {
                Ok(k) => self@.master == Some(*k),
                Err(e) => self@.master is None && e@ == ErrorView::Locked,
            },
    {
        match &self.master {
            Some(k) => Ok(k),
            None => Err(Error::Locked),
        }
    }

    /// Locks the vault, giving up the key. The container stays as it is.
    pub fn lock(&mut self)
        ensures
            final(self)@ == old(self)@.locked(),
            final(self)@ == (VaultView { master: None, ..old(self)@ }),
    {
        self.master = None;
    }

    /// Locks the vault and lets go of it.
    pub fn close(self) {
        let mut v = self;
        v.lock();
    }
}

} // verus!
