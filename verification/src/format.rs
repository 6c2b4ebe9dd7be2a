//! The container format: the header, and the decoy block behind it.
//!
//! The header carries the KDF parameters and the salt, and it is read before
//! anything has been verified. So its immutable part is passed as additional
//! data when the master key is wrapped: any change to the magic number, the
//! version, the suites, the vault id, the KDF parameters, the flags, the salt
//! or the factors makes the unwrap fail. The fields that are rewritten on
//! every save lie outside that part.

use crate::error::{Error, ErrorView};
use crate::le::{array_at, get16, get32, get64, put16, put32, put64, put_bytes, same_bytes};
use crate::suite::{
    AuthDescriptor, AuthView, CompressSuite, CryptoSuite, FactorSet, KdfParams, VaultId,
};
use crate::text::{decimal_text, join3};
use vstd::prelude::*;

pub mod flags;

verus! {

broadcast use crate::le::group_le;

/// The first bytes of every container.
pub const MAGIC: [u8; 8] = [65, 90, 86, 49, 0, 0, 0, 0];

/// The length of the header.
pub const HEADER_LEN: usize = 256;

/// The length of the decoy block, present in every format 3 vault.
///
/// It holds the wrapping for a duress identity. When no duress password is set
/// the block is filled with random bytes: random bytes and a real wrapping
/// cannot be told apart without the password that unwraps them, and nothing
/// marks the block as used.
pub const DECOY_BLOCK_LEN: usize = 256;

/// Where a format 3 vault begins storing chunks.
pub const V3_DATA_START: u64 = 512;

/// The newest container format.
pub const FORMAT_VERSION_CURRENT: u16 = 3;

/// Bytes `0..80` are authenticated in every version.
pub const HEADER_AAD_LEN: usize = 80;

/// Where the part that version 2 authenticates as well begins.
pub const AUTH_REGION_START: usize = 200;

/// The version that new containers are written in.
pub const FORMAT_VERSION: u16 = 3;

/// The only key derivation suite.
pub const KDF_SUITE_ARGON2ID: u16 = 1;

/// A wrapped key: the key's 32 bytes and a 16-byte tag.
pub const WRAPPED_KEY_LEN: usize = 48;

/// Where the wrapped key lies in the header.
pub const WRAPPED_KEY_AT: usize = 104;

/// The length of a KDF salt.
pub const SALT_LEN: usize = 32;

/// How much of the decoy block carries the wrapping.
pub const DECOY_SLOT_LEN: usize = 136;

/// How much of the decoy block is always random.
pub const DECOY_FILLER_LEN: usize = 120;

/// The versions that can be opened.
pub open spec fn supported(version: u16) -> bool {
    1 <= version <= 3
}

/// Where chunk data begins in a format.
pub open spec fn data_start_of(version: u16) -> u64 {
    if version >= 3 {
        V3_DATA_START
    } else {
        HEADER_LEN as u64
    }
}

/// The wrapping for a duress identity, parsed out of the decoy block.
///
/// Every field is meaningful only if the block holds a real wrapping. When it
/// holds random bytes these are random too, which is why nothing here is
/// validated: rejecting an implausible value would reveal that the block was
/// not a real one.
#[derive(Debug, Clone, Copy, PartialEq, Eq)]
pub struct DecoySlot {
    pub key_nonce: [u8; 24],
    pub wrapped_key: [u8; WRAPPED_KEY_LEN],
    pub kdf_salt: [u8; 32],
    pub manifest_offset: u64,
    pub manifest_len: u64,
    /// Where the decoy's chunks and manifest begin.
    pub body_offset: u64,
    /// How long the decoy's chunks and manifest run. Recorded so that the
    /// region can be picked up and moved.
    pub body_len: u64,
}

/// A decoy slot, with its bytes as sequences.
#[verifier::ext_equal]
pub struct DecoySlotView {
    pub key_nonce: Seq<u8>,
    pub wrapped_key: Seq<u8>,
    pub kdf_salt: Seq<u8>,
    pub manifest_offset: u64,
    pub manifest_len: u64,
    pub body_offset: u64,
    pub body_len: u64,
}

impl View for DecoySlot {
    type V = DecoySlotView;

    open spec fn view(&self) -> DecoySlotView {
        DecoySlotView {
            key_nonce: self.key_nonce@,
            wrapped_key: self.wrapped_key@,
            kdf_salt: self.kdf_salt@,
            manifest_offset: self.manifest_offset,
            manifest_len: self.manifest_len,
            body_offset: self.body_offset,
            body_len: self.body_len,
        }
    }
}

impl DecoySlotView {
    /// The byte fields have the lengths they are stored in.
    pub open spec fn wf(self) -> bool {
        &&& self.key_nonce.len() == 24
        &&& self.wrapped_key.len() == WRAPPED_KEY_LEN
        &&& self.kdf_salt.len() == 32
    }

    /// The bytes of the block that carry the slot.
    pub open spec fn image(self) -> Seq<u8> {
        self.key_nonce + self.wrapped_key + self.kdf_salt + crate::le::le64(self.manifest_offset)
            + crate::le::le64(self.manifest_len) + crate::le::le64(self.body_offset)
            + crate::le::le64(self.body_len)
    }
}

/// The slot that the first bytes of a block carry.
pub open spec fn slot_of(b: Seq<u8>) -> DecoySlotView {
    DecoySlotView {
        key_nonce: b.subrange(0, 24),
        wrapped_key: b.subrange(24, 72),
        kdf_salt: b.subrange(72, 104),
        manifest_offset: crate::le::un64(b.subrange(104, 112)),
        manifest_len: crate::le::un64(b.subrange(112, 120)),
        body_offset: crate::le::un64(b.subrange(120, 128)),
        body_len: crate::le::un64(b.subrange(128, 136)),
    }
}

impl DecoySlot {
    /// A slot of random bytes, which is what a vault without a duress password
    /// carries. `noise` is where the bytes come from.
    pub fn random(noise: &[u8; DECOY_SLOT_LEN]) -> (r: Self)
        ensures
            r@ == slot_of(noise@),
    {
        Self::decode(noise.as_slice())
    }

    /// The block that carries this slot. The remainder is filled with
    /// `filler`, random bytes, so that the block never contains a run of
    /// zeroes.
    pub fn encode(&self, filler: &[u8; DECOY_FILLER_LEN]) -> (r: [u8; DECOY_BLOCK_LEN])
        ensures
            r@ == self@.image() + filler@,
    {
        let mut b: Vec<u8> = Vec::new();
        put_bytes(&mut b, self.key_nonce.as_slice());
        put_bytes(&mut b, self.wrapped_key.as_slice());
        put_bytes(&mut b, self.kdf_salt.as_slice());
        put64(&mut b, self.manifest_offset);
        put64(&mut b, self.manifest_len);
        put64(&mut b, self.body_offset);
        put64(&mut b, self.body_len);
        put_bytes(&mut b, filler.as_slice());
        assert(b@ =~= self@.image() + filler@);
        assert(b@.subrange(0, 256) =~= b@);
        array_at::<DECOY_BLOCK_LEN>(b.as_slice(), 0)
    }

    /// Reads the slot out of a block.
    pub fn decode(b: &[u8]) -> (r: Self)
        requires
            b@.len() >= DECOY_SLOT_LEN,
        ensures
            r@ == slot_of(b@),
    {
        DecoySlot {
            key_nonce: array_at::<24>(b, 0),
            wrapped_key: array_at::<WRAPPED_KEY_LEN>(b, 24),
            kdf_salt: array_at::<32>(b, 72),
            manifest_offset: get64(b, 104),
            manifest_len: get64(b, 112),
            body_offset: get64(b, 120),
            body_len: get64(b, 128),
        }
    }
}

/// Reading back a block gives the slot that was written, whatever fills the
/// rest of the block.
pub proof fn law_decoy_slot_round_trips(slot: DecoySlotView, filler: Seq<u8>)
    requires
        slot.wf(),
    ensures
        slot_of(slot.image() + filler) == slot,
{
    let b = slot.image() + filler;
    assert(b.subrange(0, 24) =~= slot.key_nonce);
    assert(b.subrange(24, 72) =~= slot.wrapped_key);
    assert(b.subrange(72, 104) =~= slot.kdf_salt);
    assert(b.subrange(104, 112) =~= crate::le::le64(slot.manifest_offset));
    assert(b.subrange(112, 120) =~= crate::le::le64(slot.manifest_len));
    assert(b.subrange(120, 128) =~= crate::le::le64(slot.body_offset));
    assert(b.subrange(128, 136) =~= crate::le::le64(slot.body_len));
}

/// Every block is what some slot and some filler would have been written as,
/// so that no block of random bytes can be told from one that was set.
pub proof fn law_every_block_is_a_slot(b: Seq<u8>)
    requires
        b.len() == DECOY_BLOCK_LEN,
    ensures
        slot_of(b).wf(),
        b == slot_of(b).image() + b.skip(DECOY_SLOT_LEN as int),
{
    crate::le::lemma_le64_un64(b.subrange(104, 112));
    crate::le::lemma_le64_un64(b.subrange(112, 120));
    crate::le::lemma_le64_un64(b.subrange(120, 128));
    crate::le::lemma_le64_un64(b.subrange(128, 136));
    assert(b =~= slot_of(b).image() + b.skip(DECOY_SLOT_LEN as int));
}

/// The header of a container.
#[derive(Debug, Clone, Copy)]
pub struct Header {
    pub format_version: u16,
    pub crypto_suite: CryptoSuite,
    pub compress_suite: CompressSuite,
    pub vault_id: VaultId,
    pub kdf_params: KdfParams,
    pub flags: u32,
    pub kdf_salt: [u8; SALT_LEN],
    pub master_key_nonce: [u8; 24],
    pub wrapped_master_key: [u8; WRAPPED_KEY_LEN],
    pub manifest_offset: u64,
    pub manifest_len: u64,
    pub integrity_root: [u8; 32],
    /// Which authentication factors this vault requires. Version 2 and later.
    pub auth: AuthDescriptor,
    /// The header exactly as it was read. The additional data is derived from
    /// these bytes rather than from a re-serialization, which would normalize
    /// derived fields and so leave them out of the authentication.
    pub raw: Option<[u8; HEADER_LEN]>,
    /// The decoy block, verbatim.
    pub decoy: Option<[u8; DECOY_BLOCK_LEN]>,
}

/// A header, with its bytes as sequences.
#[verifier::ext_equal]
pub struct HeaderView {
    pub format_version: u16,
    pub crypto_suite: CryptoSuite,
    pub compress_suite: CompressSuite,
    pub vault_id: Seq<u8>,
    pub kdf_params: KdfParams,
    pub flags: u32,
    pub kdf_salt: Seq<u8>,
    pub master_key_nonce: Seq<u8>,
    pub wrapped_master_key: Seq<u8>,
    pub manifest_offset: u64,
    pub manifest_len: u64,
    pub integrity_root: Seq<u8>,
    pub auth: AuthView,
    pub raw: Option<Seq<u8>>,
    pub decoy: Option<Seq<u8>>,
}

impl View for Header {
    type V = HeaderView;

    open spec fn view(&self) -> HeaderView {
        HeaderView {
            format_version: self.format_version,
            crypto_suite: self.crypto_suite,
            compress_suite: self.compress_suite,
            vault_id: self.vault_id@,
            kdf_params: self.kdf_params,
            flags: self.flags,
            kdf_salt: self.kdf_salt@,
            master_key_nonce: self.master_key_nonce@,
            wrapped_master_key: self.wrapped_master_key@,
            manifest_offset: self.manifest_offset,
            manifest_len: self.manifest_len,
            integrity_root: self.integrity_root@,
            auth: self.auth@,
            raw: match self.raw {
                Some(r) => Some(r@),
                None => None,
            },
            decoy: match self.decoy {
                Some(d) => Some(d@),
                None => None,
            },
        }
    }
}

/// The authentication descriptor as it is stored.
pub open spec fn auth_image(auth: AuthView) -> Seq<u8> {
    crate::le::le16(auth.required.bits) + crate::le::le16(auth.required.count) + auth.prf_salt
        + auth.credential_hint
}

/// The additional data that a header image of some version commits to.
pub open spec fn aad_of(image: Seq<u8>, version: u16) -> Seq<u8> {
    if version >= 2 {
        image.take(HEADER_AAD_LEN as int) + image.subrange(
            AUTH_REGION_START as int,
            HEADER_LEN as int,
        )
    } else {
        image.take(HEADER_AAD_LEN as int)
    }
}

impl HeaderView {
    /// The byte fields have the lengths they are stored in.
    pub open spec fn wf(self) -> bool {
        &&& self.vault_id.len() == 16
        &&& self.kdf_salt.len() == SALT_LEN
        &&& self.master_key_nonce.len() == 24
        &&& self.wrapped_master_key.len() == WRAPPED_KEY_LEN
        &&& self.integrity_root.len() == 32
        &&& self.auth.prf_salt.len() == 32
        &&& self.auth.credential_hint.len() == 20
        &&& self.raw matches Some(r) ==> r.len() == HEADER_LEN
        &&& self.decoy matches Some(d) ==> d.len() == DECOY_BLOCK_LEN
    }

    /// The first 80 bytes of the header: what every version authenticates.
    pub open spec fn prefix(self) -> Seq<u8> {
        MAGIC@ + crate::le::le16(self.format_version) + crate::le::le16(self.crypto_suite.code)
            + crate::le::le16(KDF_SUITE_ARGON2ID) + crate::le::le16(self.compress_suite.code)
            + self.vault_id + crate::le::le32(self.kdf_params.memory_kib) + crate::le::le32(
            self.kdf_params.time_cost,
        ) + crate::le::le32(self.kdf_params.parallelism) + crate::le::le32(self.flags)
            + self.kdf_salt
    }

    /// Bytes `80..200`: what may change without the key being wrapped anew.
    pub open spec fn middle(self) -> Seq<u8> {
        self.master_key_nonce + self.wrapped_master_key + crate::le::le64(self.manifest_offset)
            + crate::le::le64(self.manifest_len) + self.integrity_root
    }

    /// Bytes `200..256`: what version 2 authenticates as well.
    pub open spec fn tail(self) -> Seq<u8> {
        if self.format_version >= 2 {
            auth_image(self.auth)
        } else {
            Seq::new(56, |i: int| 0u8)
        }
    }

    /// The header as it is stored.
    pub open spec fn image(self) -> Seq<u8> {
        self.prefix() + self.middle() + self.tail()
    }

    /// The bytes authenticated when the master key is wrapped.
    pub open spec fn aad(self) -> Seq<u8> {
        match self.raw {
            Some(r) => aad_of(r, self.format_version),
            None => aad_of(self.image(), self.format_version),
        }
    }

    /// The header with its authenticated byte image fixed to what it is now.
    pub open spec fn frozen(self) -> HeaderView {
        HeaderView { raw: Some(self.image()), ..self }
    }

    /// The duress wrapping, if the header carries a block.
    pub open spec fn slot(self) -> Option<DecoySlotView> {
        match self.decoy {
            Some(d) => Some(slot_of(d)),
            None => None,
        }
    }

    /// What stands at the start of the container: the header, and the decoy
    /// block if there is one.
    pub open spec fn head(self) -> Seq<u8> {
        match self.decoy {
            Some(d) => self.image() + d,
            None => self.image(),
        }
    }

    /// The header of a vault that has just been made.
    pub open spec fn fresh(
        crypto_suite: CryptoSuite,
        compress_suite: CompressSuite,
        vault_id: Seq<u8>,
        kdf_params: KdfParams,
        kdf_salt: Seq<u8>,
        master_key_nonce: Seq<u8>,
        auth: AuthView,
        noise: Seq<u8>,
    ) -> HeaderView {
        HeaderView {
            format_version: FORMAT_VERSION,
            crypto_suite,
            compress_suite,
            vault_id,
            kdf_params,
            flags: 0,
            kdf_salt,
            master_key_nonce,
            wrapped_master_key: Seq::new(WRAPPED_KEY_LEN as nat, |i: int| 0u8),
            manifest_offset: V3_DATA_START,
            manifest_len: 0,
            integrity_root: Seq::new(32, |i: int| 0u8),
            auth,
            raw: None,
            decoy: Some(noise),
        }
    }
}

/// What a header is asked about before it is acted on: the codes and the
/// parameters that the registries of suites, costs and factors judge.
#[derive(Debug, Clone, Copy, PartialEq, Eq, Structural)]
pub struct Probe {
    pub crypto_code: u16,
    pub compress_code: u16,
    pub kdf_params: KdfParams,
    pub factor_bits: u16,
}

/// The probe of some bytes.
pub open spec fn probe_of(b: Seq<u8>) -> Probe {
    Probe {
        crypto_code: crate::le::un16(b.subrange(10, 12)),
        compress_code: crate::le::un16(b.subrange(14, 16)),
        kdf_params: kdf_of(b),
        factor_bits: crate::le::un16(b.subrange(200, 202)),
    }
}

/// The KDF parameters in a header image.
pub open spec fn kdf_of(b: Seq<u8>) -> KdfParams {
    KdfParams {
        memory_kib: crate::le::un32(b.subrange(32, 36)),
        time_cost: crate::le::un32(b.subrange(36, 40)),
        parallelism: crate::le::un32(b.subrange(40, 44)),
    }
}

/// What the registries say of a probe. A refusal carries the error to report.
pub struct Judgement {
    /// The nonce length of the crypto suite.
    pub crypto: Result<usize, Error>,
    pub compress: Result<(), Error>,
    pub kdf: Result<(), Error>,
    /// How many factors the bits stand for, and whether one is hardware.
    pub factors: Result<(u16, bool), Error>,
    /// What a vault that predates factors asks for: the password alone.
    pub password_only: AuthDescriptor,
    /// The largest manifest that is accepted.
    pub max_manifest_bytes: u64,
}

/// A judgement, with its errors as their views.
pub struct JudgementView {
    pub crypto: Result<usize, ErrorView>,
    pub compress: Result<(), ErrorView>,
    pub kdf: Result<(), ErrorView>,
    pub factors: Result<(u16, bool), ErrorView>,
    pub password_only: AuthView,
    pub max_manifest_bytes: u64,
}

/// A result, with its error as its view.
pub open spec fn result_view<T>(r: Result<T, Error>) -> Result<T, ErrorView> {
    match r {
        Ok(t) => Ok(t),
        Err(e) => Err(e@),
    }
}

impl View for Judgement {
    type V = JudgementView;

    open spec fn view(&self) -> JudgementView {
        JudgementView {
            crypto: result_view(self.crypto),
            compress: result_view(self.compress),
            kdf: result_view(self.kdf),
            factors: result_view(self.factors),
            password_only: self.password_only@,
            max_manifest_bytes: self.max_manifest_bytes,
        }
    }
}

impl JudgementView {
    /// A nonce of the suite fits the field it is stored in, and the byte fields
    /// have the lengths they are stored in.
    pub open spec fn wf(self) -> bool {
        &&& self.crypto matches Ok(n) ==> n <= crate::suite::NONCE_FIELD
        &&& self.password_only.prf_salt.len() == 32
        &&& self.password_only.credential_hint.len() == 20
    }
}

/// The first reason, in the order in which a reader meets them, for which
/// bytes are refused as a header.
pub open spec fn refusal(b: Seq<u8>, j: JudgementView) -> Option<ErrorView> {
    let version = crate::le::un16(b.subrange(8, 10));
    let kdf_suite = crate::le::un16(b.subrange(12, 14));
    let manifest_offset = crate::le::un64(b.subrange(152, 160));
    let manifest_len = crate::le::un64(b.subrange(160, 168));
    if b.len() < HEADER_LEN {
        Some(ErrorView::Format("file is too short to be an AZV vault"@))
    } else if b.take(8) != MAGIC@ {
        Some(ErrorView::Format("not an Apex ZeroTrace vault (magic number does not match)"@))
    } else if !supported(version) {
        Some(
            ErrorView::Unsupported {
                what: "AZV format version"@,
                value: crate::text::decimal(version as nat),
            },
        )
    } else if let Err(e) = j.crypto {
        Some(e)
    } else if kdf_suite != KDF_SUITE_ARGON2ID {
        Some(
            ErrorView::Unsupported {
                what: "KDF suite"@,
                value: crate::text::decimal(kdf_suite as nat),
            },
        )
    } else if let Err(e) = j.compress {
        Some(e)
    } else if let Err(e) = j.kdf {
        Some(e)
    } else if manifest_len > j.max_manifest_bytes {
        Some(
            ErrorView::LimitExceeded(
                "manifest declares "@ + crate::text::decimal(manifest_len as nat)
                    + " bytes, above the limit"@,
            ),
        )
    } else if manifest_offset < data_start_of(version) {
        Some(ErrorView::Format("manifest offset overlaps the header"@))
    } else if version >= 2 && j.factors is Err {
        Some(j.factors->Err_0)
    } else {
        None
    }
}

/// The header that bytes stand for, when they are not refused.
pub open spec fn fields(b: Seq<u8>, j: JudgementView) -> HeaderView {
    let version = crate::le::un16(b.subrange(8, 10));
    HeaderView {
        format_version: version,
        crypto_suite: CryptoSuite {
            code: crate::le::un16(b.subrange(10, 12)),
            nonce_len: j.crypto->Ok_0,
        },
        compress_suite: CompressSuite { code: crate::le::un16(b.subrange(14, 16)) },
        vault_id: b.subrange(16, 32),
        kdf_params: kdf_of(b),
        flags: crate::le::un32(b.subrange(44, 48)),
        kdf_salt: b.subrange(48, 80),
        master_key_nonce: b.subrange(80, 104),
        wrapped_master_key: b.subrange(104, 152),
        manifest_offset: crate::le::un64(b.subrange(152, 160)),
        manifest_len: crate::le::un64(b.subrange(160, 168)),
        integrity_root: b.subrange(168, 200),
        auth: if version >= 2 {
            AuthView {
                required: FactorSet {
                    bits: crate::le::un16(b.subrange(200, 202)),
                    count: j.factors->Ok_0.0,
                    hardware: j.factors->Ok_0.1,
                },
                prf_salt: b.subrange(204, 236),
                credential_hint: b.subrange(236, 256),
            }
        } else {
            j.password_only
        },
        raw: Some(b.take(HEADER_LEN as int)),
        decoy: if version >= 3 && b.len() >= HEADER_LEN + DECOY_BLOCK_LEN {
            Some(b.subrange(HEADER_LEN as int, HEADER_LEN + DECOY_BLOCK_LEN))
        } else {
            None
        },
    }
}

/// What reading a header gives: the fields, or the first reason against them.
pub open spec fn parsed(b: Seq<u8>, j: JudgementView) -> Result<HeaderView, ErrorView> {
    match refusal(b, j) {
        Some(e) => Err(e),
        None => Ok(fields(b, j)),
    }
}

/// What has to be judged before bytes can be read as a header; nothing, when
/// there are too few of them.
pub fn probe(b: &[u8]) -> (r: Option<Probe>)
    ensures
        r == (if b@.len() < HEADER_LEN {
            None
        } else {
            Some(probe_of(b@))
        }),
{
    if b.len() < HEADER_LEN {
        return None;
    }
    Some(
        Probe {
            crypto_code: get16(b, 10),
            compress_code: get16(b, 14),
            kdf_params: kdf_at(b),
            factor_bits: get16(b, 200),
        },
    )
}

/// Reads the KDF parameters.
fn kdf_at(b: &[u8]) -> (r: KdfParams)
    requires
        b@.len() >= HEADER_LEN,
    ensures
        r == kdf_of(b@),
{
    KdfParams { memory_kib: get32(b, 32), time_cost: get32(b, 36), parallelism: get32(b, 40) }
}

impl Header {
    /// Builds a header for a new vault.
    ///
    /// The authenticated byte image is not set until [`Header::freeze`], so a
    /// half-built header cannot accidentally be used to wrap a key. The decoy
    /// block is `noise`, random bytes, from the moment a vault is created.
    pub fn new(
        crypto_suite: CryptoSuite,
        compress_suite: CompressSuite,
        vault_id: VaultId,
        kdf_params: KdfParams,
        kdf_salt: [u8; SALT_LEN],
        master_key_nonce: [u8; 24],
        auth: AuthDescriptor,
        noise: [u8; DECOY_BLOCK_LEN],
    ) -> (r: Self)
        ensures
            r@ == HeaderView::fresh(
                crypto_suite,
                compress_suite,
                vault_id@,
                kdf_params,
                kdf_salt@,
                master_key_nonce@,
                auth@,
                noise@,
            ),
            r@.wf(),
    {
        let r = Header {
            format_version: FORMAT_VERSION,
            crypto_suite,
            compress_suite,
            vault_id,
            kdf_params,
            flags: 0,
            kdf_salt,
            master_key_nonce,
            wrapped_master_key: [0u8;WRAPPED_KEY_LEN],
            manifest_offset: V3_DATA_START,
            manifest_len: 0,
            integrity_root: [0u8;32],
            auth,
            raw: None,
            decoy: Some(noise),
        };
        assert(r.wrapped_master_key@ =~= Seq::new(WRAPPED_KEY_LEN as nat, |i: int| 0u8));
        assert(r.integrity_root@ =~= Seq::new(32, |i: int| 0u8));
        r
    }

    /// The exact bytes authenticated when wrapping the master key.
    ///
    /// From version 2 on they cover the authentication descriptor, so that a
    /// hardware requirement cannot be stripped. Version 1 keeps the shorter
    /// ones.
    pub fn aad(&self) -> (r: Vec<u8>)
        ensures
            r@ == self@.aad(),
    {
        let full: [u8; HEADER_LEN] = match self.raw {
            Some(r) => r,
            None => self.to_bytes(),
        };
        let mut aad: Vec<u8> = Vec::new();
        let prefix: [u8; HEADER_AAD_LEN] = array_at::<HEADER_AAD_LEN>(full.as_slice(), 0);
        put_bytes(&mut aad, prefix.as_slice());
        assert(aad@ =~= full@.take(80));
        if self.format_version >= 2 {
            let tail: [u8; 56] = array_at::<56>(full.as_slice(), AUTH_REGION_START);
            put_bytes(&mut aad, tail.as_slice());
        }
        aad
    }

    /// The header as it is stored.
    pub fn to_bytes(&self) -> (r: [u8; HEADER_LEN])
        ensures
            r@ == self@.image(),
    {
        let mut b: Vec<u8> = Vec::new();
        put_bytes(&mut b, MAGIC.as_slice());
        put16(&mut b, self.format_version);
        put16(&mut b, self.crypto_suite.code);
        put16(&mut b, KDF_SUITE_ARGON2ID);
        put16(&mut b, self.compress_suite.code);
        put_bytes(&mut b, self.vault_id.as_bytes().as_slice());
        put32(&mut b, self.kdf_params.memory_kib);
        put32(&mut b, self.kdf_params.time_cost);
        put32(&mut b, self.kdf_params.parallelism);
        put32(&mut b, self.flags);
        put_bytes(&mut b, self.kdf_salt.as_slice());
        assert(b@ =~= self@.prefix());
        // Everything from here to byte 200 is outside the authenticated part.
        put_bytes(&mut b, self.master_key_nonce.as_slice());
        put_bytes(&mut b, self.wrapped_master_key.as_slice());
        put64(&mut b, self.manifest_offset);
        put64(&mut b, self.manifest_len);
        put_bytes(&mut b, self.integrity_root.as_slice());
        assert(b@ =~= self@.prefix() + self@.middle());
        if self.format_version >= 2 {
            put16(&mut b, self.auth.required.bits);
            put16(&mut b, self.auth.required.count);
            put_bytes(&mut b, self.auth.prf_salt.as_slice());
            put_bytes(&mut b, self.auth.credential_hint.as_slice());
        } else {
            let zeroes: [u8; 56] = [0u8;56];
            put_bytes(&mut b, zeroes.as_slice());
        }
        assert(b@ =~= self@.image());
        assert(b@.len() == 256);
        assert(b@.subrange(0, 256) =~= b@);
        array_at::<HEADER_LEN>(b.as_slice(), 0)
    }

    /// The duress wrapping, if this header carries one.
    ///
    /// A new header does, and so does one of format 3 that was read together
    /// with its block, whether or not a duress password has been set. One that
    /// was read from the first bytes alone, without the whole block, does not.
    pub fn decoy_slot(&self) -> (r: Option<DecoySlot>)
        ensures
            match r {
                Some(s) => self@.slot() == Some(s@),
                None => self@.slot() is None,
            },
    {
        match self.decoy {
            Some(d) => Some(DecoySlot::decode(d.as_slice())),
            None => None,
        }
    }

    /// Puts a duress wrapping into the decoy block; `filler` fills the rest.
    pub fn set_decoy_slot(&mut self, slot: &DecoySlot, filler: &[u8; DECOY_FILLER_LEN])
        ensures
            final(self)@ == (HeaderView { decoy: Some(slot@.image() + filler@), ..old(self)@ }),
    {
        self.decoy = Some(slot.encode(filler));
    }

    /// The decoy block as stored, for writing back out.
    pub fn decoy_bytes(&self) -> (r: Option<[u8; DECOY_BLOCK_LEN]>)
        ensures
            match r {
                Some(d) => self@.decoy == Some(d@),
                None => self@.decoy is None,
            },
    {
        self.decoy
    }

    /// Where chunk data begins, which depends on the format.
    pub fn data_start(&self) -> (r: u64)
        ensures
            r == data_start_of(self@.format_version),
    {
        if self.format_version >= 3 {
            V3_DATA_START
        } else {
            HEADER_LEN as u64
        }
    }

    /// Parses a header, validating every field that will later be trusted.
    ///
    /// `j` is what the registries say of the probe of the same bytes. Nothing
    /// here proves that the header is authentic; that only happens when the
    /// master key unwraps.
    pub fn from_bytes(b: &[u8], j: Judgement) -> (r: Result<Self, Error>)
        ensures
            match r {
                Ok(h) => parsed(b@, j@) == Ok::<HeaderView, ErrorView>(h@) && h@.wf(),
                Err(e) => parsed(b@, j@) == Err::<HeaderView, ErrorView>(e@),
            },
    {
        if b.len() < HEADER_LEN {
            return Err(Error::Format("file is too short to be an AZV vault".to_owned()));
        }
        let magic: [u8; 8] = array_at::<8>(b, 0);
        assert(magic@ =~= b@.take(8));
        if !same_bytes(magic.as_slice(), MAGIC.as_slice()) {
            return Err(
                Error::Format(
                    "not an Apex ZeroTrace vault (magic number does not match)".to_owned(),
                ),
            );
        }
        let format_version: u16 = get16(b, 8);
        if format_version < 1 || format_version > 3 {
            // Never guess at an unknown version.
            return Err(
                Error::Unsupported {
                    what: "AZV format version".to_owned(),
                    value: decimal_text(format_version as u64),
                },
            );
        }
        let nonce_len: usize = match j.crypto {
            Ok(n) => n,
            Err(e) => return Err(e),
        };
        let kdf_suite: u16 = get16(b, 12);
        if kdf_suite != KDF_SUITE_ARGON2ID {
            return Err(
                Error::Unsupported {
                    what: "KDF suite".to_owned(),
                    value: decimal_text(kdf_suite as u64),
                },
            );
        }
        if let Err(e) = j.compress {
            return Err(e);
        }
        // Refuse a downgraded KDF before spending any time on it.
        if let Err(e) = j.kdf {
            return Err(e);
        }
        let manifest_offset: u64 = get64(b, 152);
        let manifest_len: u64 = get64(b, 160);
        if manifest_len > j.max_manifest_bytes {
            let n = decimal_text(manifest_len);
            return Err(
                Error::LimitExceeded(
                    join3("manifest declares ", n.as_str(), " bytes, above the limit"),
                ),
            );
        }
        let min_offset: u64 = if format_version >= 3 {
            V3_DATA_START
        } else {
            HEADER_LEN as u64
        };
        if manifest_offset < min_offset {
            return Err(Error::Format("manifest offset overlaps the header".to_owned()));
        }
        let auth: AuthDescriptor = if format_version >= 2 {
            let (count, hardware): (u16, bool) = match j.factors {
                Ok(f) => f,
                Err(e) => return Err(e),
            };
            AuthDescriptor {
                required: FactorSet { bits: get16(b, 200), count, hardware },
                prf_salt: array_at::<32>(b, 204),
                credential_hint: array_at::<20>(b, 236),
            }
        } else {
            // A version 1 vault predates factors; it is password only.
            j.password_only
        };
        let decoy: Option<[u8; DECOY_BLOCK_LEN]> = if format_version >= 3 && b.len() >= HEADER_LEN
            + DECOY_BLOCK_LEN {
            Some(array_at::<DECOY_BLOCK_LEN>(b, HEADER_LEN))
        } else {
            None
        };
        assert(b@.subrange(0, 256) =~= b@.take(256));
        let h = Header {
            format_version,
            crypto_suite: CryptoSuite { code: get16(b, 10), nonce_len },
            compress_suite: CompressSuite { code: get16(b, 14) },
            vault_id: VaultId(array_at::<16>(b, 16)),
            kdf_params: kdf_at(b),
            flags: get32(b, 44),
            kdf_salt: array_at::<SALT_LEN>(b, 48),
            master_key_nonce: array_at::<24>(b, 80),
            wrapped_master_key: array_at::<WRAPPED_KEY_LEN>(b, 104),
            manifest_offset,
            manifest_len,
            integrity_root: array_at::<32>(b, 168),
            auth,
            raw: Some(array_at::<HEADER_LEN>(b, 0)),
            decoy,
        };
        assert(h@ =~= fields(b@, j@));
        Ok(h)
    }

    /// Fixes the byte image used for the additional data.
    ///
    /// Called after every authenticated field is final and before the master
    /// key is wrapped.
    pub fn freeze(&mut self)
        ensures
            final(self)@ == old(self)@.frozen(),
    {
        let image: [u8; HEADER_LEN] = self.to_bytes();
        self.raw = Some(image);
    }
}

impl Header {
    /// Records where the manifest lies, and what it says of the contents.
    pub fn place_manifest(&mut self, offset: u64, len: u64, root: [u8; 32])
        ensures
            final(self)@ == (HeaderView {
                manifest_offset: offset,
                manifest_len: len,
                integrity_root: root@,
                ..old(self)@
            }),
    {
        self.manifest_offset = offset;
        self.manifest_len = len;
        self.integrity_root = root;
    }

    /// Replaces the wrapped key.
    pub fn set_wrapped_key(&mut self, wrapped: [u8; WRAPPED_KEY_LEN])
        ensures
            final(self)@ == (HeaderView { wrapped_master_key: wrapped@, ..old(self)@ }),
    {
        self.wrapped_master_key = wrapped;
    }

    /// Marks the vault as split protected, under a nonce of its own, and pins
    /// the byte image that the wrap will commit to.
    pub fn protect_with_split(&mut self, nonce: [u8; 24])
        ensures
            final(self)@ == (HeaderView {
                flags: old(self)@.flags | flags::SPLIT_PROTECTED,
                master_key_nonce: nonce@,
                ..old(self)@
            }).frozen(),
    {
        self.flags = self.flags | flags::SPLIT_PROTECTED;
        self.master_key_nonce = nonce;
        self.freeze();
    }
}

/// The lengths of a header image and of its parts.
pub proof fn lemma_image_len(h: HeaderView)
    requires
        h.wf(),
    ensures
        h.prefix().len() == HEADER_AAD_LEN,
        h.middle().len() == 120,
        h.tail().len() == 56,
        h.image().len() == HEADER_LEN,
{
}

/// Where the parts of a header lie in its image.
proof fn lemma_image_parts(h: HeaderView, rest: Seq<u8>)
    requires
        h.wf(),
    ensures
        ({
            let b = h.image() + rest;
            &&& b.take(80) == h.prefix()
            &&& b.subrange(80, 200) == h.middle()
            &&& b.subrange(200, 256) == h.tail()
            &&& b.take(256) == h.image()
        }),
{
    let b = h.image() + rest;
    assert(b.take(80) =~= h.prefix());
    assert(b.subrange(80, 200) =~= h.middle());
    assert(b.subrange(200, 256) =~= h.tail());
    assert(b.take(256) =~= h.image());
}

/// Where the fields of the prefix lie.
proof fn lemma_prefix_fields(h: HeaderView)
    requires
        h.wf(),
    ensures
        ({
            let p = h.prefix();
            &&& p.take(8) == MAGIC@
            &&& p.subrange(8, 10) == crate::le::le16(h.format_version)
            &&& p.subrange(10, 12) == crate::le::le16(h.crypto_suite.code)
            &&& p.subrange(12, 14) == crate::le::le16(KDF_SUITE_ARGON2ID)
            &&& p.subrange(14, 16) == crate::le::le16(h.compress_suite.code)
            &&& p.subrange(16, 32) == h.vault_id
            &&& p.subrange(32, 36) == crate::le::le32(h.kdf_params.memory_kib)
            &&& p.subrange(36, 40) == crate::le::le32(h.kdf_params.time_cost)
            &&& p.subrange(40, 44) == crate::le::le32(h.kdf_params.parallelism)
            &&& p.subrange(44, 48) == crate::le::le32(h.flags)
            &&& p.subrange(48, 80) == h.kdf_salt
        }),
{
    let p = h.prefix();
    assert(p.take(8) =~= MAGIC@);
    assert(p.subrange(8, 10) =~= crate::le::le16(h.format_version));
    assert(p.subrange(10, 12) =~= crate::le::le16(h.crypto_suite.code));
    assert(p.subrange(12, 14) =~= crate::le::le16(KDF_SUITE_ARGON2ID));
    assert(p.subrange(14, 16) =~= crate::le::le16(h.compress_suite.code));
    assert(p.subrange(16, 32) =~= h.vault_id);
    assert(p.subrange(32, 36) =~= crate::le::le32(h.kdf_params.memory_kib));
    assert(p.subrange(36, 40) =~= crate::le::le32(h.kdf_params.time_cost));
    assert(p.subrange(40, 44) =~= crate::le::le32(h.kdf_params.parallelism));
    assert(p.subrange(44, 48) =~= crate::le::le32(h.flags));
    assert(p.subrange(48, 80) =~= h.kdf_salt);
}

/// Where the fields of the other parts lie.
proof fn lemma_other_fields(h: HeaderView)
    requires
        h.wf(),
    ensures
        ({
            let m = h.middle();
            let t = auth_image(h.auth);
            &&& m.subrange(0, 24) == h.master_key_nonce
            &&& m.subrange(24, 72) == h.wrapped_master_key
            &&& m.subrange(72, 80) == crate::le::le64(h.manifest_offset)
            &&& m.subrange(80, 88) == crate::le::le64(h.manifest_len)
            &&& m.subrange(88, 120) == h.integrity_root
            &&& t.subrange(0, 2) == crate::le::le16(h.auth.required.bits)
            &&& t.subrange(2, 4) == crate::le::le16(h.auth.required.count)
            &&& t.subrange(4, 36) == h.auth.prf_salt
            &&& t.subrange(36, 56) == h.auth.credential_hint
        }),
{
    let m = h.middle();
    let t = auth_image(h.auth);
    assert(m.subrange(0, 24) =~= h.master_key_nonce);
    assert(m.subrange(24, 72) =~= h.wrapped_master_key);
    assert(m.subrange(72, 80) =~= crate::le::le64(h.manifest_offset));
    assert(m.subrange(80, 88) =~= crate::le::le64(h.manifest_len));
    assert(m.subrange(88, 120) =~= h.integrity_root);
    assert(t.subrange(0, 2) =~= crate::le::le16(h.auth.required.bits));
    assert(t.subrange(2, 4) =~= crate::le::le16(h.auth.required.count));
    assert(t.subrange(4, 36) =~= h.auth.prf_salt);
    assert(t.subrange(36, 56) =~= h.auth.credential_hint);
}

/// The registries know what a header names, and accept it.
pub open spec fn accepts(j: JudgementView, h: HeaderView) -> bool {
    &&& j.crypto == Ok::<usize, ErrorView>(h.crypto_suite.nonce_len)
    &&& j.compress is Ok
    &&& j.kdf is Ok
    &&& if h.format_version >= 2 {
        j.factors == Ok::<(u16, bool), ErrorView>(
            (h.auth.required.count, h.auth.required.hardware),
        )
    } else {
        j.password_only == h.auth
    }
    &&& h.manifest_len <= j.max_manifest_bytes
}

/// A header that could stand in a container: of a known version, with its
/// manifest behind the header, and with a decoy block exactly from version 3
/// on.
pub open spec fn storable(h: HeaderView) -> bool {
    &&& h.wf()
    &&& supported(h.format_version)
    &&& h.manifest_offset >= data_start_of(h.format_version)
    &&& h.decoy is Some <==> h.format_version >= 3
}

/// A header that was written is read back as it was, whatever follows it in
/// the container. Its byte image is pinned to what was written.
pub proof fn law_header_round_trips(h: HeaderView, j: JudgementView, rest: Seq<u8>)
    requires
        storable(h),
        accepts(j, h),
    ensures
        parsed(h.head() + rest, j) == Ok::<HeaderView, ErrorView>(h.frozen()),
{
    let b = h.head() + rest;
    let after = match h.decoy {
        Some(d) => d + rest,
        None => rest,
    };
    assert(b =~= h.image() + after);
    lemma_image_len(h);
    lemma_image_parts(h, after);
    lemma_prefix_fields(h);
    lemma_other_fields(h);
    let p = h.prefix();
    let m = h.middle();
    let t = h.tail();
    assert(b.take(8) =~= p.take(8));
    assert(b.subrange(8, 10) =~= p.subrange(8, 10));
    assert(b.subrange(10, 12) =~= p.subrange(10, 12));
    assert(b.subrange(12, 14) =~= p.subrange(12, 14));
    assert(b.subrange(14, 16) =~= p.subrange(14, 16));
    assert(b.subrange(16, 32) =~= p.subrange(16, 32));
    assert(b.subrange(32, 36) =~= p.subrange(32, 36));
    assert(b.subrange(36, 40) =~= p.subrange(36, 40));
    assert(b.subrange(40, 44) =~= p.subrange(40, 44));
    assert(b.subrange(44, 48) =~= p.subrange(44, 48));
    assert(b.subrange(48, 80) =~= p.subrange(48, 80));
    assert(b.subrange(80, 104) =~= m.subrange(0, 24));
    assert(b.subrange(104, 152) =~= m.subrange(24, 72));
    assert(b.subrange(152, 160) =~= m.subrange(72, 80));
    assert(b.subrange(160, 168) =~= m.subrange(80, 88));
    assert(b.subrange(168, 200) =~= m.subrange(88, 120));
    if h.format_version >= 2 {
        assert(b.subrange(200, 202) =~= t.subrange(0, 2));
        assert(b.subrange(204, 236) =~= t.subrange(4, 36));
        assert(b.subrange(236, 256) =~= t.subrange(36, 56));
    }
    if h.format_version >= 3 {
        assert(b.subrange(256, 512) =~= h.decoy->0);
    }
    assert(parsed(b, j)->Ok_0 =~= h.frozen());
}

/// The additional data has 80 bytes in version 1, and 136 from version 2 on.
pub proof fn law_aad_length(h: HeaderView)
    requires
        h.wf(),
    ensures
        h.aad().len() == if h.format_version >= 2 {
            136nat
        } else {
            80
        },
{
    lemma_image_len(h);
}

/// The additional data of two containers agree only if their headers agree in
/// every byte of the authenticated parts, derived and reserved ones included.
/// So a change of the magic number, the version, the suites, the vault id,
/// the KDF parameters, the flags, the salt or the factors is always seen.
pub proof fn law_aad_covers_the_authenticated_bytes(
    a: Seq<u8>,
    ja: JudgementView,
    b: Seq<u8>,
    jb: JudgementView,
)
    requires
        parsed(a, ja) is Ok,
        parsed(b, jb) is Ok,
        parsed(a, ja)->Ok_0.aad() == parsed(b, jb)->Ok_0.aad(),
    ensures
        a.take(HEADER_AAD_LEN as int) == b.take(HEADER_AAD_LEN as int),
        parsed(a, ja)->Ok_0.format_version == parsed(b, jb)->Ok_0.format_version,
        parsed(a, ja)->Ok_0.format_version >= 2 ==> a.subrange(
            AUTH_REGION_START as int,
            HEADER_LEN as int,
        ) == b.subrange(AUTH_REGION_START as int, HEADER_LEN as int),
{
    let x = parsed(a, ja)->Ok_0.aad();
    let y = parsed(b, jb)->Ok_0.aad();
    assert(x.take(80) =~= a.take(80));
    assert(y.take(80) =~= b.take(80));
    assert(a.subrange(8, 10) =~= a.take(80).subrange(8, 10));
    assert(b.subrange(8, 10) =~= b.take(80).subrange(8, 10));
    if parsed(a, ja)->Ok_0.format_version >= 2 {
        assert(x.skip(80) =~= a.subrange(200, 256));
        assert(y.skip(80) =~= b.subrange(200, 256));
    }
}

/// Two headers that commit to the same additional data have the same immutable
/// fields: stripping a factor, lowering a cost or changing the salt changes
/// what the wrapped key commits to.
pub proof fn law_aad_covers_the_immutable_fields(a: HeaderView, b: HeaderView)
    requires
        a.wf(),
        b.wf(),
        a.frozen().aad() == b.frozen().aad(),
    ensures
        a.format_version == b.format_version,
        a.crypto_suite.code == b.crypto_suite.code,
        a.compress_suite == b.compress_suite,
        a.vault_id == b.vault_id,
        a.kdf_params == b.kdf_params,
        a.flags == b.flags,
        a.kdf_salt == b.kdf_salt,
        a.format_version >= 2 ==> {
            &&& a.auth.required.bits == b.auth.required.bits
            &&& a.auth.required.count == b.auth.required.count
            &&& a.auth.prf_salt == b.auth.prf_salt
            &&& a.auth.credential_hint == b.auth.credential_hint
        },
{
    lemma_image_len(a);
    lemma_image_len(b);
    lemma_image_parts(a, Seq::empty());
    lemma_image_parts(b, Seq::empty());
    assert(a.image() + Seq::<u8>::empty() =~= a.image());
    assert(b.image() + Seq::<u8>::empty() =~= b.image());
    lemma_prefix_fields(a);
    lemma_prefix_fields(b);
    assert(a.frozen().aad().take(80) =~= a.prefix());
    assert(b.frozen().aad().take(80) =~= b.prefix());
    assert(crate::le::un16(a.prefix().subrange(8, 10)) == crate::le::un16(
        b.prefix().subrange(8, 10),
    ));
    if a.format_version >= 2 {
        lemma_other_fields(a);
        lemma_other_fields(b);
        assert(a.frozen().aad().skip(80) =~= auth_image(a.auth));
        assert(b.frozen().aad().skip(80) =~= auth_image(b.auth));
    }
}

/// Rewriting the fields outside the authenticated part does not change what
/// the wrapped key commits to.
pub proof fn law_mutable_fields_are_outside_the_aad(
    h: HeaderView,
    nonce: Seq<u8>,
    wrapped: Seq<u8>,
    offset: u64,
    len: u64,
    root: Seq<u8>,
)
    requires
        h.wf(),
        nonce.len() == 24,
        wrapped.len() == WRAPPED_KEY_LEN,
        root.len() == 32,
    ensures
        ({
            let moved = HeaderView {
                master_key_nonce: nonce,
                wrapped_master_key: wrapped,
                manifest_offset: offset,
                manifest_len: len,
                integrity_root: root,
                ..h
            };
            &&& moved.aad() == h.aad()
            &&& moved.frozen().aad() == h.frozen().aad()
        }),
{
    let moved = HeaderView {
        master_key_nonce: nonce,
        wrapped_master_key: wrapped,
        manifest_offset: offset,
        manifest_len: len,
        integrity_root: root,
        ..h
    };
    lemma_image_parts(h, Seq::empty());
    lemma_image_parts(moved, Seq::empty());
    assert(h.image() + Seq::<u8>::empty() =~= h.image());
    assert(moved.image() + Seq::<u8>::empty() =~= moved.image());
}

/// The decoy block is there whether or not a duress password has been set: a
/// new header carries it, and a header that is read carries it exactly if its
/// format has one and the bytes reach to the end of it.
pub proof fn law_block_is_always_there(b: Seq<u8>, j: JudgementView, h: HeaderView)
    requires
        parsed(b, j) == Ok::<HeaderView, ErrorView>(h),
    ensures
        h.slot() is Some <==> h.format_version >= 3 && b.len() >= HEADER_LEN + DECOY_BLOCK_LEN,
        forall|
            crypto_suite: CryptoSuite,
            compress_suite: CompressSuite,
            vault_id: Seq<u8>,
            kdf_params: KdfParams,
            kdf_salt: Seq<u8>,
            nonce: Seq<u8>,
            auth: AuthView,
            noise: Seq<u8>,
        |
            (#[trigger] HeaderView::fresh(
                crypto_suite,
                compress_suite,
                vault_id,
                kdf_params,
                kdf_salt,
                nonce,
                auth,
                noise,
            )).slot() is Some,
{
}

/// Containers that begin with the same header are read as the same header;
/// only the decoy block may differ.
pub proof fn law_block_does_not_touch_the_header(a: Seq<u8>, b: Seq<u8>, j: JudgementView)
    requires
        a.len() >= HEADER_LEN + DECOY_BLOCK_LEN,
        b.len() >= HEADER_LEN + DECOY_BLOCK_LEN,
        a.take(HEADER_LEN as int) == b.take(HEADER_LEN as int),
    ensures
        probe_of(a) == probe_of(b),
        parsed(b, j) == match parsed(a, j) {
            Err(e) => Err(e),
            Ok(h) => Ok(
                HeaderView {
                    decoy: if h.format_version >= 3 {
                        Some(b.subrange(HEADER_LEN as int, HEADER_LEN + DECOY_BLOCK_LEN))
                    } else {
                        None
                    },
                    ..h
                },
            ),
        },
{
    let x = a.take(256);
    assert(a.take(8) =~= x.take(8));
    assert(b.take(8) =~= x.take(8));
    assert forall|from: int, to: int| 0 <= from <= to <= 256 implies #[trigger] a.subrange(from, to)
        == b.subrange(from, to) by {
        assert(a.subrange(from, to) =~= x.subrange(from, to));
        assert(b.subrange(from, to) =~= x.subrange(from, to));
    }
    assert(refusal(a, j) == refusal(b, j));
}

/// What a header that was written is read back as, whatever the registries
/// say, as long as they do not refuse it.
pub proof fn lemma_parsed_fields(h: HeaderView, b: Seq<u8>, j: JudgementView)
    requires
        h.wf(),
        b.len() >= HEADER_LEN,
        b.take(HEADER_LEN as int) == h.image(),
        parsed(b, j) is Ok,
    ensures
        parsed(b, j)->Ok_0.format_version == h.format_version,
        parsed(b, j)->Ok_0.vault_id == h.vault_id,
        parsed(b, j)->Ok_0.kdf_params == h.kdf_params,
        parsed(b, j)->Ok_0.crypto_suite.code == h.crypto_suite.code,
{
    lemma_image_parts(h, Seq::empty());
    assert(h.image() + Seq::<u8>::empty() =~= h.image());
    lemma_prefix_fields(h);
    let p = h.prefix();
    assert(b.take(256).take(80) == p);
    assert(b.subrange(8, 10) =~= p.subrange(8, 10));
    assert(b.subrange(10, 12) =~= p.subrange(10, 12));
    assert(b.subrange(16, 32) =~= p.subrange(16, 32));
    assert(b.subrange(32, 36) =~= p.subrange(32, 36));
    assert(b.subrange(36, 40) =~= p.subrange(36, 40));
    assert(b.subrange(40, 44) =~= p.subrange(40, 44));
}

/// Bytes are read as a header exactly if there are 256 of them, they begin with
/// the magic number, the format is one of the first three, the KDF is the one
/// there is, the registries accept the suites, the costs and, from format 2 on,
/// the factors, and the manifest is no larger than accepted and lies behind the
/// header, and from format 3 on behind the decoy block.
pub proof fn law_header_is_read_exactly_when(b: Seq<u8>, j: JudgementView)
    ensures
        parsed(b, j) is Ok <==> {
            let version = crate::le::un16(b.subrange(8, 10));
            let offset = crate::le::un64(b.subrange(152, 160));
            &&& b.len() >= 256
            &&& b.take(8) == MAGIC@
            &&& version == 1 || version == 2 || version == 3
            &&& crate::le::un16(b.subrange(12, 14)) == 1
            &&& j.crypto is Ok
            &&& j.compress is Ok
            &&& j.kdf is Ok
            &&& version >= 2 ==> j.factors is Ok
            &&& crate::le::un64(b.subrange(160, 168)) <= j.max_manifest_bytes
            &&& offset >= 256
            &&& version >= 3 ==> offset >= 512
        },
{
}

/// What the registries refuse is refused with what they say, whatever else is
/// wrong behind it: the cipher first, then the compression, then the costs. A
/// cost below the floor is never accepted.
pub proof fn law_refusals_of_the_registries_are_passed_on(b: Seq<u8>, j: JudgementView)
    requires
        b.len() >= 256,
        b.take(8) == MAGIC@,
        1 <= crate::le::un16(b.subrange(8, 10)) <= 3,
    ensures
        j.crypto is Err ==> parsed(b, j) == Err::<HeaderView, ErrorView>(j.crypto->Err_0),
        crate::le::un16(b.subrange(12, 14)) == 1 && j.crypto is Ok && j.compress is Err ==> parsed(
            b,
            j,
        ) == Err::<HeaderView, ErrorView>(j.compress->Err_0),
        crate::le::un16(b.subrange(12, 14)) == 1 && j.crypto is Ok && j.compress is Ok
            && j.kdf is Err ==> parsed(b, j) == Err::<HeaderView, ErrorView>(j.kdf->Err_0),
        j.kdf is Err ==> parsed(b, j) is Err,
{
}

/// Where each field of a header stands.
pub proof fn law_header_is_read_from_these_bytes(b: Seq<u8>, j: JudgementView, h: HeaderView)
    requires
        parsed(b, j) == Ok::<HeaderView, ErrorView>(h),
    ensures
        h.format_version == crate::le::un16(b.subrange(8, 10)),
        h.crypto_suite.code == crate::le::un16(b.subrange(10, 12)),
        Ok::<usize, ErrorView>(h.crypto_suite.nonce_len) == j.crypto,
        h.compress_suite.code == crate::le::un16(b.subrange(14, 16)),
        h.vault_id == b.subrange(16, 32),
        h.kdf_params.memory_kib == crate::le::un32(b.subrange(32, 36)),
        h.kdf_params.time_cost == crate::le::un32(b.subrange(36, 40)),
        h.kdf_params.parallelism == crate::le::un32(b.subrange(40, 44)),
        h.flags == crate::le::un32(b.subrange(44, 48)),
        h.kdf_salt == b.subrange(48, 80),
        h.master_key_nonce == b.subrange(80, 104),
        h.wrapped_master_key == b.subrange(104, 152),
        h.manifest_offset == crate::le::un64(b.subrange(152, 160)),
        h.manifest_len == crate::le::un64(b.subrange(160, 168)),
        h.integrity_root == b.subrange(168, 200),
        h.format_version >= 2 ==> h.auth.required.bits == crate::le::un16(b.subrange(200, 202)),
        h.format_version >= 2 ==> Ok::<(u16, bool), ErrorView>(
            (h.auth.required.count, h.auth.required.hardware),
        ) == j.factors,
        h.format_version >= 2 ==> h.auth.prf_salt == b.subrange(204, 236),
        h.format_version >= 2 ==> h.auth.credential_hint == b.subrange(236, 256),
        h.format_version < 2 ==> h.auth == j.password_only,
        h.raw == Some(b.take(256)),
        h.format_version >= 3 && b.len() >= 512 ==> h.decoy == Some(b.subrange(256, 512)),
{
}

/// What the registries are asked about is what the header says.
pub proof fn law_probe_asks_about_these_bytes(b: Seq<u8>)
    ensures
        probe_of(b).crypto_code == crate::le::un16(b.subrange(10, 12)),
        probe_of(b).compress_code == crate::le::un16(b.subrange(14, 16)),
        probe_of(b).kdf_params.memory_kib == crate::le::un32(b.subrange(32, 36)),
        probe_of(b).kdf_params.time_cost == crate::le::un32(b.subrange(36, 40)),
        probe_of(b).kdf_params.parallelism == crate::le::un32(b.subrange(40, 44)),
        probe_of(b).factor_bits == crate::le::un16(b.subrange(200, 202)),
{
}

/// Where each field of a slot stands.
pub proof fn law_slot_is_read_from_these_bytes(b: Seq<u8>)
    ensures
        slot_of(b).key_nonce == b.subrange(0, 24),
        slot_of(b).wrapped_key == b.subrange(24, 72),
        slot_of(b).kdf_salt == b.subrange(72, 104),
        slot_of(b).manifest_offset == crate::le::un64(b.subrange(104, 112)),
        slot_of(b).manifest_len == crate::le::un64(b.subrange(112, 120)),
        slot_of(b).body_offset == crate::le::un64(b.subrange(120, 128)),
        slot_of(b).body_len == crate::le::un64(b.subrange(128, 136)),
{
}

/// What a wrapped key commits to: the first 80 bytes of the header, and from
/// format 2 on its last 56; of a header that was read, those that were read,
/// and otherwise those that would be written.
pub proof fn law_aad_is_these_bytes(h: HeaderView)
    ensures
        ({
            let image = match h.raw {
                Some(r) => r,
                None => h.image(),
            };
            &&& h.format_version >= 2 ==> h.aad() == image.take(80) + image.subrange(200, 256)
            &&& h.format_version < 2 ==> h.aad() == image.take(80)
        }),
        h.frozen().raw == Some(h.image()),
        h.frozen().image() == h.image(),
        h.head() == match h.decoy {
            Some(d) => h.image() + d,
            None => h.image(),
        },
{
}

/// Chunks begin behind the header, and from format 3 on behind the block.
pub proof fn law_chunks_begin_behind_the_header(version: u16)
    ensures
        version < 3 ==> data_start_of(version) == 256,
        version >= 3 ==> data_start_of(version) == 512,
        supported(version) <==> version == 1 || version == 2 || version == 3,
{
}

} // verus!
