use zerotrace::binding::{chunk_aad, decoy_aad, manifest_aad};
use zerotrace::error::Error;
use zerotrace::format::{
    flags, probe, DecoySlot, Header, Judgement, DECOY_BLOCK_LEN, FORMAT_VERSION, HEADER_AAD_LEN,
    HEADER_LEN, MAGIC, SALT_LEN, V3_DATA_START, WRAPPED_KEY_LEN,
};
use zerotrace::frame::Frame;
use zerotrace::suite::{
    AuthDescriptor, CompressSuite, CryptoSuite, FactorSet, KdfParams, VaultId,
};

const PASSWORD: FactorSet = FactorSet { bits: 1, count: 1, hardware: false };
const WITH_FIDO: FactorSet = FactorSet { bits: 3, count: 2, hardware: true };
const INTERACTIVE: KdfParams = KdfParams { memory_kib: 65536, time_cost: 3, parallelism: 1 };

fn password_only() -> AuthDescriptor {
    AuthDescriptor { required: PASSWORD, prf_salt: [0; 32], credential_hint: [0; 20] }
}

/// Registries that know one cipher, two compressions and two sets of factors.
fn judge(b: &[u8]) -> Judgement {
    let refused = |what: &str, value: u32| Error::Unsupported {
        what: what.to_string(),
        value: value.to_string(),
    };
    let mut j = Judgement {
        crypto: Ok(24),
        compress: Ok(()),
        kdf: Ok(()),
        factors: Ok((1, false)),
        password_only: password_only(),
        max_manifest_bytes: 1 << 26,
    };
    if let Some(p) = probe(b) {
        if p.crypto_code != 1 {
            j.crypto = Err(refused("crypto suite", p.crypto_code as u32));
        }
        if p.compress_code > 1 {
            j.compress = Err(refused("compression suite", p.compress_code as u32));
        }
        if p.kdf_params.memory_kib < 8192 {
            j.kdf = Err(Error::Other("the KDF is too cheap".to_string()));
        }
        j.factors = match p.factor_bits {
            1 => Ok((1, false)),
            3 => Ok((2, true)),
            bits => Err(refused("factors", bits as u32)),
        };
    }
    j
}

fn parse(b: &[u8]) -> Result<Header, Error> {
    Header::from_bytes(b, judge(b))
}

fn sample() -> Header {
    Header {
        format_version: FORMAT_VERSION,
        crypto_suite: CryptoSuite { code: 1, nonce_len: 24 },
        compress_suite: CompressSuite { code: 1 },
        vault_id: VaultId::from_bytes([9u8; 16]),
        kdf_params: INTERACTIVE,
        flags: 0,
        kdf_salt: [3u8; SALT_LEN],
        master_key_nonce: [4u8; 24],
        wrapped_master_key: [5u8; WRAPPED_KEY_LEN],
        manifest_offset: 4096,
        manifest_len: 128,
        integrity_root: [6u8; 32],
        auth: password_only(),
        raw: None,
        decoy: Some([7u8; DECOY_BLOCK_LEN]),
    }
}

/// A tag over additional data: enough to see whether it changed.
fn tag(key: u64, parts: &[&[u8]]) -> u64 {
    let mut h = key ^ 0xcbf2_9ce4_8422_2325;
    for p in parts {
        for b in p.iter() {
            h = (h ^ *b as u64).wrapping_mul(0x100_0000_01b3);
        }
        h = h.rotate_left(17).wrapping_add(p.len() as u64);
    }
    h
}

#[test]
fn header_round_trips() {
    let h = sample();
    let parsed = parse(&h.to_bytes()).unwrap();
    assert_eq!(parsed.vault_id, h.vault_id);
    assert_eq!(parsed.kdf_params, h.kdf_params);
    assert_eq!(parsed.kdf_salt, h.kdf_salt);
    assert_eq!(parsed.manifest_offset, h.manifest_offset);
}

#[test]
fn a_downgraded_kdf_is_refused_at_parse_time() {
    let mut h = sample();
    h.kdf_params = KdfParams { memory_kib: 8, time_cost: 1, parallelism: 1 };
    assert!(parse(&h.to_bytes()).is_err());
}

#[test]
fn unknown_versions_and_suites_are_never_guessed() {
    let mut b = sample().to_bytes();
    b[8..10].copy_from_slice(&99u16.to_le_bytes());
    assert!(parse(&b).is_err());

    let mut b = sample().to_bytes();
    b[10..12].copy_from_slice(&77u16.to_le_bytes());
    assert!(parse(&b).is_err());
}

#[test]
fn junk_is_rejected() {
    assert!(parse(&[]).is_err());
    assert!(parse(&[0u8; HEADER_LEN]).is_err());
    assert!(parse(b"not a vault").is_err());
}

#[test]
fn stripping_the_fido_requirement_breaks_the_wrap() {
    let mut h = sample();
    h.auth.required = WITH_FIDO;
    h.auth.prf_salt = [11u8; 32];
    let wrapped = tag(42, &[&h.master_key_nonce, &h.aad()]);

    // Downgrade the vault to password-only and the wrap no longer opens.
    let mut stripped = h;
    stripped.auth.required = PASSWORD;
    assert_ne!(wrapped, tag(42, &[&h.master_key_nonce, &stripped.aad()]));

    // Changing the PRF salt is equally refused.
    let mut moved = h;
    moved.auth.prf_salt[0] ^= 1;
    assert_ne!(wrapped, tag(42, &[&h.master_key_nonce, &moved.aad()]));
}

#[test]
fn version_one_vaults_still_parse() {
    let mut h = sample();
    h.format_version = 1;
    let parsed = parse(&h.to_bytes()).unwrap();
    assert_eq!(parsed.format_version, 1);
    assert_eq!(parsed.auth, password_only());
    // And its AAD is the shorter one.
    assert_eq!(parsed.aad().len(), HEADER_AAD_LEN);
}

#[test]
fn tampering_with_kdf_parameters_breaks_the_wrap() {
    let h = sample();
    let wrapped = tag(42, &[&h.master_key_nonce, &h.aad()]);
    assert_eq!(wrapped, tag(42, &[&h.master_key_nonce, &h.aad()]));

    // Raise the salt by one bit and the same wrap no longer opens.
    let mut tampered = h;
    tampered.kdf_salt[0] ^= 1;
    assert_ne!(wrapped, tag(42, &[&h.master_key_nonce, &tampered.aad()]));

    // Mutable fields are outside the AAD, so rewriting them is fine.
    let mut moved = h;
    moved.manifest_offset = 999_999;
    moved.integrity_root = [1u8; 32];
    assert_eq!(wrapped, tag(42, &[&h.master_key_nonce, &moved.aad()]));
}

#[test]
fn the_header_is_laid_out_as_agreed() {
    let mut h = sample();
    h.auth.required = WITH_FIDO;
    h.auth.prf_salt = [11; 32];
    h.auth.credential_hint = [12; 20];
    h.flags = flags::SPLIT_PROTECTED;
    let b = h.to_bytes();
    assert_eq!(&b[0..8], &MAGIC);
    assert_eq!(&MAGIC, b"AZV1\0\0\0\0");
    assert_eq!(&b[8..16], &[3, 0, 1, 0, 1, 0, 1, 0]);
    assert_eq!(&b[16..32], &[9; 16]);
    assert_eq!(&b[32..48], &[0, 0, 1, 0, 3, 0, 0, 0, 1, 0, 0, 0, 2, 0, 0, 0]);
    assert_eq!(&b[48..80], &[3; 32]);
    assert_eq!(&b[80..104], &[4; 24]);
    assert_eq!(&b[104..152], &[5; 48]);
    assert_eq!(&b[152..168], &[0, 16, 0, 0, 0, 0, 0, 0, 128, 0, 0, 0, 0, 0, 0, 0]);
    assert_eq!(&b[168..200], &[6; 32]);
    assert_eq!(&b[200..204], &[3, 0, 2, 0]);
    assert_eq!(&b[204..236], &[11; 32]);
    assert_eq!(&b[236..256], &[12; 20]);
    // Before version 2 the last part is empty.
    h.format_version = 1;
    assert_eq!(&h.to_bytes()[200..256], &[0; 56]);
}

#[test]
fn every_reason_against_a_header_is_reported_in_order() {
    let full = |f: &dyn Fn(&mut [u8; HEADER_LEN])| {
        let mut b = sample().to_bytes();
        f(&mut b);
        parse(&b).unwrap_err()
    };
    assert_eq!(
        parse(&[0; 255]).unwrap_err(),
        Error::Format("file is too short to be an AZV vault".to_string())
    );
    assert_eq!(
        full(&|b| b[0] = 0),
        Error::Format("not an Apex ZeroTrace vault (magic number does not match)".to_string())
    );
    assert_eq!(
        full(&|b| b[8] = 4),
        Error::Unsupported { what: "AZV format version".to_string(), value: "4".to_string() }
    );
    assert_eq!(
        full(&|b| b[10] = 2),
        Error::Unsupported { what: "crypto suite".to_string(), value: "2".to_string() }
    );
    assert_eq!(
        full(&|b| {
            b[12] = 0x39;
            b[13] = 0x30;
        }),
        Error::Unsupported { what: "KDF suite".to_string(), value: "12345".to_string() }
    );
    assert_eq!(
        full(&|b| b[14] = 9),
        Error::Unsupported { what: "compression suite".to_string(), value: "9".to_string() }
    );
    assert_eq!(full(&|b| b[34] = 0), Error::Other("the KDF is too cheap".to_string()));
    assert_eq!(
        full(&|b| b[164] = 1),
        Error::LimitExceeded("manifest declares 4294967424 bytes, above the limit".to_string())
    );
    assert_eq!(
        full(&|b| {
            b[152] = 255;
            b[153] = 1;
        }),
        Error::Format("manifest offset overlaps the header".to_string())
    );
    assert_eq!(
        full(&|b| b[200] = 8),
        Error::Unsupported { what: "factors".to_string(), value: "8".to_string() }
    );
    // Two reasons at once: the one met first is reported.
    assert_eq!(
        full(&|b| {
            b[200] = 8;
            b[0] = 0;
        }),
        Error::Format("not an Apex ZeroTrace vault (magic number does not match)".to_string())
    );
}

#[test]
fn data_begins_behind_the_block_from_format_three_on() {
    let mut h = sample();
    assert_eq!(h.data_start(), V3_DATA_START);
    h.format_version = 2;
    assert_eq!(h.data_start(), HEADER_LEN as u64);
    // An offset that is fine in format 2 is not in format 3.
    h.manifest_offset = 300;
    assert!(parse(&h.to_bytes()).is_ok());
    h.format_version = 3;
    assert!(parse(&h.to_bytes()).is_err());
}

#[test]
fn the_additional_data_comes_from_the_bytes_that_were_read() {
    // A derived count that does not match is not normalized away.
    let mut b = sample().to_bytes();
    b[202] = 77;
    let parsed = parse(&b).unwrap();
    assert_eq!(parsed.aad()[82], 77);
    assert_eq!(parsed.to_bytes()[202], 1);
    // Freezing pins what the header says now.
    let mut frozen = parsed;
    frozen.freeze();
    assert_eq!(frozen.aad()[82], 1);
    frozen.kdf_salt = [0; 32];
    assert_eq!(frozen.aad()[50], 3);
}

#[test]
fn the_decoy_block_is_read_only_where_it_is_whole() {
    let h = sample();
    let mut b = h.to_bytes().to_vec();
    assert!(parse(&b).unwrap().decoy_slot().is_none());
    b.extend_from_slice(&[7; 255]);
    assert!(parse(&b).unwrap().decoy_slot().is_none());
    b.push(7);
    assert_eq!(parse(&b).unwrap().decoy_bytes(), Some([7; DECOY_BLOCK_LEN]));
    // No block before format 3.
    b[8] = 2;
    assert!(parse(&b).unwrap().decoy_slot().is_none());
}

#[test]
fn decoy_slots_round_trip() {
    let slot = DecoySlot {
        key_nonce: [1; 24],
        wrapped_key: [2; 48],
        kdf_salt: [3; 32],
        manifest_offset: 0x0102_0304_0506_0708,
        manifest_len: 9,
        body_offset: u64::MAX,
        body_len: 10,
    };
    let block = slot.encode(&[0xEE; 120]);
    assert_eq!(&block[104..112], &[8, 7, 6, 5, 4, 3, 2, 1]);
    assert_eq!(&block[136..], &[0xEE; 120]);
    assert_eq!(DecoySlot::decode(&block), slot);
    let mut h = sample();
    h.set_decoy_slot(&slot, &[0xEE; 120]);
    assert_eq!(h.decoy_slot(), Some(slot));
    // A random slot is made of the bytes it is given.
    let mut noise = [0u8; 136];
    for (i, b) in noise.iter_mut().enumerate() {
        *b = i as u8;
    }
    let random = DecoySlot::random(&noise);
    assert_eq!(random.encode(&[0; 120])[..136], noise[..]);
}

#[test]
fn additional_data_is_laid_out_as_agreed() {
    let id = VaultId::from_bytes([1; 16]);
    let mut m = b"apex-zerotrace:manifest:v2".to_vec();
    m.extend_from_slice(&[1; 16]);
    m.extend_from_slice(&[5, 0, 0, 0, 0, 0, 0, 0, 6, 0, 0, 0, 0, 0, 0, 0]);
    assert_eq!(manifest_aad(&id, 5, 6), m);

    let mut c = vec![2; 16];
    c.extend_from_slice(&[7, 0, 0, 0, 0, 0, 0, 0, 8, 0, 0, 0, 9, 0]);
    assert_eq!(chunk_aad(&[2; 16], 7, 8, CompressSuite { code: 9 }), c);

    let mut d = b"apex-zerotrace:decoy-wrap:v1".to_vec();
    d.extend_from_slice(&[1; 16]);
    assert_eq!(decoy_aad(&id), d);
}

#[test]
fn a_record_is_taken_apart_or_refused() {
    let f = Frame { nonce: [1; 24], plain_len: 2, generation: 3, sealed: vec![4, 5, 6] };
    let mut b = f.to_bytes();
    assert_eq!(b.len(), 43);
    b.push(99);
    assert_eq!(Frame::from_bytes(&b, 43, 10), Ok(f));

    let truncated = Error::Format("vault is truncated at the manifest".to_string());
    let short = Error::Io("failed to fill whole buffer".to_string());
    assert_eq!(Frame::from_bytes(&b[..23], 43, 10).unwrap_err(), truncated);
    assert_eq!(Frame::from_bytes(&b[..31], 43, 10).unwrap_err(), short);
    assert_eq!(
        Frame::from_bytes(&b[..32], 43, 1).unwrap_err(),
        Error::LimitExceeded("manifest declares an implausible size".to_string())
    );
    assert_eq!(Frame::from_bytes(&b[..39], 43, 10).unwrap_err(), short);
    assert_eq!(
        Frame::from_bytes(&b, 39, 10).unwrap_err(),
        Error::Format("manifest region is too small".to_string())
    );
    assert_eq!(Frame::from_bytes(&b[..42], 43, 10).unwrap_err(), truncated);
}

#[test]
fn errors_read_as_sentences() {
    assert_eq!(
        Error::Unsupported { what: "KDF suite".to_string(), value: "7".to_string() }.message(),
        "KDF suite is not supported: 7"
    );
    assert_eq!(Error::Locked.message(), "the vault is locked");
    assert_eq!(Error::AuthenticationFailed.message(), "authentication failed");
    assert_eq!(Error::Io("gone".to_string()).message(), "gone");
}
