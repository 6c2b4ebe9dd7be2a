use std::collections::BTreeMap;

use zerotrace::container::{apply, Op};
use zerotrace::error::Error;
use zerotrace::format::{
    probe, Header, Judgement, Probe, DECOY_BLOCK_LEN, HEADER_LEN, WRAPPED_KEY_LEN,
};
use zerotrace::manifest::{ChunkRef, Entry, Manifest};
use zerotrace::suite::{
    AuthDescriptor, CompressSuite, CryptoSuite, FactorSet, KdfParams, VaultId,
};
use zerotrace::vault::chunk::{ChunkAsk, ChunkReply, ChunkStep};
use zerotrace::vault::create::{AuthenticatorKind, Noise};
use zerotrace::vault::duress::{check_pair, Folding, Source};
use zerotrace::vault::open::{Ask, Opener, Reply, Step};
use zerotrace::vault::verify::{Assurance, VerifyReport};
use zerotrace::vault::{Identity, Limits, Vault, VaultOptions, CHUNK_SIZE, COMPRESSION_LEVEL};

const REAL: &[u8] = b"correct-horse-battery-staple";
const DURESS: &[u8] = b"winter-harbor-lantern-quiet";

const STORE: CompressSuite = CompressSuite { code: 0 };
const PACKED: CompressSuite = CompressSuite { code: 1 };
const CIPHER: CryptoSuite = CryptoSuite { code: 1, nonce_len: 12 };
const PASSWORD: FactorSet = FactorSet { bits: 1, count: 1, hardware: false };
const WITH_FIDO: FactorSet = FactorSet { bits: 3, count: 2, hardware: true };
const LIMITS: Limits = Limits {
    max_manifest_bytes: 1 << 26,
    max_path_depth: 8,
    max_entries: 16,
    max_chunk_ciphertext: 1 << 21,
};

fn options() -> VaultOptions {
    VaultOptions {
        crypto_suite: CIPHER,
        compress_suite: PACKED,
        kdf_params: KdfParams { memory_kib: 65536, time_cost: 3, parallelism: 1 },
        compression_level: COMPRESSION_LEVEL,
        factors: PASSWORD,
    }
}

// A keyed hash, a cipher, a key derivation and a compressor that are good for
// nothing but telling inputs apart.

fn mix(parts: &[&[u8]]) -> [u8; 32] {
    let mut s: [u64; 4] = [1, 2, 3, 4];
    for p in parts {
        for piece in p.chunks(8) {
            let mut w = [0u8; 8];
            w[..piece.len()].copy_from_slice(piece);
            let x = u64::from_le_bytes(w);
            s[0] = (s[0] ^ x).wrapping_mul(0x9E37_79B9_7F4A_7C15).rotate_left(29);
            s[1] = s[1].wrapping_add(s[0]).rotate_left(13);
            s[2] = (s[2] ^ s[1]).wrapping_mul(0xBF58_476D_1CE4_E5B9);
            s[3] = s[3].wrapping_add(s[2] ^ x).rotate_left(41);
        }
        s[0] = s[0].wrapping_add(p.len() as u64 + 1);
    }
    let mut out = [0u8; 32];
    for (i, chunk) in out.chunks_mut(8).enumerate() {
        let mut z = s[i] ^ s[(i + 1) % 4].rotate_left(31) ^ s[(i + 3) % 4];
        z = (z ^ (z >> 30)).wrapping_mul(0xBF58_476D_1CE4_E5B9);
        z = (z ^ (z >> 27)).wrapping_mul(0x94D0_49BB_1331_11EB);
        chunk.copy_from_slice(&(z ^ (z >> 31)).to_le_bytes());
    }
    out
}

#[derive(Clone, Debug, PartialEq)]
struct Key(Vec<u8>);

fn stream(key: &Key, nonce: &[u8], data: &[u8]) -> Vec<u8> {
    let mut out = Vec::with_capacity(data.len());
    for (i, block) in data.chunks(32).enumerate() {
        let pad = mix(&[&key.0, nonce, &(i as u64).to_le_bytes()]);
        out.extend(block.iter().zip(pad.iter()).map(|(a, b)| a ^ b));
    }
    out
}

fn seal(key: &Key, nonce: &[u8], plain: &[u8], aad: &[u8]) -> Vec<u8> {
    let mut ct = stream(key, nonce, plain);
    let tag = mix(&[b"tag", &key.0, nonce, aad, &ct]);
    ct.extend_from_slice(&tag[..16]);
    ct
}

fn unseal(key: &Key, nonce: &[u8], sealed: &[u8], aad: &[u8]) -> Result<Vec<u8>, Error> {
    if sealed.len() < 16 {
        return Err(Error::AuthenticationFailed);
    }
    let (ct, tag) = sealed.split_at(sealed.len() - 16);
    if mix(&[b"tag", &key.0, nonce, aad, ct])[..16] != *tag {
        return Err(Error::AuthenticationFailed);
    }
    Ok(stream(key, nonce, ct))
}

fn subkey(key: &Key, what: &[u8]) -> Key {
    Key(mix(&[b"subkey", &key.0, what]).to_vec())
}

fn derive(password: &[u8], salt: &[u8], params: KdfParams) -> Key {
    Key(mix(&[b"kdf", password, salt, &params.memory_kib.to_le_bytes()]).to_vec())
}

fn compose(key: Key, auth: &AuthDescriptor, hardware: Option<&[u8]>) -> Key {
    match hardware {
        Some(h) if auth.required.hardware => Key(mix(&[b"both", &key.0, h]).to_vec()),
        _ => key,
    }
}

/// Packs bytes that are all the same; anything else is stored.
fn pack(plain: &[u8], suite: CompressSuite) -> (CompressSuite, Vec<u8>) {
    if suite == PACKED && !plain.is_empty() && plain.iter().all(|b| *b == plain[0]) {
        (PACKED, vec![plain[0]])
    } else {
        (STORE, plain.to_vec())
    }
}

fn unpack(suite: CompressSuite, inner: &[u8], len: u32) -> Result<Vec<u8>, Error> {
    if suite == PACKED {
        Ok(vec![inner[0]; len as usize])
    } else {
        Ok(inner.to_vec())
    }
}

fn root_of(entries: &[Entry]) -> [u8; 32] {
    let mut h = mix(&[b"root"]);
    for e in entries {
        h = mix(&[&h, e.path.as_bytes(), &e.object_id, &e.size.to_le_bytes()]);
        for c in &e.chunks {
            h = mix(&[&h, &c.offset.to_le_bytes(), &c.hash]);
        }
    }
    h
}

fn encode(m: &Manifest) -> Vec<u8> {
    let mut b = Vec::new();
    b.extend_from_slice(&m.generation.to_le_bytes());
    b.extend_from_slice(&m.integrity_root);
    b.extend_from_slice(&(m.entries.len() as u64).to_le_bytes());
    for e in &m.entries {
        b.extend_from_slice(&e.object_id);
        b.extend_from_slice(&(e.path.len() as u64).to_le_bytes());
        b.extend_from_slice(e.path.as_bytes());
        b.extend_from_slice(&e.size.to_le_bytes());
        b.extend_from_slice(&e.mtime.to_le_bytes());
        b.extend_from_slice(&e.compress_suite.code.to_le_bytes());
        b.extend_from_slice(&(e.chunks.len() as u64).to_le_bytes());
        for c in &e.chunks {
            b.extend_from_slice(&c.offset.to_le_bytes());
            b.extend_from_slice(&c.ciphertext_len.to_le_bytes());
            b.extend_from_slice(&c.plaintext_len.to_le_bytes());
            b.extend_from_slice(&c.hash);
        }
    }
    b
}

fn decode(b: &[u8]) -> Manifest {
    let mut at = 0;
    let mut take = |n: usize| {
        at += n;
        b[at - n..at].to_vec()
    };
    fn num(v: Vec<u8>) -> u64 {
        let mut w = [0u8; 8];
        w[..v.len()].copy_from_slice(&v);
        u64::from_le_bytes(w)
    }
    let generation = num(take(8));
    let integrity_root = take(32).try_into().unwrap();
    let mut entries = Vec::new();
    for _ in 0..num(take(8)) {
        let object_id = take(16).try_into().unwrap();
        let n = num(take(8)) as usize;
        let path = String::from_utf8(take(n)).unwrap();
        let size = num(take(8));
        let mtime = num(take(8)) as i64;
        let compress_suite = CompressSuite { code: num(take(2)) as u16 };
        let mut chunks = Vec::new();
        for _ in 0..num(take(8)) {
            chunks.push(ChunkRef {
                offset: num(take(8)),
                ciphertext_len: num(take(4)) as u32,
                plaintext_len: num(take(4)) as u32,
                hash: take(32).try_into().unwrap(),
            });
        }
        entries.push(Entry { object_id, path, size, mtime, compress_suite, chunks });
    }
    Manifest { entries, generation, integrity_root }
}

fn password_only() -> AuthDescriptor {
    AuthDescriptor { required: PASSWORD, prf_salt: [0; 32], credential_hint: [0; 20] }
}

fn judge(p: Probe) -> Judgement {
    let unknown =
        |what: &str| Error::Unsupported { what: what.to_string(), value: "?".to_string() };
    Judgement {
        crypto: if p.crypto_code == 1 { Ok(12) } else { Err(unknown("crypto suite")) },
        compress: if p.compress_code <= 1 { Ok(()) } else { Err(unknown("compression suite")) },
        kdf: if p.kdf_params.memory_kib >= 8192 {
            Ok(())
        } else {
            Err(Error::Other("the KDF is too cheap".to_string()))
        },
        factors: match p.factor_bits {
            1 => Ok((1, false)),
            3 => Ok((2, true)),
            _ => Err(unknown("factors")),
        },
        password_only: password_only(),
        max_manifest_bytes: LIMITS.max_manifest_bytes,
    }
}

/// Files in memory, and a source of random bytes.
struct Disk {
    files: BTreeMap<String, Vec<u8>>,
    counter: u64,
    /// What an authenticator would contribute, if one is plugged in.
    token: Option<Vec<u8>>,
    /// The release key that the components of a split vault give.
    release: Option<Key>,
    /// Everything that was asked while opening, in order.
    asked: Vec<&'static str>,
}

impl Disk {
    fn new() -> Self {
        Disk {
            files: BTreeMap::new(),
            counter: 0,
            token: None,
            release: None,
            asked: Vec::new(),
        }
    }

    fn random<const N: usize>(&mut self) -> [u8; N] {
        let mut out = [0u8; N];
        for piece in out.chunks_mut(32) {
            self.counter += 1;
            let block = mix(&[b"random", &self.counter.to_le_bytes()]);
            piece.copy_from_slice(&block[..piece.len()]);
        }
        out
    }

    fn write(&mut self, path: &str, body: &[u8]) {
        self.files.insert(path.to_string(), body.to_vec());
    }

    fn read(&self, path: &str, at: u64, len: u64) -> Vec<u8> {
        let f = &self.files[path];
        let from = (at as usize).min(f.len());
        let to = at.saturating_add(len).min(f.len() as u64) as usize;
        f[from..to].to_vec()
    }

    fn read_exact(&self, path: &str, region: Option<(u64, u64)>) -> Option<Vec<u8>> {
        let (at, len) = region?;
        let b = self.read(path, at, len);
        if b.len() as u64 == len {
            Some(b)
        } else {
            None
        }
    }

    fn change(&mut self, path: &str, ops: &Vec<Op>) {
        let c = self.files.remove(path).unwrap();
        self.files.insert(path.to_string(), apply(c, ops));
    }

    fn len(&self, path: &str) -> u64 {
        self.files[path].len() as u64
    }

    fn save(&mut self, v: &mut Vault<Key>, carried: Option<Vec<u8>>) -> Result<(), Error> {
        v.begin_save(root_of(v.entries()))?;
        let plain = encode(v.manifest());
        let nonce = self.random::<24>();
        let q = v.seal_manifest(plain.len() as u64, &nonce);
        let key = subkey(v.master()?, b"metadata");
        let ct = seal(&key, &q.nonce, &plain, &q.aad);
        let filler = self.random::<120>();
        let ops = v.finish_save(nonce, plain.len() as u64, ct, carried, &filler, &LIMITS)?;
        let path = v.path().to_string();
        self.change(&path, &ops);
        Ok(())
    }

    fn create(&mut self, path: &str, password: &[u8], o: &VaultOptions) -> Result<Vault<Key>, Error> {
        let noise = Noise {
            kdf_salt: self.random(),
            master_key_nonce: self.random(),
            prf_salt: self.random(),
            vault_id: self.random(),
            decoy: self.random(),
        };
        let plugged = self.token.as_ref().map(|_| AuthenticatorKind::Fido2Prf);
        let exists = self.files.contains_key(path);
        let c = Vault::<Key>::create_with(
            path.to_string(),
            exists,
            password,
            o,
            Ok(()),
            Ok(()),
            plugged,
            &noise,
        )?;
        let hardware = c.hardware_request().map(|(hint, salt)| {
            mix(&[self.token.as_ref().unwrap(), &hint, &salt]).to_vec()
        });
        let (salt, params, auth) = c.kek_request();
        let kek = compose(derive(password, &salt, params), &auth, hardware.as_deref());
        let master = Key(self.random::<32>().to_vec());
        let q = c.wrap_request();
        let wrapped = seal(&kek, &q.nonce, &master.0, &q.aad);
        let mut v = c.finish(master, wrapped)?;
        self.write(path, b"");
        self.save(&mut v, None)?;
        Ok(v)
    }

    /// Answers one question of an opener.
    fn answer(&mut self, path: &str, password: &[u8], hw: &mut Option<Vec<u8>>, ask: Ask<Key>) -> Reply<Key> {
        match ask {
            Ask::Head { writable } => {
                self.asked.push(if writable { "head to write" } else { "head" });
                Reply::Bytes(self.read(path, 0, 512))
            }
            Ask::Judge(p) => Reply::Judged(judge(p)),
            Ask::Hardware { hint, salt } => {
                self.asked.push("hardware");
                *hw = Some(mix(&[self.token.as_ref().unwrap(), &hint, &salt]).to_vec());
                Reply::Hardware
            }
            Ask::Kek { salt, params, auth } => {
                let key = derive(password, &salt, params);
                Reply::Kek(match auth {
                    Some(a) => compose(key, &a, hw.as_deref()),
                    None => key,
                })
            }
            Ask::Bundle { path } => match self.files.get(&path) {
                None => Reply::NoBundle,
                Some(b) => {
                    let id: [u8; 16] = b[..16].try_into().unwrap();
                    Reply::Bundle { vault_id: VaultId::from_bytes(id) }
                }
            },
            Ask::Release => match &self.release {
                Some(k) => Reply::Kek(k.clone()),
                None => Reply::Failed(Error::Other("not enough components".to_string())),
            },
            Ask::Unwrap { kek, suite: _, nonce, wrapped, aad } => {
                self.asked.push("unwrap");
                match unseal(&kek, &nonce, &wrapped, &aad) {
                    Ok(m) => Reply::Unwrapped { len: m.len(), key: Key(m) },
                    Err(e) => Reply::Failed(e),
                }
            }
            Ask::Random => Reply::Random(self.random()),
            Ask::Overwrite { at, bytes } => {
                self.asked.push("overwrite");
                self.change(path, &vec![Op::Write { at, data: bytes.to_vec() }]);
                Reply::Written
            }
            Ask::Bytes { at, len } => {
                self.asked.push("bytes");
                Reply::Bytes(self.read(path, at, len))
            }
            Ask::EmptyRoot { master } => Reply::Root { master, root: root_of(&[]) },
            Ask::Manifest { master, suite: _, nonce, sealed, aad } => {
                self.asked.push("manifest");
                match unseal(&subkey(&master, b"metadata"), &nonce, &sealed, &aad) {
                    Ok(plain) => {
                        let manifest = decode(&plain);
                        let root = root_of(&manifest.entries);
                        Reply::Manifest { master, manifest, root }
                    }
                    Err(e) => Reply::Failed(e),
                }
            }
        }
    }

    fn run(&mut self, path: &str, password: &[u8], first: Step<Key>) -> Result<Option<Vault<Key>>, Error> {
        self.asked.clear();
        let mut hw = None;
        let mut step = first;
        loop {
            step = match step {
                Step::Ask(o, ask) => {
                    let reply = self.answer(path, password, &mut hw, ask);
                    o.step(reply)
                }
                Step::Opened(v) => return Ok(Some(v)),
                Step::Refused(e) => return Err(e),
                Step::NotDuress => return Ok(None),
            }
        }
    }

    fn open(&mut self, path: &str, password: &[u8]) -> Result<Vault<Key>, Error> {
        let plugged = self.token.is_some();
        let first = Vault::open_with(path.to_string(), plugged);
        Ok(self.run(path, password, first)?.unwrap())
    }

    fn import(&mut self, v: &mut Vault<Key>, source: &str, stored: &str) -> Result<(), Error> {
        let master = v.master()?.clone();
        let is_file = self.files.contains_key(source);
        let id = self.random::<16>();
        let mut im = v.import(source, is_file, stored, id, &LIMITS)?;
        let path = v.path().to_string();
        let carried = self.read_exact(&path, im.region());
        let key = subkey(&master, im.object_id());
        let data = self.files[source].clone();
        let mut rest = &data[..];
        while im.wants_more() && !rest.is_empty() {
            let n = rest.len().min(CHUNK_SIZE);
            let (used, inner) = pack(&rest[..n], v.compress_suite());
            let aad = im.next_aad(n, used);
            let ct = seal(&key, &im.index().to_le_bytes(), &inner, &aad);
            let hash = mix(&[&ct]);
            let op = im.add_chunk(n, ct, hash, &LIMITS)?;
            self.change(&path, &vec![op]);
            rest = &rest[n..];
        }
        assert_eq!(im.total(), data.len() as u64);
        v.finish_import(im, 77, STORE);
        self.save(v, carried)
    }

    fn run_chunk(&self, v: &Vault<Key>, key: &Key, first: ChunkStep) -> Result<Vec<u8>, Error> {
        let mut step = first;
        loop {
            step = match step {
                ChunkStep::Plain(b) => return Ok(b),
                ChunkStep::Refused(e) => return Err(e),
                ChunkStep::Ask(r, ask) => r.step(match ask {
                    ChunkAsk::Bytes { at, len } => {
                        let data = self.read(v.path(), at, len as u64);
                        let hash = mix(&[&data]);
                        ChunkReply::Bytes { data, hash }
                    }
                    ChunkAsk::Open { suite: _, index, sealed, aad } => {
                        match unseal(key, &index.to_le_bytes(), &sealed, &aad) {
                            Ok(inner) => ChunkReply::Opened(inner),
                            Err(_) => ChunkReply::NotOpened { sealed },
                        }
                    }
                    ChunkAsk::Inflate { method, inner, len } => match unpack(method, &inner, len) {
                        Ok(b) => ChunkReply::Plain(b),
                        Err(e) => ChunkReply::Failed(e),
                    },
                }),
            }
        }
    }

    fn export(&mut self, v: &Vault<Key>, index: usize, dest: &str) -> Result<String, Error> {
        let mut x = v.export(index, &LIMITS)?;
        let key = subkey(v.master()?, &v.entries()[index].object_id);
        let mut out = Vec::new();
        while let Some(step) = v.next_chunk(&x, STORE, &LIMITS) {
            let plain = self.run_chunk(v, &key, step)?;
            out.extend_from_slice(&plain);
            x.add_written(plain.len())?;
        }
        v.finish_export(&x)?;
        let path = format!("{dest}/{}", x.path());
        self.write(&path, &out);
        Ok(path)
    }

    fn verify(&self, v: &Vault<Key>) -> Result<VerifyReport, Error> {
        let plain: u64 = v.entries().iter().map(|e| e.size).sum();
        let sealed: u64 =
            v.entries().iter().flat_map(|e| &e.chunks).map(|c| c.ciphertext_len as u64).sum();
        let mut report = v.verify(root_of(&v.recorded().entries), plain, sealed)?;
        for (e, entry) in v.entries().iter().enumerate() {
            let key = subkey(v.master()?, &entry.object_id);
            for i in 0..entry.chunks.len() {
                let step = v.read_chunk(e, i, STORE, &LIMITS).unwrap();
                report.record(self.run_chunk(v, &key, step).is_ok());
            }
        }
        Ok(report)
    }

    fn set_duress(
        &mut self,
        v: &mut Vault<Key>,
        real: &[u8],
        duress: &[u8],
        files: &[(&str, &str)],
    ) -> Result<(), Error> {
        let path = v.path().to_string();
        let sources = files
            .iter()
            .map(|(p, _)| Source { path: p.to_string(), is_file: self.files.contains_key(*p) })
            .collect();
        let plan = v.set_duress_password(real, duress, &sources, self.len(&path))?;
        let result = self.build_and_fold(v, duress, files, &plan);
        self.files.remove(&plan.scratch);
        result
    }

    fn build_and_fold(
        &mut self,
        v: &mut Vault<Key>,
        duress: &[u8],
        files: &[(&str, &str)],
        plan: &zerotrace::vault::duress::DuressPlan,
    ) -> Result<(), Error> {
        let path = v.path().to_string();
        let mut decoy = self.create(&plan.scratch, duress, &v.decoy_options(PASSWORD))?;
        for (src, name) in files {
            self.import(&mut decoy, src, name)?;
        }
        decoy.rebase(v.vault_id(), plan.shift)?;
        self.save(&mut decoy, None)?;
        let (salt, params) = v.duress_kek_request(&decoy);
        let nonce = self.random::<24>();
        let q = v.duress_wrap_request(&nonce);
        let wrapped = seal(&derive(duress, &salt, params), &q.nonce, &decoy.master()?.0, &q.aad);
        let folding = Folding { nonce, wrapped, scratch: self.files[&plan.scratch].clone() };
        let filler = self.random::<120>();
        let len = self.len(&path);
        let ops = v.fold_decoy(&decoy, plan, folding, len, &filler)?;
        self.change(&path, &ops);
        Ok(())
    }

    fn enroll(&mut self, v: &mut Vault<Key>) -> Result<(), Error> {
        v.can_enroll()?;
        let release = Key(self.random::<32>().to_vec());
        let nonce = self.random::<24>();
        let q = v.enroll_split(nonce)?;
        let wrapped = seal(&release, &q.nonce, &v.master()?.0.clone(), &q.aad);
        let bundle = v.finish_enroll(wrapped)?;
        let id = v.vault_id();
        self.write(&bundle, id.as_bytes());
        self.release = Some(release);
        let carried = self.read_exact(&v.path().to_string(), v.decoy_region(&LIMITS));
        self.save(v, carried)
    }
}

/// A vault holding one secret and one innocuous file behind a duress password.
fn prepared() -> Disk {
    let mut d = Disk::new();
    let mut v = d.create("v.azv", REAL, &options()).unwrap();
    d.write("merger.txt", b"the merger closes on the fourteenth");
    d.import(&mut v, "merger.txt", "merger.txt").unwrap();
    d.write("shopping.txt", b"milk, bread, a new drill bit");
    d.set_duress(&mut v, REAL, DURESS, &[("shopping.txt", "shopping.txt")]).unwrap();
    v.close();
    d
}

#[test]
fn the_real_password_opens_the_real_contents() {
    let mut d = prepared();
    let v = d.open("v.azv", REAL).unwrap();
    assert_eq!(v.opened_as(), Identity::Real);
    assert_eq!(v.entries().len(), 1);
    assert_eq!(v.entries()[0].path, "merger.txt");
}

#[test]
fn the_duress_password_shows_the_decoy_and_destroys_the_real_contents() {
    let mut d = prepared();

    // Under coercion: the decoy opens, looking like an ordinary vault.
    let v = d.open("v.azv", DURESS).unwrap();
    assert_eq!(v.opened_as(), Identity::Decoy);
    assert_eq!(v.entries().len(), 1);
    assert_eq!(v.entries()[0].path, "shopping.txt");
    let out = d.export(&v, 0, "out").unwrap();
    assert_eq!(d.files[&out], b"milk, bread, a new drill bit");
    v.close();

    // And the real contents are gone, permanently, to everyone.
    assert!(
        d.open("v.azv", REAL).is_err(),
        "the real password still opened the vault after duress"
    );
}

#[test]
fn the_decoy_keeps_working_after_it_has_fired() {
    let mut d = prepared();
    for round in 0..3 {
        let v = d.open("v.azv", DURESS).unwrap();
        assert_eq!(v.opened_as(), Identity::Decoy, "round {round}");
        assert_eq!(v.entries()[0].path, "shopping.txt");
        v.close();
    }
}

#[test]
fn a_vault_without_a_duress_password_is_indistinguishable() {
    let mut d = prepared();
    d.create("plain.azv", REAL, &options()).unwrap().close();

    let a = d.files["plain.azv"].clone();
    let b = d.files["v.azv"].clone();
    let block = HEADER_LEN..HEADER_LEN + DECOY_BLOCK_LEN;
    assert_eq!(a[block.clone()].len(), 256);
    assert_eq!(b[block.clone()].len(), 256);

    // Neither block is all zeroes, and neither is obviously structured.
    for (name, bytes) in [("no duress", &a[block.clone()]), ("duress", &b[block.clone()])] {
        assert!(bytes.iter().any(|&x| x != 0), "{name}: block is zeroed");
        let ones: u32 = bytes.iter().map(|x| x.count_ones()).sum();
        assert!((768..1280).contains(&ones), "{name}: {ones} bits set looks non-random");
    }

    // And a wrong password fails the same way on both.
    assert!(d.open("plain.azv", DURESS).is_err());
}

#[test]
fn a_wrong_password_destroys_nothing() {
    let mut d = prepared();
    let before = d.files["v.azv"].clone();

    for bad in [&b"not-the-password-at-all"[..], b"", b"winter-harbor-lantern-quie"] {
        assert!(d.open("v.azv", bad).is_err());
        assert_eq!(d.files["v.azv"], before);
    }
    // Both identities survive an attacker guessing.
    assert_eq!(d.open("v.azv", REAL).unwrap().entries().len(), 1);
    assert_eq!(d.open("v.azv", DURESS).unwrap().opened_as(), Identity::Decoy);
}

#[test]
fn the_container_does_not_shrink_when_duress_fires() {
    let mut d = prepared();
    let before = d.len("v.azv");
    d.open("v.azv", DURESS).unwrap().close();
    let after = d.len("v.azv");
    assert_eq!(before, after, "the container changed size when duress fired");
}

#[test]
fn a_duress_vault_needs_something_to_show() {
    let mut d = Disk::new();
    let mut v = d.create("v.azv", REAL, &options()).unwrap();
    let err = d.set_duress(&mut v, REAL, DURESS, &[]).unwrap_err();
    assert!(err.message().contains("something to show"), "{err:?}");
}

#[test]
fn a_duress_password_close_to_the_real_one_is_refused() {
    let mut d = Disk::new();
    let mut v = d.create("v.azv", REAL, &options()).unwrap();
    d.write("shopping.txt", b"milk");

    for near in [
        &b"correct-horse-battery-stapl"[..],
        b"correct-horse-battery-stap1e",
        b"correct-horse-battery-staple",
    ] {
        let err = d
            .set_duress(&mut v, REAL, near, &[("shopping.txt", "shopping.txt")])
            .unwrap_err();
        let msg = err.message();
        assert!(msg.contains("too close") || msg.contains("must be different"), "{msg}");
    }

    // A genuinely different phrase is accepted.
    assert!(d.set_duress(&mut v, REAL, DURESS, &[("shopping.txt", "shopping.txt")]).is_ok());
}

#[test]
fn duress_fires_wherever_a_password_is_accepted() {
    for op in ["list", "export", "verify"] {
        let mut d = prepared();
        let v = d.open("v.azv", DURESS).unwrap();
        assert_eq!(v.opened_as(), Identity::Decoy, "{op}");
        match op {
            "export" => {
                d.export(&v, 0, "out").unwrap();
            }
            "verify" => {
                assert!(d.verify(&v).unwrap().is_intact(), "{op}");
            }
            _ => {
                assert_eq!(v.entries().len(), 1, "{op}");
            }
        }
        v.close();

        assert!(
            d.open("v.azv", REAL).is_err(),
            "{op}: the real contents survived a duress open"
        );
    }
}

#[test]
fn a_failed_setup_leaves_no_trace_beside_the_vault() {
    let mut d = Disk::new();
    let mut v = d.create("v.azv", REAL, &options()).unwrap();
    assert!(d
        .set_duress(&mut v, REAL, DURESS, &[("does-not-exist.txt", "x.txt")])
        .is_err());
    let leftovers: Vec<&String> =
        d.files.keys().filter(|n| n.contains("decoy") || n.contains("build")).collect();
    assert!(leftovers.is_empty(), "left behind: {leftovers:?}");
}

#[test]
fn the_duress_password_meets_the_same_floor() {
    let mut d = Disk::new();
    let mut v = d.create("v.azv", REAL, &options()).unwrap();
    d.write("shopping.txt", b"milk");
    let before = d.files["v.azv"].clone();
    let err = d.set_duress(&mut v, REAL, b"short", &[("shopping.txt", "s")]).unwrap_err();
    assert!(err.message().starts_with("Too short: 5 characters"), "{err:?}");
    assert_eq!(d.files["v.azv"], before);
    // Told before there is a plan, and only once the pair is in order.
    let sources = vec![Source { path: "x".to_string(), is_file: true }];
    assert_eq!(v.set_duress_password(REAL, b"short", &sources, 600).unwrap_err(), err);
    assert!(v
        .set_duress_password(b"shorts", b"short", &sources, 600)
        .unwrap_err()
        .message()
        .contains("too close"));
    assert!(!d.files.contains_key("v.azv.decoy-build"));
}

#[test]
fn duress_overwrites_the_wrapped_key_and_nothing_else() {
    let mut d = prepared();
    let before = d.files["v.azv"].clone();
    d.open("v.azv", DURESS).unwrap();
    let after = d.files["v.azv"].clone();
    assert_eq!(before[..104], after[..104]);
    assert_ne!(before[104..152], after[104..152]);
    assert_eq!(before[152..], after[152..]);
    // The key goes before anything of the decoy is read.
    assert_eq!(
        d.asked,
        ["head", "unwrap", "head to write", "unwrap", "overwrite", "bytes", "bytes", "manifest"]
    );
}

#[test]
fn an_ordinary_open_never_goes_near_the_decoy() {
    let mut d = prepared();
    d.open("v.azv", REAL).unwrap();
    assert_eq!(d.asked, ["head", "unwrap", "bytes", "manifest"]);
}

#[test]
fn trying_duress_alone_reports_nothing_for_other_passwords() {
    let mut d = prepared();
    let first = Vault::try_duress_open("v.azv".to_string());
    assert!(d.run("v.azv", REAL, first).unwrap().is_none());
    let first = Vault::try_duress_open("v.azv".to_string());
    let v = d.run("v.azv", DURESS, first).unwrap().unwrap();
    assert_eq!(v.opened_as(), Identity::Decoy);
    // A file with no room for the block has no duress identity.
    d.write("short", &[0; 300]);
    let first = Vault::try_duress_open("short".to_string());
    assert!(d.run("short", DURESS, first).unwrap().is_none());
}

#[test]
fn a_key_that_does_not_read_back_stops_the_open() {
    let mut d = prepared();
    let mut step = Vault::<Key>::open("v.azv".to_string());
    let mut hw = None;
    let mut rereads = 0;
    let e = loop {
        step = match step {
            Step::Ask(o, Ask::Bytes { at: 104, len: 48 }) => {
                rereads += 1;
                o.step(Reply::Bytes(vec![0; 48]))
            }
            Step::Ask(o, ask) => o.step(d.answer("v.azv", DURESS, &mut hw, ask)),
            Step::Refused(e) => break e,
            _ => panic!("opened"),
        };
    };
    assert_eq!(rereads, 1);
    assert_eq!(e, Error::Other("the vault could not be opened".to_string()));
}

#[test]
fn importing_later_keeps_both_identities() {
    let mut d = prepared();
    let mut v = d.open("v.azv", REAL).unwrap();
    // Long enough to run over where the decoy lay.
    let big: Vec<u8> = (0..5000u32).map(|i| (i * 7) as u8).collect();
    d.write("big", &big);
    d.import(&mut v, "big", "big").unwrap();

    let v = d.open("v.azv", REAL).unwrap();
    assert_eq!(v.entries().len(), 2);
    assert!(d.verify(&v).unwrap().is_intact());
    let v = d.open("v.azv", DURESS).unwrap();
    assert_eq!(v.opened_as(), Identity::Decoy);
    assert_eq!(v.entries()[0].path, "shopping.txt");
    let out = d.export(&v, 0, "out").unwrap();
    assert_eq!(d.files[&out], b"milk, bread, a new drill bit");
    assert!(d.verify(&v).unwrap().is_intact());
}

#[test]
fn a_decoy_is_carried_along_by_every_save() {
    let mut d = Disk::new();
    let mut v = d.create("v.azv", REAL, &options()).unwrap();
    let long: Vec<u8> = (0..CHUNK_SIZE + 99).map(|i| (i % 253) as u8).collect();
    d.write("nothing", b"");
    d.write("long", &long);
    d.write("short", b"milk");
    d.set_duress(&mut v, REAL, DURESS, &[("nothing", "a"), ("long", "b/c"), ("short", "d")]).unwrap();
    d.write("secret", b"the merger closes on the fourteenth");
    let mut ends = Vec::new();
    for i in 0..3 {
        d.import(&mut v, "secret", &format!("secret{i}")).unwrap();
        // On a copy, since opening the decoy destroys the real key.
        let c = d.files["v.azv"].clone();
        d.write("copy.azv", &c);
        let w = d.open("copy.azv", DURESS).unwrap();
        assert_eq!(w.opened_as(), Identity::Decoy, "after {i}");
        assert!(d.verify(&w).unwrap().is_intact(), "after {i}");
        for (at, body) in [&b""[..], &long[..], b"milk"].iter().enumerate() {
            let out = d.export(&w, at, "out").unwrap();
            assert_eq!(&d.files[&out][..], *body, "after {i}");
        }
        // The chunks lie where the region does, one behind the other.
        let (start, _) = w.decoy_region(&LIMITS).unwrap();
        assert_eq!(w.entries()[1].chunks[0].offset, start);
        // What was sealed still speaks of where they lay at first.
        let sealed = w.recorded();
        assert_eq!(sealed.integrity_root, root_of(&sealed.entries));
        assert_ne!(sealed.entries[1].chunks[0].offset, start);
        ends.push((start, sealed.entries[1].chunks[0].offset));
    }
    assert!(ends[0].0 < ends[1].0 && ends[1].0 < ends[2].0);
    assert!(ends[0].1 == ends[1].1 && ends[1].1 == ends[2].1);
    // And it outlives the save that comes with a split key.
    d.enroll(&mut v).unwrap();
    let w = d.open("v.azv", DURESS).unwrap();
    assert!(d.verify(&w).unwrap().is_intact());
}

#[test]
fn the_decoy_is_shown_as_it_was_installed() {
    let mut d = prepared();
    let mut v = d.open("v.azv", DURESS).unwrap();
    // Importing through the decoy's own handle works, and leaves no trace in
    // what the duress password shows next.
    d.write("more", b"bread");
    d.import(&mut v, "more", "more").unwrap();
    assert_eq!(v.entries().len(), 2);
    let out = d.export(&v, 1, "out").unwrap();
    assert_eq!(d.files[&out], b"bread");
    for _ in 0..2 {
        let w = d.open("v.azv", DURESS).unwrap();
        assert_eq!(w.opened_as(), Identity::Decoy);
        assert_eq!(w.entries().len(), 1);
        let out = d.export(&w, 0, "out").unwrap();
        assert_eq!(d.files[&out], b"milk, bread, a new drill bit");
        assert!(d.verify(&w).unwrap().is_intact());
    }
}

#[test]
fn before_format_three_a_duress_password_is_never_found() {
    let mut d = Disk::new();
    let mut v = d.create("v.azv", REAL, &options()).unwrap();
    d.write("merger.txt", b"the merger closes on the fourteenth");
    d.import(&mut v, "merger.txt", "merger.txt").unwrap();
    // The same vault as format 2, its key wrapped for that.
    let mut c = d.files["v.azv"].clone();
    c[8] = 2;
    let h = Header::from_bytes(&c[..512], judge(probe(&c).unwrap())).unwrap();
    assert_eq!((h.format_version, h.data_start()), (2, 256));
    let kek = derive(REAL, &h.kdf_salt, h.kdf_params);
    let wrapped = seal(&kek, &h.master_key_nonce[..12], &v.master().unwrap().0, &h.aad());
    c[104..152].copy_from_slice(&wrapped);
    d.write("v.azv", &c);

    let mut v = d.open("v.azv", REAL).unwrap();
    assert_eq!(v.format_version(), 2);
    d.write("shopping.txt", b"milk");
    d.set_duress(&mut v, REAL, DURESS, &[("shopping.txt", "shopping.txt")]).unwrap();
    // The slot lies behind the header, over whatever was there, and the decoy
    // at the end.
    let after = d.files["v.azv"].clone();
    assert!(after.len() > c.len());
    assert_eq!(after[..256], c[..256]);
    assert_ne!(after[256..512], c[256..512]);
    assert_eq!(after[512..c.len()], c[512..]);
    // It is not looked for.
    assert_eq!(d.open("v.azv", DURESS).err(), Some(Error::AuthenticationFailed));
    assert_eq!(d.files["v.azv"], after);
    assert_eq!(d.open("v.azv", REAL).unwrap().entries().len(), 1);
}

#[test]
fn an_older_record_put_back_is_refused() {
    let mut d = Disk::new();
    let mut v = d.create("v.azv", REAL, &options()).unwrap();
    let base = d.files["v.azv"].clone();
    d.write("one", b"1111");
    d.write("two", b"2222");
    let mut w = d.open("v.azv", REAL).unwrap();
    d.import(&mut w, "one", "f").unwrap();
    assert_eq!(w.manifest().generation, 2);
    let older = d.files["v.azv"].clone();

    d.write("v.azv", &base);
    d.save(&mut v, None).unwrap();
    d.import(&mut v, "two", "f").unwrap();
    assert_eq!(v.manifest().generation, 3);
    let newer = d.files["v.azv"].clone();
    assert_eq!(older.len(), newer.len());

    // The record begins behind the one chunk.
    let at = 512 + v.entries()[0].chunks[0].ciphertext_len as usize;
    let mut c = newer.clone();
    c[at..].copy_from_slice(&older[at..]);
    d.write("v.azv", &c);
    assert_eq!(
        d.open("v.azv", REAL).err(),
        Some(Error::Integrity(
            "the header's integrity root does not match the manifest".to_string()
        ))
    );
    assert_eq!(d.files["v.azv"], c);
    d.write("v.azv", &newer);
    assert_eq!(d.open("v.azv", REAL).unwrap().manifest().generation, 3);
}

#[test]
fn chunks_slide_together() {
    let chunk = |offset: u64| ChunkRef { offset, ciphertext_len: 5, plaintext_len: 4, hash: [7; 32] };
    let entry = |path: &str, chunks: Vec<ChunkRef>| Entry {
        object_id: [1; 16],
        path: path.to_string(),
        size: 4,
        mtime: 9,
        compress_suite: STORE,
        chunks,
    };
    let mut m = Manifest {
        entries: vec![
            entry("empty", vec![]),
            entry("a", vec![chunk(600), chunk(605)]),
            entry("b", vec![chunk(512)]),
        ],
        generation: 4,
        integrity_root: [3; 32],
    };
    let same = m.copy();
    assert_eq!(same, m);
    // Measured from the first chunk that is recorded.
    assert_eq!(m.lag(1000), 400);
    assert_eq!(m.lag(599), u64::MAX);
    assert_eq!(Manifest::empty().lag(1000), 0);
    m.slide(m.lag(1000));
    let at: Vec<u64> = m.entries.iter().flat_map(|e| &e.chunks).map(|c| c.offset).collect();
    assert_eq!(at, [1000, 1005, 912]);
    m.slide(m.lag(600));
    assert_eq!(m, same);
}

#[test]
fn what_is_imported_can_be_exported() {
    let mut d = Disk::new();
    let mut v = d.create("v.azv", REAL, &options()).unwrap();
    let mixed: Vec<u8> = (0..CHUNK_SIZE + 10)
        .map(|i| if i < CHUNK_SIZE { 9 } else { (i % 251) as u8 })
        .collect();
    let full = vec![1u8; CHUNK_SIZE];
    d.write("mixed", &mixed);
    d.write("full", &full);
    d.write("empty", b"");
    d.import(&mut v, "mixed", "dir/mixed.bin").unwrap();
    d.import(&mut v, "full", "full").unwrap();
    d.import(&mut v, "empty", "empty").unwrap();

    let v = d.open("v.azv", REAL).unwrap();
    let e = v.entries();
    assert_eq!(e.len(), 3);
    assert_eq!((e[0].size, e[0].chunks.len(), e[0].mtime), (mixed.len() as u64, 2, 77));
    assert_eq!((e[1].size, e[1].chunks.len()), (CHUNK_SIZE as u64, 1));
    assert_eq!((e[2].size, e[2].chunks.len()), (0, 0));
    assert_eq!(e[0].compress_suite, PACKED);
    assert_eq!(e[2].compress_suite, STORE);
    // Chunks lie back to back.
    assert_eq!(e[0].chunks[0].offset, 512);
    assert_eq!(e[0].chunks[1].offset, 512 + e[0].chunks[0].ciphertext_len as u64);
    assert_eq!(e[1].chunks[0].offset, e[0].chunks[1].offset + e[0].chunks[1].ciphertext_len as u64);

    let out = d.export(&v, 0, "out").unwrap();
    assert_eq!(out, "out/dir/mixed.bin");
    assert_eq!(d.files[&out], mixed);
    let out = d.export(&v, 1, "out").unwrap();
    assert_eq!(d.files[&out], full);
    let out = d.export(&v, 2, "out").unwrap();
    assert!(d.files[&out].is_empty());
    let r = d.verify(&v).unwrap();
    assert!(r.is_intact());
    assert_eq!((r.chunks_checked, r.chunks_failed, r.entries), (3, 0, 3));
    assert_eq!(r.plaintext_bytes, (mixed.len() + full.len()) as u64);
}

#[test]
fn damage_is_found_and_not_exported() {
    let mut d = prepared();
    let v = d.open("v.azv", REAL).unwrap();
    let at = v.entries()[0].chunks[0].offset as usize;
    d.files.get_mut("v.azv").unwrap()[at] ^= 1;
    assert_eq!(
        d.export(&v, 0, "out").unwrap_err(),
        Error::Integrity("chunk 0 does not match its recorded hash".to_string())
    );
    let r = d.verify(&v).unwrap();
    assert_eq!((r.chunks_checked, r.chunks_failed), (1, 1));
    assert!(!r.is_intact());
    assert_eq!(r.integrity_root_matches, Assurance::Verified);

    // A container that ends too soon.
    d.files.get_mut("v.azv").unwrap().truncate(at + 3);
    assert_eq!(
        d.export(&v, 0, "out").unwrap_err(),
        Error::Integrity("vault is truncated".to_string())
    );
}

#[test]
fn a_report_tells_when_the_roots_disagree() {
    let mut d = prepared();
    let v = d.open("v.azv", REAL).unwrap();
    let r = v.verify([0; 32], 0, 0).unwrap();
    assert_eq!(r.integrity_root_matches, Assurance::Failed);
    assert!(!r.is_intact());
}

#[test]
fn a_locked_vault_does_nothing() {
    let mut d = Disk::new();
    let mut v = d.create("v.azv", REAL, &options()).unwrap();
    d.write("f", b"x");
    assert!(v.is_unlocked());
    v.lock();
    assert!(!v.is_unlocked());
    assert_eq!(v.master().unwrap_err(), Error::Locked);
    assert_eq!(v.begin_save([0; 32]).unwrap_err(), Error::Locked);
    assert_eq!(v.export(0, &LIMITS).unwrap_err(), Error::Locked);
    assert_eq!(v.verify([0; 32], 0, 0).unwrap_err(), Error::Locked);
    assert_eq!(v.can_enroll().unwrap_err(), Error::Locked);
    assert_eq!(d.import(&mut v, "f", "f").unwrap_err(), Error::Locked);
}

#[test]
fn an_import_is_checked_before_anything_is_written() {
    let mut d = Disk::new();
    let mut v = d.create("v.azv", REAL, &options()).unwrap();
    let before = d.files["v.azv"].clone();
    d.write("f", b"x");
    assert_eq!(
        d.import(&mut v, "nowhere", "f").unwrap_err(),
        Error::Other("nowhere is not a file".to_string())
    );
    assert_eq!(
        d.import(&mut v, "f", "../f").unwrap_err(),
        Error::Format("unsafe path in vault: ../f".to_string())
    );
    assert_eq!(d.files["v.azv"], before);
    for i in 0..LIMITS.max_entries {
        d.import(&mut v, "f", &format!("f{i}")).unwrap();
    }
    assert_eq!(
        d.import(&mut v, "f", "one-more").unwrap_err(),
        Error::LimitExceeded("vault holds too many entries".to_string())
    );
}

#[test]
fn a_chunk_that_is_too_large_is_refused() {
    let mut d = Disk::new();
    let v = d.create("v.azv", REAL, &options()).unwrap();
    let small = Limits { max_chunk_ciphertext: 3, ..LIMITS };
    let mut im = v.import("f", true, "f", [1; 16], &small).unwrap();
    assert!(im.wants_more());
    assert_eq!(
        im.add_chunk(1, vec![0; 4], [0; 32], &small).unwrap_err(),
        Error::LimitExceeded("chunk ciphertext is too large".to_string())
    );
    assert_eq!(im.index(), 0);
    assert_eq!(
        im.add_chunk(1, vec![5, 6, 7], [0; 32], &small).unwrap(),
        Op::Write { at: 512, data: vec![5, 6, 7] }
    );
    assert!(!im.wants_more());
    assert_eq!((im.index(), im.total()), (1, 1));
}

#[test]
fn a_manifest_that_is_too_large_is_refused() {
    let mut d = Disk::new();
    let mut v = d.create("v.azv", REAL, &options()).unwrap();
    let small = Limits { max_manifest_bytes: 50, ..LIMITS };
    v.begin_save([0; 32]).unwrap();
    assert_eq!(
        v.finish_save([0; 24], 1, vec![0; 11], None, &[0; 120], &small).unwrap_err(),
        Error::LimitExceeded("manifest is too large".to_string())
    );
    let ops = v.finish_save([0; 24], 1, vec![0; 10], None, &[0; 120], &small).unwrap();
    assert_eq!(ops.len(), 3);
    assert_eq!(ops[1], Op::SetLen(512 + 50));
}

#[test]
fn every_save_is_a_new_generation() {
    let mut d = Disk::new();
    let mut v = d.create("v.azv", REAL, &options()).unwrap();
    assert_eq!(v.manifest().generation, 1);
    let old = d.files["v.azv"].clone();
    d.save(&mut v, None).unwrap();
    assert_eq!(v.manifest().generation, 2);

    // Writing the old generation number beside the new manifest breaks it.
    let mut c = d.files["v.azv"].clone();
    c[512 + 32] = 1;
    d.write("spliced.azv", &c);
    assert_eq!(d.open("spliced.azv", REAL).err(), Some(Error::AuthenticationFailed));
    // The old container as a whole is still itself.
    d.write("old.azv", &old);
    assert_eq!(d.open("old.azv", REAL).unwrap().manifest().generation, 1);
}

#[test]
fn tampering_with_the_header_breaks_the_open() {
    let d = prepared();
    for at in [36, 45, 50, 205, 240] {
        let mut e = Disk::new();
        e.files = d.files.clone();
        e.files.get_mut("v.azv").unwrap()[at] ^= 1;
        assert_eq!(e.open("v.azv", REAL).err(), Some(Error::AuthenticationFailed), "byte {at}");
    }
    // The root is outside the authenticated part, and checked against the
    // manifest.
    let mut e = Disk::new();
    e.files = d.files.clone();
    e.files.get_mut("v.azv").unwrap()[170] ^= 1;
    assert_eq!(
        e.open("v.azv", REAL).err(),
        Some(Error::Integrity("the header's integrity root does not match the manifest".to_string()))
    );
}

#[test]
fn a_truncated_container_is_refused() {
    let d = prepared();
    let mut e = Disk::new();
    e.files = d.files.clone();
    e.files.get_mut("v.azv").unwrap().truncate(100);
    assert_eq!(
        e.open("v.azv", REAL).err(),
        Some(Error::Format("file is too short to be an AZV vault".to_string()))
    );
    let mut e = Disk::new();
    e.files = d.files.clone();
    e.files.get_mut("v.azv").unwrap().truncate(520);
    assert_eq!(
        e.open("v.azv", REAL).err(),
        Some(Error::Format("vault is truncated at the manifest".to_string()))
    );
    // A record that says it is shorter than any record.
    let mut e = Disk::new();
    e.files = d.files.clone();
    e.files.get_mut("v.azv").unwrap()[160..168].copy_from_slice(&31u64.to_le_bytes());
    assert_eq!(
        e.open("v.azv", REAL).err(),
        Some(Error::Format("manifest record is too short".to_string()))
    );
    let mut e = Disk::new();
    e.files = d.files.clone();
    e.files.get_mut("v.azv").unwrap()[160..168].copy_from_slice(&35u64.to_le_bytes());
    assert_eq!(
        e.open("v.azv", REAL).err(),
        Some(Error::Format("manifest region is too small".to_string()))
    );
}

#[test]
fn creation_is_refused_for_each_reason() {
    let mut d = Disk::new();
    let noise = Noise {
        kdf_salt: [1; 32],
        master_key_nonce: [2; 24],
        prf_salt: [3; 32],
        vault_id: [4; 16],
        decoy: [5; 256],
    };
    let e = |s: &str| Error::Other(s.to_string());
    let make = |exists: bool, pw: &[u8], kdf, factors, kind, hw: bool| {
        let mut o = options();
        if hw {
            o.factors = WITH_FIDO;
        }
        Vault::<Key>::create_with("p".to_string(), exists, pw, &o, kdf, factors, kind, &noise).err()
    };
    assert_eq!(make(true, b"x", Err(e("kdf")), Err(e("factors")), None, true), Some(e("kdf")));
    assert_eq!(make(true, b"x", Ok(()), Err(e("factors")), None, true), Some(e("factors")));
    assert!(make(true, b"x", Ok(()), Ok(()), None, true).unwrap().message().starts_with("Too short"));
    assert_eq!(make(true, REAL, Ok(()), Ok(()), None, true), Some(e("p already exists")));
    assert_eq!(
        make(false, REAL, Ok(()), Ok(()), None, true),
        Some(Error::NotImplemented(
            "this vault requires a FIDO2 factor but no authenticator was supplied".to_string()
        ))
    );
    assert_eq!(
        make(false, REAL, Ok(()), Ok(()), Some(AuthenticatorKind::Other), true),
        Some(e("authenticator is of the wrong kind"))
    );
    assert_eq!(make(false, REAL, Ok(()), Ok(()), Some(AuthenticatorKind::Other), false), None);
    let c = Vault::<Key>::create("p".to_string(), false, REAL, &options(), Ok(()), Ok(()), &noise)
        .unwrap();
    assert_eq!(
        c.finish(Key(vec![]), vec![0; 47]).err(),
        Some(Error::Crypto("unexpected wrapped key length".to_string()))
    );
    d.create("v.azv", REAL, &options()).unwrap();
    assert_eq!(
        d.create("v.azv", REAL, &options()).err(),
        Some(e("v.azv already exists"))
    );
}

#[test]
fn a_password_need_not_be_valid_text() {
    let mut d = Disk::new();
    let mut odd = b"correct-horse-battery-".to_vec();
    odd.extend_from_slice(&[0xFF, 0xFE]);
    let v = d.create("v.azv", &odd, &options()).unwrap();
    v.close();
    assert!(d.open("v.azv", &odd).is_ok());
    // Bytes that are not valid are counted as replacement characters, not
    // dropped and not taken as they are.
    let noise = Noise {
        kdf_salt: [1; 32],
        master_key_nonce: [2; 24],
        prf_salt: [3; 32],
        vault_id: [4; 16],
        decoy: [5; 256],
    };
    let e = Vault::<Key>::create(
        "p".to_string(),
        false,
        "ééé".as_bytes(),
        &options(),
        Ok(()),
        Ok(()),
        &noise,
    )
    .err()
    .unwrap();
    assert!(e.message().starts_with("Too short: 3 characters"), "{e:?}");
}

#[test]
fn a_hardware_factor_is_never_optional() {
    let mut d = Disk::new();
    d.token = Some(b"token".to_vec());
    let mut o = options();
    o.factors = WITH_FIDO;
    let v = d.create("v.azv", REAL, &o).unwrap();
    assert_eq!(v.factors(), WITH_FIDO);
    v.close();
    assert!(d.open("v.azv", REAL).is_ok());
    // Another token does not do.
    d.token = Some(b"other".to_vec());
    assert_eq!(d.open("v.azv", REAL).err(), Some(Error::AuthenticationFailed));
    // And without one the vault is refused.
    d.token = None;
    assert!(matches!(d.open("v.azv", REAL), Err(Error::NotImplemented(_))));
}

#[test]
fn a_split_vault_opens_with_its_components_alone() {
    let mut d = prepared();
    let mut v = d.open("v.azv", REAL).unwrap();
    let wrapped = d.read("v.azv", 104, WRAPPED_KEY_LEN as u64);
    // Not split protected yet.
    let first = Vault::open_with_components("v.azv".to_string());
    assert_eq!(
        d.run("v.azv", b"", first).err(),
        Some(Error::Other("this vault is not split protected; open it with a password".to_string()))
    );
    d.enroll(&mut v).unwrap();
    assert!(v.is_split_protected());
    assert_ne!(d.read("v.azv", 104, WRAPPED_KEY_LEN as u64), wrapped);
    assert_eq!(
        d.enroll(&mut v).unwrap_err(),
        Error::Other("this vault is already split protected".to_string())
    );

    // The password alone no longer opens it.
    let e = d.open("v.azv", REAL).err().unwrap();
    assert!(e.message().contains("protected by split keys"), "{e:?}");
    // The components do.
    let first = Vault::open_with_components("v.azv".to_string());
    let w = d.run("v.azv", b"", first).unwrap().unwrap();
    assert_eq!(w.entries()[0].path, "merger.txt");

    // Another vault's bundle, and none.
    d.write("v.azv.split", &[0; 16]);
    let first = Vault::open_with_components("v.azv".to_string());
    assert_eq!(
        d.run("v.azv", b"", first).err(),
        Some(Error::Integrity("the split bundle belongs to a different vault".to_string()))
    );
    d.files.remove("v.azv.split");
    let first = Vault::open_with_components("v.azv".to_string());
    let e = d.run("v.azv", b"", first).err().unwrap();
    assert!(e.message().starts_with("the split bundle v.azv.split is missing."), "{e:?}");
}

#[test]
fn duress_works_on_a_split_vault_from_a_password_alone() {
    let mut d = Disk::new();
    let mut v = d.create("v.azv", REAL, &options()).unwrap();
    d.enroll(&mut v).unwrap();
    d.write("shopping.txt", b"milk");
    d.set_duress(&mut v, REAL, DURESS, &[("shopping.txt", "shopping.txt")]).unwrap();
    let w = d.open("v.azv", DURESS).unwrap();
    assert_eq!(w.opened_as(), Identity::Decoy);
    // And the components no longer open the real contents.
    let first = Vault::open_with_components("v.azv".to_string());
    assert_eq!(d.run("v.azv", b"", first).err(), Some(Error::AuthenticationFailed));
}

#[test]
fn a_decoy_handle_cannot_install_a_duress_password() {
    let mut d = prepared();
    let mut v = d.open("v.azv", DURESS).unwrap();
    assert_eq!(
        d.set_duress(&mut v, DURESS, REAL, &[("shopping.txt", "s")]).unwrap_err(),
        Error::Other("this handle is not the real vault".to_string())
    );
}

#[test]
fn folding_is_refused_for_each_reason() {
    let mut d = Disk::new();
    let mut v = d.create("v.azv", REAL, &options()).unwrap();
    let decoy = d.create("s", DURESS, &options()).unwrap();
    let sources = vec![Source { path: "x".to_string(), is_file: true }];
    let plan = v.set_duress_password(REAL, DURESS, &sources, d.len("v.azv")).unwrap();
    assert_eq!(plan.scratch, "v.azv.decoy-build");
    assert_eq!(plan.shift, plan.append_at - 512);
    let mut fold = |wrapped: usize, scratch: usize, len: u64| {
        let f = Folding { nonce: [0; 24], wrapped: vec![0; wrapped], scratch: vec![0; scratch] };
        v.fold_decoy(&decoy, &plan, f, len, &[0; 120])
    };
    let now = plan.append_at;
    assert_eq!(
        fold(47, 600, now).unwrap_err(),
        Error::Crypto("unexpected wrapped key length".to_string())
    );
    assert_eq!(
        fold(48, 512, now).unwrap_err(),
        Error::Other("the decoy vault is empty".to_string())
    );
    assert_eq!(
        fold(48, 600, now + 1).unwrap_err(),
        Error::Other("the vault changed while the duress contents were being prepared".to_string())
    );
    let ops = fold(48, 600, now).unwrap();
    assert_eq!(ops.len(), 2);
    assert_eq!(ops[0], Op::Write { at: now, data: vec![0; 88] });
}

#[test]
fn a_container_of_an_impossible_length_is_told_last() {
    let mut d = Disk::new();
    let v = d.create("v.azv", REAL, &options()).unwrap();
    let sources = vec![Source { path: "x".to_string(), is_file: true }];
    let plan = |duress: &[u8], len: u64| v.set_duress_password(REAL, duress, &sources, len);
    for len in [0, 511] {
        assert_eq!(
            plan(DURESS, len).unwrap_err(),
            Error::Format("file is too short to be an AZV vault".to_string())
        );
    }
    for len in [1 << 63, u64::MAX] {
        assert_eq!(
            plan(DURESS, len).unwrap_err(),
            Error::Io("the position is beyond the end of any file".to_string())
        );
    }
    assert_eq!(plan(DURESS, 512).unwrap().shift, 0);
    assert_eq!(plan(DURESS, (1 << 63) - 1).unwrap().append_at, (1 << 63) - 1);
    // Whatever the length, the other refusals come first.
    assert!(plan(REAL, 0).unwrap_err().message().contains("must be different"));
    assert_eq!(
        v.set_duress_password(REAL, DURESS, &Vec::new(), 0).unwrap_err(),
        v.set_duress_password(REAL, DURESS, &Vec::new(), 600).unwrap_err()
    );
}

#[test]
fn passwords_are_compared_as_text() {
    assert!(check_pair("correct-horse-battery-staple", "winter-harbor-lantern-quiet").is_ok());
    assert_eq!(
        check_pair("same", "same").unwrap_err(),
        Error::Other("the duress password must be different from the real one".to_string())
    );
    assert!(check_pair("abcdef", "abcdeg").unwrap_err().message().contains("too close"));
    // Invalid bytes become the same replacement character, so these two
    // passwords are the same text.
    let mut d = Disk::new();
    let v = d.create("v.azv", REAL, &options()).unwrap();
    let sources = vec![Source { path: "x".to_string(), is_file: true }];
    assert_eq!(
        v.set_duress_password(&[b'a', 0xFF], &[b'a', 0xFE], &sources, 600).unwrap_err(),
        Error::Other("the duress password must be different from the real one".to_string())
    );
}

#[test]
fn a_missing_decoy_file_is_named() {
    let mut d = Disk::new();
    let mut v = d.create("v.azv", REAL, &options()).unwrap();
    d.write("there", b"x");
    let e = d
        .set_duress(&mut v, REAL, DURESS, &[("there", "a"), ("gone", "b"), ("also-gone", "c")])
        .unwrap_err();
    assert_eq!(
        e,
        Error::Other(
            "gone is not a file that exists. Choose files already on this computer for the duress \
             password to show"
                .to_string()
        )
    );
}

#[test]
fn a_decoy_is_rebased_before_it_is_folded_in() {
    let mut d = Disk::new();
    let mut v = d.create("v.azv", REAL, &options()).unwrap();
    d.write("f", b"x");
    d.import(&mut v, "f", "f").unwrap();
    let at = v.entries()[0].chunks[0].offset;
    assert_eq!(
        v.rebase(VaultId::from_bytes([1; 16]), u64::MAX).unwrap_err(),
        Error::Io("the position is beyond the end of any file".to_string())
    );
    assert_eq!(v.entries()[0].chunks[0].offset, at);
    v.rebase(VaultId::from_bytes([1; 16]), 1000).unwrap();
    assert_eq!(v.entries()[0].chunks[0].offset, at + 1000);
    assert_eq!(v.vault_id(), VaultId::from_bytes([1; 16]));
}

#[test]
fn a_size_that_does_not_match_is_reported() {
    let mut d = prepared();
    let v = d.open("v.azv", REAL).unwrap();
    let mut x = v.export(0, &LIMITS).unwrap();
    assert_eq!(x.part_path(), "merger.txt.zt-part");
    let wrong = Error::Integrity("exported size does not match the manifest".to_string());
    assert_eq!(v.finish_export(&x).unwrap_err(), wrong);
    x.add_written(35).unwrap();
    assert_eq!(x.written(), 35);
    assert!(v.finish_export(&x).is_ok());
    assert!(v.next_chunk(&x, STORE, &LIMITS).is_none());
    assert_eq!(
        v.export(1, &LIMITS).unwrap_err(),
        Error::Other("entry index out of range".to_string())
    );
}

#[test]
fn an_export_ends_only_after_every_chunk() {
    let mut d = Disk::new();
    let mut v = d.create("v.azv", REAL, &options()).unwrap();
    d.write("long", &vec![5u8; CHUNK_SIZE + 3]);
    d.import(&mut v, "long", "long").unwrap();
    let wrong = Error::Integrity("exported size does not match the manifest".to_string());
    let mut x = v.export(0, &LIMITS).unwrap();
    // All the bytes, but only one of the two chunks.
    x.add_written(CHUNK_SIZE + 3).unwrap();
    assert_eq!(v.finish_export(&x).unwrap_err(), wrong);
    x.add_written(0).unwrap();
    assert!(v.finish_export(&x).is_ok());
    x.add_written(1).unwrap();
    assert_eq!(v.finish_export(&x).unwrap_err(), wrong);
}

#[test]
fn a_chunk_reader_asks_in_order() {
    let mut d = prepared();
    let v = d.open("v.azv", REAL).unwrap();
    // A limit below the chunk.
    let small = Limits { max_chunk_ciphertext: 1, ..LIMITS };
    assert!(matches!(
        v.read_chunk(0, 0, STORE, &small),
        Some(ChunkStep::Refused(Error::LimitExceeded(_)))
    ));
    assert!(v.read_chunk(0, 1, STORE, &LIMITS).is_none());
    assert!(v.read_chunk(1, 0, STORE, &LIMITS).is_none());

    // Neither attempt opens.
    let Some(ChunkStep::Ask(r, ChunkAsk::Bytes { at, len })) = v.read_chunk(0, 0, STORE, &LIMITS)
    else {
        panic!("no question");
    };
    let data = d.read("v.azv", at, len as u64);
    let hash = mix(&[&data]);
    let ChunkStep::Ask(r, ChunkAsk::Open { sealed, aad, .. }) =
        r.step(ChunkReply::Bytes { data, hash })
    else {
        panic!("not opened");
    };
    assert_eq!(aad[28..], [1, 0]);
    let ChunkStep::Ask(r, ChunkAsk::Open { sealed, aad, .. }) =
        r.step(ChunkReply::NotOpened { sealed })
    else {
        panic!("not tried again");
    };
    assert_eq!(aad[28..], [0, 0]);
    assert!(matches!(
        r.step(ChunkReply::NotOpened { sealed }),
        ChunkStep::Refused(Error::AuthenticationFailed)
    ));
}

#[test]
fn a_reply_to_another_question_is_refused() {
    let Step::Ask(o, Ask::Head { writable: false }) = Vault::<Key>::open("v".to_string()) else {
        panic!("no question");
    };
    let o: Opener<Key> = o;
    assert!(matches!(o.step(Reply::Written), Step::Refused(Error::Other(_))));
}

#[test]
fn an_empty_manifest_still_has_to_add_up() {
    let mut d = prepared();
    let mut c = d.files["v.azv"].clone();
    c[160..168].copy_from_slice(&0u64.to_le_bytes());
    c[168..200].copy_from_slice(&[0; 32]);
    d.write("v.azv", &c);
    assert_eq!(
        d.open("v.azv", REAL).err(),
        Some(Error::Integrity("manifest integrity root is inconsistent".to_string()))
    );
}

#[test]
fn a_vault_tells_what_it_is() {
    let mut d = Disk::new();
    let v = d.create("v.azv", REAL, &options()).unwrap();
    assert_eq!(v.path(), "v.azv");
    assert_eq!(v.crypto_suite(), CIPHER);
    assert_eq!(v.compress_suite(), PACKED);
    assert_eq!(v.kdf_params(), options().kdf_params);
    assert_eq!(v.format_version(), 3);
    assert_eq!(v.factors(), PASSWORD);
    assert!(!v.is_split_protected());
    assert_eq!(v.opened_as(), Identity::Real);
    assert_eq!(v.decoy_options(PASSWORD), options());
}

#[test]
fn a_hostile_manifest_cannot_export_outside_the_directory() {
    let mut d = prepared();
    let mut step = Vault::<Key>::open("v.azv".to_string());
    let mut hw = None;
    let v = loop {
        step = match step {
            Step::Ask(o, ask) => {
                let mut reply = d.answer("v.azv", REAL, &mut hw, ask);
                if let Reply::Manifest { manifest, root, .. } = &mut reply {
                    manifest.entries[0].path = "../../etc/passwd".to_string();
                    *root = manifest.integrity_root;
                }
                o.step(reply)
            }
            Step::Opened(v) => break v,
            _ => panic!("not opened"),
        };
    };
    assert_eq!(v.entries()[0].path, "../../etc/passwd");
    assert_eq!(
        d.export(&v, 0, "out").unwrap_err(),
        Error::Format("unsafe path in vault: ../../etc/passwd".to_string())
    );
}

#[test]
fn a_hardware_vault_is_refused_before_duress_is_tried() {
    let mut d = Disk::new();
    d.token = Some(b"token".to_vec());
    let mut o = options();
    o.factors = WITH_FIDO;
    let mut v = d.create("v.azv", REAL, &o).unwrap();
    d.write("shopping.txt", b"milk");
    d.set_duress(&mut v, REAL, DURESS, &[("shopping.txt", "shopping.txt")]).unwrap();
    let before = d.files["v.azv"].clone();
    d.token = None;
    assert!(matches!(d.open("v.azv", DURESS), Err(Error::NotImplemented(_))));
    assert_eq!(d.files["v.azv"], before);
    // With any token at hand the duress password works.
    d.token = Some(b"other".to_vec());
    assert_eq!(d.open("v.azv", DURESS).unwrap().opened_as(), Identity::Decoy);
}

#[test]
fn interrupting_an_open_leaves_the_key_gone_or_everything_as_it_was() {
    let whole = prepared();
    let before = whole.files["v.azv"].clone();
    for stop in 0..14 {
        let mut d = Disk::new();
        d.files = whole.files.clone();
        let mut step = Vault::<Key>::open("v.azv".to_string());
        let mut hw = None;
        let mut showed_decoy = false;
        for _ in 0..stop {
            step = match step {
                Step::Ask(o, ask) => {
                    showed_decoy |= matches!(ask, Ask::Manifest { .. });
                    o.step(d.answer("v.azv", DURESS, &mut hw, ask))
                }
                done => done,
            };
        }
        let after = &d.files["v.azv"];
        if showed_decoy || matches!(step, Step::Opened(_)) {
            assert_ne!(after[104..152], before[104..152], "stopped after {stop}");
        }
        assert_eq!(after[152..], before[152..]);
    }
}

#[test]
fn new_settings_use_the_usual_level() {
    let o = options();
    assert_eq!(VaultOptions::new(o.crypto_suite, o.compress_suite, o.kdf_params, o.factors), o);
}
