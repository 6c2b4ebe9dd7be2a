//! Identifiers, cipher and compression suites, KDF parameters and factors, as
//! plain values.

use vstd::prelude::*;

verus! {

/// The identifier of a vault.
#[derive(Debug, Clone, Copy, PartialEq, Eq)]
pub struct VaultId(pub [u8; 16]);

impl View for VaultId {
    type V = Seq<u8>;

    open spec fn view(&self) -> Seq<u8> {
        self.0@
    }
}

impl VaultId {
    /// The identifier made of these bytes.
    pub fn from_bytes(bytes: [u8; 16]) -> (r: VaultId)
        ensures
            r@ == bytes@,
    {
        VaultId(bytes)
    }

    /// The bytes of the identifier.
    pub fn as_bytes(&self) -> (r: &[u8; 16])
        ensures
            r@ == self@,
    {
        &self.0
    }
}

/// A cipher: the code that names it in a header, and how much of a stored
/// nonce it uses.
#[derive(Debug, Clone, Copy, PartialEq, Eq, Structural)]
pub struct CryptoSuite {
    pub code: u16,
    pub nonce_len: usize,
}

/// A nonce is stored in a field of this many bytes.
pub const NONCE_FIELD: usize = 24;

impl CryptoSuite {
    /// A nonce of this suite fits the field it is stored in.
    pub open spec fn wf(self) -> bool {
        self.nonce_len <= NONCE_FIELD
    }

    /// The part of a stored nonce that this suite uses.
    pub open spec fn nonce_of(self, field: Seq<u8>) -> Seq<u8> {
        field.take(self.nonce_len as int)
    }

    /// Cuts a stored nonce to the length this suite uses.
    pub fn nonce(&self, field: &[u8; 24]) -> (r: Vec<u8>)
        requires
            self.wf(),
        ensures
            r@ == self.nonce_of(field@),
    {
        let mut r: Vec<u8> = Vec::new();
        let mut i: usize = 0;
        while i < self.nonce_len
            invariant
                i <= self.nonce_len <= 24,
                r@ == field@.take(i as int),
            decreases self.nonce_len - i,
        {
            r.push(field[i]);
            i += 1;
            assert(r@ =~= field@.take(i as int));
        }
        r
    }
}

/// A compression method, by the code that names it.
#[derive(Debug, Clone, Copy, PartialEq, Eq, Structural)]
pub struct CompressSuite {
    pub code: u16,
}

/// How hard a password is to try.
#[derive(Debug, Clone, Copy, PartialEq, Eq, Structural)]
pub struct KdfParams {
    pub memory_kib: u32,
    pub time_cost: u32,
    pub parallelism: u32,
}

/// The factors a vault asks for: the bits that record them, how many there
/// are, and whether a hardware authenticator is one of them.
#[derive(Debug, Clone, Copy, PartialEq, Eq, Structural)]
pub struct FactorSet {
    pub bits: u16,
    pub count: u16,
    pub hardware: bool,
}

/// What a vault asks of whoever opens it.
#[derive(Debug, Clone, Copy, PartialEq, Eq)]
pub struct AuthDescriptor {
    pub required: FactorSet,
    pub prf_salt: [u8; 32],
    pub credential_hint: [u8; 20],
}

/// An authentication descriptor, with its bytes as sequences.
pub struct AuthView {
    pub required: FactorSet,
    pub prf_salt: Seq<u8>,
    pub credential_hint: Seq<u8>,
}

impl View for AuthDescriptor {
    type V = AuthView;

    open spec fn view(&self) -> AuthView {
        AuthView {
            required: self.required,
            prf_salt: self.prf_salt@,
            credential_hint: self.credential_hint@,
        }
    }
}

impl AuthDescriptor {
    /// Whether a hardware authenticator has to contribute to the key.
    pub fn requires_hardware(&self) -> (r: bool)
        ensures
            r == self@.required.hardware,
    {
        self.required.hardware
    }
}

/// The part of a stored nonce that a cipher uses is the beginning of it, as
/// long as the cipher's nonces are.
pub proof fn law_nonce_is_the_beginning(suite: CryptoSuite, field: Seq<u8>)
    requires
        suite.nonce_len <= field.len(),
    ensures
        suite.nonce_of(field).len() == suite.nonce_len,
        forall|i: int|
            0 <= i < suite.nonce_len ==> #[trigger] suite.nonce_of(field)[i] == field[i],
{
}

} // verus!
