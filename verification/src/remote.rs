//! Signed remote commands.
//!
//! The organization holds an Ed25519 signing key. An endpoint holds only the
//! public half, so that a compromised endpoint cannot forge instructions to
//! other endpoints, and the server never possesses vault keys or plaintext.

use crate::error::{Error, ErrorView};
use crate::le::{array_at, put32, put64, put_bytes, put_signed64, same_bytes};
use crate::remote::ed25519::{is_key, public_key, sign, verifies};
use crate::remote::replay::{GuardView, ReplayGuard};
use crate::suite::VaultId;
use vstd::prelude::*;
use vstd::string::*;

pub mod ed25519;
pub mod laws;
pub mod replay;

verus! {

broadcast use crate::le::group_le;

/// What an organization may instruct an endpoint to do.
///
/// The set is deliberately small. Anything that reads vault contents is absent
/// on purpose: the server must never be able to obtain plaintext.
#[derive(Debug, Clone, Copy, PartialEq, Eq, Structural)]
pub enum CommandAction {
    /// Close sessions and clear resident keys. Never destroys.
    Lock,
    /// Require a fresh check-in before the deadline resumes counting.
    RequireCheckIn,
    /// Shorten the deadman timeout. Cannot lengthen it: see `is_weakening`.
    TightenPolicy { timeout_seconds: u64 },
    /// Destroy the vault. Still goes through two-phase authorization locally.
    Destroy,
}

impl CommandAction {
    /// The name of the action, which a signature covers.
    pub open spec fn name(self) -> Seq<char> {
        match self {
            CommandAction::Lock => "LOCK"@,
            CommandAction::RequireCheckIn => "REQUIRE_CHECK_IN"@,
            CommandAction::TightenPolicy { .. } => "TIGHTEN_POLICY"@,
            CommandAction::Destroy => "DESTROY"@,
        }
    }

    /// Whether the action reduces protection.
    pub open spec fn weakens(self, current_timeout: u64) -> bool {
        self matches CommandAction::TightenPolicy { timeout_seconds } && timeout_seconds
            > current_timeout
    }

    /// Whether the action destroys the vault.
    pub open spec fn destroys(self) -> bool {
        self is Destroy
    }

    pub fn label(&self) -> (r: &'static str)
        ensures
            r@ == self.name(),
    {
        match self {
            CommandAction::Lock => "LOCK",
            CommandAction::RequireCheckIn => "REQUIRE_CHECK_IN",
            CommandAction::TightenPolicy { timeout_seconds: _ } => "TIGHTEN_POLICY",
            CommandAction::Destroy => "DESTROY",
        }
    }

    /// Whether the action reduces protection.
    ///
    /// A signed command must never be able to weaken a vault: an attacker who
    /// obtains the organization's key could otherwise disarm every endpoint
    /// quietly, which is worse than destroying them loudly.
    pub fn is_weakening(&self, current_timeout: u64) -> (r: bool)
        ensures
            r == self.weakens(current_timeout),
    {
        match self {
            CommandAction::TightenPolicy { timeout_seconds } => *timeout_seconds
                > current_timeout,
            _ => false,
        }
    }

    pub fn is_destructive(&self) -> (r: bool)
        ensures
            r == self.destroys(),
            r == (self is Destroy),
    {
        match self {
            CommandAction::Destroy => true,
            _ => false,
        }
    }
}

/// A command as issued by an organization.
#[derive(Debug, Clone, PartialEq, Eq)]
pub struct RemoteCommand {
    pub vault_id: VaultId,
    pub action: CommandAction,
    /// Unique per command. Replaying a command with a seen nonce is refused.
    pub nonce: [u8; 16],
    pub issued_at: i64,
    /// After this, the command is refused however well signed it is.
    pub expires_at: i64,
    pub signature: Vec<u8>,
}

/// A command, with its bytes as sequences.
pub struct CommandView {
    pub vault_id: Seq<u8>,
    pub action: CommandAction,
    pub nonce: Seq<u8>,
    pub issued_at: i64,
    pub expires_at: i64,
    pub signature: Seq<u8>,
}

impl View for RemoteCommand {
    type V = CommandView;

    open spec fn view(&self) -> CommandView {
        CommandView {
            vault_id: self.vault_id@,
            action: self.action,
            nonce: self.nonce@,
            issued_at: self.issued_at,
            expires_at: self.expires_at,
            signature: self.signature@,
        }
    }
}

/// What begins the bytes that a signature covers.
pub open spec fn command_label() -> Seq<u8> {
    "apex-zerotrace:remote-command:v1".spec_bytes()
}

/// The action, as a signature covers it.
pub open spec fn action_bytes(action: CommandAction) -> Seq<u8> {
    let name = vstd::utf8::encode_utf8(action.name());
    let kind = crate::le::le32(name.len() as u32) + name;
    match action {
        CommandAction::TightenPolicy { timeout_seconds } => kind + crate::le::le64(
            timeout_seconds,
        ),
        _ => kind,
    }
}

/// The bytes that the signature of a command covers.
pub open spec fn payload(
    vault_id: Seq<u8>,
    action: CommandAction,
    nonce: Seq<u8>,
    issued_at: i64,
    expires_at: i64,
) -> Seq<u8> {
    command_label() + vault_id + action_bytes(action) + nonce + crate::le::le64(
        crate::le::bits64(issued_at),
    ) + crate::le::le64(crate::le::bits64(expires_at))
}

impl CommandView {
    /// The bytes that the signature covers.
    pub open spec fn payload(self) -> Seq<u8> {
        payload(self.vault_id, self.action, self.nonce, self.issued_at, self.expires_at)
    }
}

impl RemoteCommand {
    /// The bytes the signature covers.
    ///
    /// Every field is covered, so no field can be altered or moved between
    /// commands without invalidating the signature.
    pub fn signing_payload(
        vault_id: &VaultId,
        action: &CommandAction,
        nonce: &[u8; 16],
        issued_at: i64,
        expires_at: i64,
    ) -> (r: Vec<u8>)
        ensures
            r@ == payload(vault_id@, *action, nonce@, issued_at, expires_at),
    {
        let mut b: Vec<u8> = Vec::new();
        put_bytes(&mut b, "apex-zerotrace:remote-command:v1".as_bytes());
        put_bytes(&mut b, vault_id.as_bytes().as_slice());
        let name = action.label();
        let label = name.as_bytes();
        put32(&mut b, label.len() as u32);
        put_bytes(&mut b, label);
        if let CommandAction::TightenPolicy { timeout_seconds } = action {
            put64(&mut b, *timeout_seconds);
        }
        assert(b@ =~= command_label() + vault_id@ + action_bytes(*action));
        put_bytes(&mut b, nonce.as_slice());
        put_signed64(&mut b, issued_at);
        put_signed64(&mut b, expires_at);
        b
    }
}

/// An organization's signing key. Never present on an endpoint.
pub struct SigningIdentity {
    seed: [u8; 32],
}

impl View for SigningIdentity {
    type V = Seq<u8>;

    closed spec fn view(&self) -> Seq<u8> {
        self.seed@
    }
}

impl SigningIdentity {
    /// The signing key that belongs to a seed.
    pub fn from_seed(seed: [u8; 32]) -> (r: Self)
        ensures
            r@ == seed@,
    {
        SigningIdentity { seed }
    }

    /// The public half, which is what an endpoint stores.
    pub fn verifying_key(&self) -> (r: [u8; 32])
        ensures
            r@ == ed25519::ed25519_public(self@),
            ed25519::ed25519_is_key(r@),
    {
        public_key(&self.seed)
    }

    /// Issues a command. `nonce` is random.
    pub fn issue(
        &self,
        vault_id: VaultId,
        action: CommandAction,
        issued_at: i64,
        valid_for_seconds: i64,
        nonce: [u8; 16],
    ) -> (r: RemoteCommand)
        requires
            i64::MIN <= issued_at + valid_for_seconds <= i64::MAX,
        ensures
            r@ == issued(self@, vault_id@, action, issued_at, valid_for_seconds, nonce@),
            r@.signature.len() == 64,
            ed25519::ed25519_verifies(
                ed25519::ed25519_public(self@),
                r@.payload(),
                r@.signature,
            ),
    {
        let expires_at: i64 = issued_at + valid_for_seconds;
        let covered = RemoteCommand::signing_payload(
            &vault_id,
            &action,
            &nonce,
            issued_at,
            expires_at,
        );
        let signature: [u8; 64] = sign(&self.seed, covered.as_slice());
        let mut bytes: Vec<u8> = Vec::new();
        put_bytes(&mut bytes, signature.as_slice());
        assert(bytes@ =~= signature@);
        RemoteCommand { vault_id, action, nonce, issued_at, expires_at, signature: bytes }
    }
}

/// A command as the holder of a seed issues it.
pub open spec fn issued(
    seed: Seq<u8>,
    vault_id: Seq<u8>,
    action: CommandAction,
    issued_at: i64,
    valid_for_seconds: i64,
    nonce: Seq<u8>,
) -> CommandView {
    let expires_at = (issued_at + valid_for_seconds) as i64;
    CommandView {
        vault_id,
        action,
        nonce,
        issued_at,
        expires_at,
        signature: ed25519::ed25519_signature(
            seed,
            payload(vault_id, action, nonce, issued_at, expires_at),
        ),
    }
}

/// Why a command was accepted or refused.
#[derive(Debug, Clone, Copy, PartialEq, Eq, Structural)]
pub enum CommandVerdict {
    Accepted,
    BadSignature,
    WrongVault,
    Expired,
    NotYetValid,
    Replayed,
    /// The command would reduce protection, so it is refused regardless of how
    /// well it is signed.
    WouldWeaken,
}

impl CommandVerdict {
    /// The words for a verdict.
    pub open spec fn words(self) -> Seq<char> {
        match self {
            CommandVerdict::Accepted => "ACCEPTED"@,
            CommandVerdict::BadSignature => "REFUSED: signature does not verify"@,
            CommandVerdict::WrongVault => "REFUSED: issued for a different vault"@,
            CommandVerdict::Expired => "REFUSED: expired"@,
            CommandVerdict::NotYetValid => "REFUSED: issued in the future"@,
            CommandVerdict::Replayed => "REFUSED: nonce already used"@,
            CommandVerdict::WouldWeaken => "REFUSED: would reduce protection"@,
        }
    }

    pub fn label(&self) -> (r: &'static str)
        ensures
            r@ == self.words(),
    {
        match self {
            CommandVerdict::Accepted => "ACCEPTED",
            CommandVerdict::BadSignature => "REFUSED: signature does not verify",
            CommandVerdict::WrongVault => "REFUSED: issued for a different vault",
            CommandVerdict::Expired => "REFUSED: expired",
            CommandVerdict::NotYetValid => "REFUSED: issued in the future",
            CommandVerdict::Replayed => "REFUSED: nonce already used",
            CommandVerdict::WouldWeaken => "REFUSED: would reduce protection",
        }
    }

    pub fn is_accepted(&self) -> (r: bool)
        ensures
            r == (self is Accepted),
    {
        match self {
            CommandVerdict::Accepted => true,
            _ => false,
        }
    }
}

/// How far a command may be dated in the future, in seconds.
pub const CLOCK_SLACK: i64 = 300;

/// The verdict on a command that is refused whatever its signature; nothing,
/// when the signature decides.
pub open spec fn early_verdict(
    command: CommandView,
    expected_vault: Seq<u8>,
    now: i64,
    current_timeout: u64,
    guard: GuardView,
) -> Option<CommandVerdict> {
    if command.vault_id != expected_vault {
        Some(CommandVerdict::WrongVault)
    } else if now > command.expires_at {
        Some(CommandVerdict::Expired)
    } else if command.issued_at > now + CLOCK_SLACK {
        Some(CommandVerdict::NotYetValid)
    } else if guard.predates(command.issued_at) || guard.has_seen(command.nonce) {
        Some(CommandVerdict::Replayed)
    } else if command.action.weakens(current_timeout) {
        Some(CommandVerdict::WouldWeaken)
    } else {
        None
    }
}

/// The verdict once only the signature is left to decide.
pub open spec fn signature_verdict(signature_len: nat, key_ok: bool, verified: bool) -> Result<
    CommandVerdict,
    ErrorView,
> {
    if !key_ok {
        Err(ErrorView::Crypto("organization public key is malformed"@))
    } else if signature_len != 64 {
        Err(ErrorView::Crypto("signature has the wrong length"@))
    } else if verified {
        Ok(CommandVerdict::Accepted)
    } else {
        Ok(CommandVerdict::BadSignature)
    }
}

/// The verdict on a command. `key_ok` is whether the organization's key is a
/// key, and `verified` whether the signature verifies under it.
pub open spec fn verdict(
    command: CommandView,
    expected_vault: Seq<u8>,
    now: i64,
    current_timeout: u64,
    guard: GuardView,
    key_ok: bool,
    verified: bool,
) -> Result<CommandVerdict, ErrorView> {
    match early_verdict(command, expected_vault, now, current_timeout, guard) {
        Some(v) => Ok(v),
        None => signature_verdict(command.signature.len(), key_ok, verified),
    }
}

/// Checks everything about a command but its signature.
pub fn check_before_signature(
    command: &RemoteCommand,
    expected_vault: VaultId,
    now: i64,
    current_timeout: u64,
    guard: &ReplayGuard,
) -> (r: Option<CommandVerdict>)
    requires
        guard.wf(),
        now + CLOCK_SLACK <= i64::MAX,
    ensures
        r == early_verdict(command@, expected_vault@, now, current_timeout, guard@),
{
    if !same_bytes(
        command.vault_id.as_bytes().as_slice(),
        expected_vault.as_bytes().as_slice(),
    ) {
        return Some(CommandVerdict::WrongVault);
    }
    if now > command.expires_at {
        return Some(CommandVerdict::Expired);
    }
    // A command dated in the future suggests a clock problem at one end, and
    // acting on it would let a long-lived command be banked for later.
    if command.issued_at > now + CLOCK_SLACK {
        return Some(CommandVerdict::NotYetValid);
    }
    // Older than something already acted on, which catches a captured command
    // replayed after a restart even though its nonce is no longer remembered.
    if guard.predates_accepted(command.issued_at) {
        return Some(CommandVerdict::Replayed);
    }
    if guard.has_seen(&command.nonce) {
        return Some(CommandVerdict::Replayed);
    }
    if command.action.is_weakening(current_timeout) {
        return Some(CommandVerdict::WouldWeaken);
    }
    None
}

/// Concludes on a command whose signature decides.
pub fn conclude(signature_len: usize, key_ok: bool, verified: bool) -> (r: Result<
    CommandVerdict,
    Error,
>)
    ensures
        match r {
            Ok(v) => signature_verdict(signature_len as nat, key_ok, verified) == Ok::<
                CommandVerdict,
                ErrorView,
            >(v),
            Err(e) => signature_verdict(signature_len as nat, key_ok, verified) == Err::<
                CommandVerdict,
                ErrorView,
            >(e@),
        },
{
    if !key_ok {
        return Err(Error::Crypto("organization public key is malformed".to_owned()));
    }
    if signature_len != 64 {
        return Err(Error::Crypto("signature has the wrong length".to_owned()));
    }
    if verified {
        Ok(CommandVerdict::Accepted)
    } else {
        Ok(CommandVerdict::BadSignature)
    }
}

/// Checks a command against every rule before it may be acted on.
///
/// Order matters only for the verdict reported; every rule is applied.
pub fn verify_command(
    command: &RemoteCommand,
    org_public_key: &[u8; 32],
    expected_vault: VaultId,
    now: i64,
    current_timeout: u64,
    guard: &ReplayGuard,
) -> (r: Result<CommandVerdict, Error>)
    requires
        guard.wf(),
        now + CLOCK_SLACK <= i64::MAX,
    ensures
        ({
            let v = verdict(
                command@,
                expected_vault@,
                now,
                current_timeout,
                guard@,
                ed25519::ed25519_is_key(org_public_key@),
                ed25519::ed25519_verifies(
                    org_public_key@,
                    command@.payload(),
                    command@.signature,
                ),
            );
            match r {
                Ok(x) => v == Ok::<CommandVerdict, ErrorView>(x),
                Err(e) => v == Err::<CommandVerdict, ErrorView>(e@),
            }
        }),
{
    if let Some(v) = check_before_signature(
        command,
        expected_vault,
        now,
        current_timeout,
        guard,
    ) {
        return Ok(v);
    }
    let key_ok: bool = is_key(org_public_key);
    let mut verified: bool = false;
    if key_ok && command.signature.len() == 64 {
        let signature: [u8; 64] = array_at::<64>(command.signature.as_slice(), 0);
        assert(signature@ =~= command.signature@);
        let covered = RemoteCommand::signing_payload(
            &command.vault_id,
            &command.action,
            &command.nonce,
            command.issued_at,
            command.expires_at,
        );
        verified = verifies(org_public_key, covered.as_slice(), &signature);
    }
    conclude(command.signature.len(), key_ok, verified)
}

} // verus!
