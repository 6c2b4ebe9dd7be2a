use zerotrace::error::Error;
use zerotrace::remote::replay::{ReplayGuard, NONCE_MEMORY};
use zerotrace::remote::{
    conclude, verify_command, CommandAction, CommandVerdict, RemoteCommand, SigningIdentity,
};
use zerotrace::suite::VaultId;

fn setup() -> (SigningIdentity, [u8; 32], VaultId) {
    let id = SigningIdentity::from_seed([7u8; 32]);
    let pk = id.verifying_key();
    (id, pk, VaultId::from_bytes([1u8; 16]))
}

#[test]
fn a_correctly_signed_command_is_accepted() {
    let (org, pk, vault) = setup();
    let cmd = org.issue(vault, CommandAction::Lock, 1000, 300, [1u8; 16]);
    let guard = ReplayGuard::new();
    assert_eq!(
        verify_command(&cmd, &pk, vault, 1010, 72 * 3600, &guard).unwrap(),
        CommandVerdict::Accepted
    );
}

#[test]
fn every_field_is_covered_by_the_signature() {
    let (org, pk, vault) = setup();
    let guard = ReplayGuard::new();
    let good = org.issue(vault, CommandAction::Lock, 1000, 300, [2u8; 16]);

    // Escalating the action must invalidate the signature.
    let mut escalated = good.clone();
    escalated.action = CommandAction::Destroy;
    assert_eq!(
        verify_command(&escalated, &pk, vault, 1010, 72 * 3600, &guard).unwrap(),
        CommandVerdict::BadSignature
    );

    // Extending the window must too.
    let mut extended = good.clone();
    extended.expires_at += 100_000;
    assert_eq!(
        verify_command(&extended, &pk, vault, 1010, 72 * 3600, &guard).unwrap(),
        CommandVerdict::BadSignature
    );

    // And so must changing the nonce.
    let mut renonced = good.clone();
    renonced.nonce[0] ^= 1;
    assert_eq!(
        verify_command(&renonced, &pk, vault, 1010, 72 * 3600, &guard).unwrap(),
        CommandVerdict::BadSignature
    );
}

#[test]
fn a_command_for_another_vault_is_refused() {
    let (org, pk, vault) = setup();
    let cmd = org.issue(vault, CommandAction::Destroy, 1000, 300, [3u8; 16]);
    let other = VaultId::from_bytes([2u8; 16]);
    let guard = ReplayGuard::new();
    assert_eq!(
        verify_command(&cmd, &pk, other, 1010, 72 * 3600, &guard).unwrap(),
        CommandVerdict::WrongVault
    );
}

#[test]
fn an_expired_command_is_refused_however_well_signed() {
    let (org, pk, vault) = setup();
    let cmd = org.issue(vault, CommandAction::Destroy, 1000, 300, [4u8; 16]);
    let guard = ReplayGuard::new();
    assert_eq!(
        verify_command(&cmd, &pk, vault, 2000, 72 * 3600, &guard).unwrap(),
        CommandVerdict::Expired
    );
}

#[test]
fn a_captured_command_cannot_be_replayed() {
    let (org, pk, vault) = setup();
    let cmd = org.issue(vault, CommandAction::Lock, 1000, 3600, [5u8; 16]);
    let mut guard = ReplayGuard::new();
    assert!(verify_command(&cmd, &pk, vault, 1010, 72 * 3600, &guard).unwrap().is_accepted());
    guard.remember(cmd.nonce);
    assert_eq!(
        verify_command(&cmd, &pk, vault, 1020, 72 * 3600, &guard).unwrap(),
        CommandVerdict::Replayed
    );
}

#[test]
fn a_signed_command_cannot_weaken_a_vault() {
    let (org, pk, vault) = setup();
    let guard = ReplayGuard::new();
    let loosen = org.issue(
        vault,
        CommandAction::TightenPolicy { timeout_seconds: 365 * 24 * 3600 },
        1000,
        300,
        [6u8; 16],
    );
    assert_eq!(
        verify_command(&loosen, &pk, vault, 1010, 72 * 3600, &guard).unwrap(),
        CommandVerdict::WouldWeaken
    );

    // Tightening is permitted.
    let tighten = org.issue(
        vault,
        CommandAction::TightenPolicy { timeout_seconds: 3600 },
        1000,
        300,
        [7u8; 16],
    );
    assert!(verify_command(&tighten, &pk, vault, 1010, 72 * 3600, &guard)
        .unwrap()
        .is_accepted());
}

#[test]
fn a_different_organisation_key_is_refused() {
    let (org, _, vault) = setup();
    let impostor = SigningIdentity::from_seed([8u8; 32]);
    let cmd = org.issue(vault, CommandAction::Destroy, 1000, 300, [8u8; 16]);
    let guard = ReplayGuard::new();
    assert_eq!(
        verify_command(&cmd, &impostor.verifying_key(), vault, 1010, 72 * 3600, &guard).unwrap(),
        CommandVerdict::BadSignature
    );
}

#[test]
fn a_command_from_the_future_is_not_banked() {
    let (org, pk, vault) = setup();
    let cmd = org.issue(vault, CommandAction::Destroy, 100_000, 300, [9u8; 16]);
    let guard = ReplayGuard::new();
    assert_eq!(
        verify_command(&cmd, &pk, vault, 1000, 72 * 3600, &guard).unwrap(),
        CommandVerdict::NotYetValid
    );
}

#[test]
fn there_is_no_command_that_reads_vault_contents() {
    for action in [
        CommandAction::Lock,
        CommandAction::RequireCheckIn,
        CommandAction::TightenPolicy { timeout_seconds: 60 },
        CommandAction::Destroy,
    ] {
        let l = action.label();
        assert!(!l.contains("READ") && !l.contains("EXPORT") && !l.contains("UNLOCK"), "{l}");
    }
}

fn cmd(id: &SigningIdentity, vault: VaultId, at: i64, nonce: u8) -> RemoteCommand {
    id.issue(vault, CommandAction::Lock, at, 3600, [nonce; 16])
}

#[test]
fn a_captured_command_cannot_be_replayed_after_a_restart() {
    let key = SigningIdentity::from_seed([7u8; 32]);
    let vault = VaultId::from_bytes([1u8; 16]);
    let verifying = key.verifying_key();

    let captured = cmd(&key, vault, 1000, 1);
    let mut guard = ReplayGuard::new();
    assert_eq!(
        verify_command(&captured, &verifying, vault, 1000, 3600, &guard).unwrap(),
        CommandVerdict::Accepted
    );
    guard.remember_at(captured.nonce, captured.issued_at);
    let mark = guard.high_water();

    // The service restarts. Without the mark this begins again at zero.
    let after_restart = ReplayGuard::resume_from(mark);
    assert_eq!(
        verify_command(&captured, &verifying, vault, 1100, 3600, &after_restart).unwrap(),
        CommandVerdict::Replayed
    );
}

#[test]
fn a_newer_command_still_works_after_a_restart() {
    let key = SigningIdentity::from_seed([8u8; 32]);
    let vault = VaultId::from_bytes([2u8; 16]);
    let verifying = key.verifying_key();

    let mut guard = ReplayGuard::new();
    let first = cmd(&key, vault, 1000, 1);
    assert_eq!(
        verify_command(&first, &verifying, vault, 1000, 3600, &guard).unwrap(),
        CommandVerdict::Accepted
    );
    guard.remember_at(first.nonce, first.issued_at);

    let after = ReplayGuard::resume_from(guard.high_water());
    let later = cmd(&key, vault, 2000, 2);
    assert_eq!(
        verify_command(&later, &verifying, vault, 2000, 3600, &after).unwrap(),
        CommandVerdict::Accepted
    );
}

#[test]
fn the_nonce_memory_does_not_grow_without_bound() {
    let mut guard = ReplayGuard::new();
    for i in 0..(NONCE_MEMORY * 3) {
        let mut n = [0u8; 16];
        n[..8].copy_from_slice(&(i as u64).to_le_bytes());
        guard.remember_at(n, i as i64);
    }
    assert!(guard.len() <= NONCE_MEMORY, "the set grew to {}", guard.len());
}

#[test]
fn the_oldest_nonce_is_forgotten_first() {
    let nonce = |i: u64| {
        let mut n = [0u8; 16];
        n[8..].copy_from_slice(&i.to_le_bytes());
        n
    };
    let mut guard = ReplayGuard::default();
    assert!(guard.is_empty());
    for i in 0..NONCE_MEMORY as u64 {
        guard.remember(nonce(i));
        // A nonce that is there already takes no room.
        guard.remember(nonce(i));
    }
    assert_eq!(guard.len(), NONCE_MEMORY);
    assert!(guard.has_seen(&nonce(0)));
    guard.remember(nonce(9999));
    assert_eq!(guard.len(), NONCE_MEMORY);
    assert!(!guard.has_seen(&nonce(0)));
    assert!(guard.has_seen(&nonce(1)));
    assert!(guard.has_seen(&nonce(9999)));
    assert!(!guard.is_empty());
}

#[test]
fn the_mark_never_falls() {
    let mut guard = ReplayGuard::resume_from(500);
    guard.remember_at([1; 16], 400);
    assert_eq!(guard.high_water(), 500);
    guard.remember_at([2; 16], 600);
    assert_eq!(guard.high_water(), 600);
    assert!(guard.predates_accepted(600));
    assert!(!guard.predates_accepted(601));
    // A mark that was never raised refuses nothing.
    assert!(!ReplayGuard::new().predates_accepted(-5));
}

#[test]
fn the_signed_bytes_are_laid_out_as_agreed() {
    let vault = VaultId::from_bytes([0xAB; 16]);
    let payload = RemoteCommand::signing_payload(
        &vault,
        &CommandAction::TightenPolicy { timeout_seconds: 0x0102 },
        &[0xCD; 16],
        -2,
        3,
    );
    let mut expected = Vec::new();
    expected.extend_from_slice(b"apex-zerotrace:remote-command:v1");
    expected.extend_from_slice(&[0xAB; 16]);
    expected.extend_from_slice(&[14, 0, 0, 0]);
    expected.extend_from_slice(b"TIGHTEN_POLICY");
    expected.extend_from_slice(&[2, 1, 0, 0, 0, 0, 0, 0]);
    expected.extend_from_slice(&[0xCD; 16]);
    expected.extend_from_slice(&[0xFE, 0xFF, 0xFF, 0xFF, 0xFF, 0xFF, 0xFF, 0xFF]);
    expected.extend_from_slice(&[3, 0, 0, 0, 0, 0, 0, 0]);
    assert_eq!(payload, expected);
}

#[test]
fn the_public_key_of_a_known_seed_is_known() {
    // The first test vector of RFC 8032.
    let seed = [
        0x9d, 0x61, 0xb1, 0x9d, 0xef, 0xfd, 0x5a, 0x60, 0xba, 0x84, 0x4a, 0xf4, 0x92, 0xec, 0x2c,
        0xc4, 0x44, 0x49, 0xc5, 0x69, 0x7b, 0x32, 0x69, 0x19, 0x70, 0x3b, 0xac, 0x03, 0x1c, 0xae,
        0x7f, 0x60,
    ];
    let public = [
        0xd7, 0x5a, 0x98, 0x01, 0x82, 0xb1, 0x0a, 0xb7, 0xd5, 0x4b, 0xfe, 0xd3, 0xc9, 0x64, 0x07,
        0x3a, 0x0e, 0xe1, 0x72, 0xf3, 0xda, 0xa6, 0x23, 0x25, 0xaf, 0x02, 0x1a, 0x68, 0xf7, 0x07,
        0x51, 0x1a,
    ];
    assert_eq!(SigningIdentity::from_seed(seed).verifying_key(), public);
}

#[test]
fn a_malformed_key_or_signature_is_an_error() {
    let (org, pk, vault) = setup();
    let guard = ReplayGuard::new();
    let good = org.issue(vault, CommandAction::RequireCheckIn, 1000, 300, [1; 16]);

    let mut short = good.clone();
    short.signature.pop();
    assert_eq!(
        verify_command(&short, &pk, vault, 1000, 60, &guard).unwrap_err(),
        Error::Crypto("signature has the wrong length".to_string())
    );

    // y = 2 is not on the curve.
    let mut not_a_key = [0u8; 32];
    not_a_key[0] = 2;
    assert_eq!(
        verify_command(&good, &not_a_key, vault, 1000, 60, &guard).unwrap_err(),
        Error::Crypto("organization public key is malformed".to_string())
    );
    // The key is looked at before the length of the signature.
    assert_eq!(
        verify_command(&short, &not_a_key, vault, 1000, 60, &guard).unwrap_err(),
        Error::Crypto("organization public key is malformed".to_string())
    );
}

#[test]
fn the_signature_decides_last() {
    assert_eq!(conclude(64, true, true), Ok(CommandVerdict::Accepted));
    assert_eq!(conclude(64, true, false), Ok(CommandVerdict::BadSignature));
    assert!(conclude(63, true, true).is_err());
    assert!(conclude(64, false, true).is_err());
}

#[test]
fn a_flipped_signature_byte_is_refused() {
    let (org, pk, vault) = setup();
    let guard = ReplayGuard::new();
    let mut c = org.issue(vault, CommandAction::Destroy, 1000, 300, [1; 16]);
    c.signature[10] ^= 1;
    assert_eq!(
        verify_command(&c, &pk, vault, 1000, 60, &guard).unwrap(),
        CommandVerdict::BadSignature
    );
}

#[test]
fn the_window_is_closed_at_its_edges() {
    let (org, pk, vault) = setup();
    let guard = ReplayGuard::new();
    let c = org.issue(vault, CommandAction::Lock, 1000, 300, [1; 16]);
    let at = |now: i64| verify_command(&c, &pk, vault, now, 60, &guard).unwrap();
    assert_eq!(at(699), CommandVerdict::NotYetValid);
    assert_eq!(at(700), CommandVerdict::Accepted);
    assert_eq!(at(1300), CommandVerdict::Accepted);
    assert_eq!(at(1301), CommandVerdict::Expired);
}

#[test]
fn labels_are_what_they_are() {
    assert_eq!(CommandAction::Lock.label(), "LOCK");
    assert_eq!(CommandAction::RequireCheckIn.label(), "REQUIRE_CHECK_IN");
    assert_eq!(CommandAction::TightenPolicy { timeout_seconds: 1 }.label(), "TIGHTEN_POLICY");
    assert_eq!(CommandAction::Destroy.label(), "DESTROY");
    assert!(CommandAction::Destroy.is_destructive());
    assert!(!CommandAction::Lock.is_destructive());
    assert!(!CommandAction::Destroy.is_weakening(0));
    assert!(CommandAction::TightenPolicy { timeout_seconds: 61 }.is_weakening(60));
    assert!(!CommandAction::TightenPolicy { timeout_seconds: 60 }.is_weakening(60));
    assert_eq!(CommandVerdict::Accepted.label(), "ACCEPTED");
    assert_eq!(CommandVerdict::BadSignature.label(), "REFUSED: signature does not verify");
    assert_eq!(CommandVerdict::WrongVault.label(), "REFUSED: issued for a different vault");
    assert_eq!(CommandVerdict::Expired.label(), "REFUSED: expired");
    assert_eq!(CommandVerdict::NotYetValid.label(), "REFUSED: issued in the future");
    assert_eq!(CommandVerdict::Replayed.label(), "REFUSED: nonce already used");
    assert_eq!(CommandVerdict::WouldWeaken.label(), "REFUSED: would reduce protection");
}
