//! What signatures cover, and what no signed command can do.

use crate::error::ErrorView;
use crate::remote::replay::GuardView;
use crate::remote::{CommandAction, CommandVerdict, CommandView};
use vstd::prelude::*;
use vstd::string::*;

verus! {

broadcast use crate::le::group_le;

/// The name of an action, as bytes: how long it is.
proof fn lemma_name_len(action: CommandAction)
    ensures
        vstd::utf8::encode_utf8(action.name()).len() == match action {
            CommandAction::Lock => 4nat,
            CommandAction::RequireCheckIn => 16,
            CommandAction::TightenPolicy { .. } => 14,
            CommandAction::Destroy => 7,
        },
{
    reveal_strlit("LOCK");
    reveal_strlit("REQUIRE_CHECK_IN");
    reveal_strlit("TIGHTEN_POLICY");
    reveal_strlit("DESTROY");
    vstd::utf8::is_ascii_chars_encode_utf8(action.name());
}

/// Bits tell signed numbers apart.
proof fn lemma_bits64(a: i64, b: i64)
    requires
        crate::le::bits64(a) == crate::le::bits64(b),
    ensures
        a == b,
{
}

/// Two commands whose signatures cover the same bytes are the same command:
/// no field can be altered, and none moved into another, without the signature
/// failing to cover it.
pub proof fn law_signature_covers_every_field(a: CommandView, b: CommandView)
    requires
        a.vault_id.len() == 16,
        b.vault_id.len() == 16,
        a.nonce.len() == 16,
        b.nonce.len() == 16,
        a.payload() == b.payload(),
    ensures
        a.vault_id == b.vault_id,
        a.action == b.action,
        a.nonce == b.nonce,
        a.issued_at == b.issued_at,
        a.expires_at == b.expires_at,
{
    let n = crate::remote::command_label().len() as int;
    let x = a.payload();
    let y = b.payload();
    let p = vstd::utf8::encode_utf8(a.action.name());
    let q = vstd::utf8::encode_utf8(b.action.name());
    lemma_name_len(a.action);
    lemma_name_len(b.action);
    assert(x.subrange(n, n + 16) =~= a.vault_id);
    assert(y.subrange(n, n + 16) =~= b.vault_id);
    assert(x.subrange(n + 16, n + 20) =~= crate::le::le32(p.len() as u32));
    assert(y.subrange(n + 16, n + 20) =~= crate::le::le32(q.len() as u32));
    assert(p.len() == q.len());
    let m = n + 20 + p.len() as int;
    if a.action is TightenPolicy {
        assert(b.action is TightenPolicy);
        let s = a.action->timeout_seconds;
        let t = b.action->timeout_seconds;
        assert(x.subrange(m, m + 8) =~= crate::le::le64(s));
        assert(y.subrange(m, m + 8) =~= crate::le::le64(t));
        assert(s == t);
    }
    assert(a.action == b.action);
    let k = n + 16 + crate::remote::action_bytes(a.action).len() as int;
    assert(x.subrange(k, k + 16) =~= a.nonce);
    assert(y.subrange(k, k + 16) =~= b.nonce);
    assert(x.subrange(k + 16, k + 24) =~= crate::le::le64(crate::le::bits64(a.issued_at)));
    assert(y.subrange(k + 16, k + 24) =~= crate::le::le64(crate::le::bits64(b.issued_at)));
    assert(x.subrange(k + 24, k + 32) =~= crate::le::le64(crate::le::bits64(a.expires_at)));
    assert(y.subrange(k + 24, k + 32) =~= crate::le::le64(crate::le::bits64(b.expires_at)));
    lemma_bits64(a.issued_at, b.issued_at);
    lemma_bits64(a.expires_at, b.expires_at);
}

/// A command is accepted exactly if it meets every rule: it is for this vault,
/// has not expired, is not dated in the future, is neither seen nor older than
/// one acted on, does not weaken the vault, and is signed with the
/// organization's key.
pub proof fn law_accepted_meets_every_rule(
    command: CommandView,
    expected_vault: Seq<u8>,
    now: i64,
    current_timeout: u64,
    guard: GuardView,
    key_ok: bool,
    verified: bool,
)
    ensures
        crate::remote::verdict(
            command,
            expected_vault,
            now,
            current_timeout,
            guard,
            key_ok,
            verified,
        ) == Ok::<CommandVerdict, ErrorView>(CommandVerdict::Accepted) <==> {
            &&& command.vault_id == expected_vault
            &&& now <= command.expires_at
            &&& command.issued_at <= now + crate::remote::CLOCK_SLACK
            &&& !guard.predates(command.issued_at)
            &&& !guard.has_seen(command.nonce)
            &&& !command.action.weakens(current_timeout)
            &&& key_ok
            &&& command.signature.len() == 64
            &&& verified
        },
{
}

/// A command that was issued is accepted by an endpoint that holds the
/// matching key, within its time, as long as it is for that endpoint's vault,
/// does not weaken it, and is new to the endpoint. That its signature has the
/// right length and verifies under the matching key is what issuing it gives;
/// that the matching key is a key is what asking for it gives.
pub proof fn law_issued_command_is_accepted(
    seed: Seq<u8>,
    vault_id: Seq<u8>,
    action: CommandAction,
    issued_at: i64,
    valid_for_seconds: i64,
    nonce: Seq<u8>,
    now: i64,
    current_timeout: u64,
    guard: GuardView,
)
    requires
        issued_at + valid_for_seconds <= i64::MAX,
        issued_at - crate::remote::CLOCK_SLACK <= now <= issued_at + valid_for_seconds,
        !guard.predates(issued_at),
        !guard.has_seen(nonce),
        !action.weakens(current_timeout),
    ensures
        ({
            let c = crate::remote::issued(
                seed,
                vault_id,
                action,
                issued_at,
                valid_for_seconds,
                nonce,
            );
            let key = crate::remote::ed25519::ed25519_public(seed);
            let key_ok = crate::remote::ed25519::ed25519_is_key(key);
            let verified = crate::remote::ed25519::ed25519_verifies(
                key,
                c.payload(),
                c.signature,
            );
            key_ok && verified && c.signature.len() == 64 ==> crate::remote::verdict(
                c,
                vault_id,
                now,
                current_timeout,
                guard,
                key_ok,
                verified,
            ) == Ok::<CommandVerdict, ErrorView>(CommandVerdict::Accepted)
        }),
{
}

/// A command that was acted on cannot be replayed: whatever the time, the
/// vault and the signature, the guard that remembers it never lets it be
/// accepted again, and says so unless an earlier rule already refuses it.
pub proof fn law_captured_command_cannot_be_replayed(
    command: CommandView,
    expected_vault: Seq<u8>,
    now: i64,
    current_timeout: u64,
    guard: GuardView,
    at: i64,
    key_ok: bool,
    verified: bool,
)
    ensures
        ({
            let v = crate::remote::verdict(
                command,
                expected_vault,
                now,
                current_timeout,
                guard.remembering(command.nonce, at),
                key_ok,
                verified,
            );
            &&& v != Ok::<CommandVerdict, ErrorView>(CommandVerdict::Accepted)
            &&& command.vault_id == expected_vault && now <= command.expires_at
                && command.issued_at <= now + crate::remote::CLOCK_SLACK ==> v == Ok::<
                CommandVerdict,
                ErrorView,
            >(CommandVerdict::Replayed)
        }),
{
    crate::remote::replay::law_remembered_is_seen(guard, command.nonce, at);
}

/// Nor can it be replayed after a restart from the persisted mark, though its
/// nonce is forgotten, if it was issued after the epoch. A newer command is
/// not taken for a replay.
pub proof fn law_restart_does_not_reopen_the_window(
    command: CommandView,
    newer: CommandView,
    expected_vault: Seq<u8>,
    now: i64,
    current_timeout: u64,
    guard: GuardView,
    key_ok: bool,
    verified: bool,
)
    requires
        command.issued_at > 0,
    ensures
        ({
            let mark = guard.remembering(command.nonce, command.issued_at).newest_accepted;
            let after = GuardView::resumed(mark);
            &&& crate::remote::verdict(
                command,
                expected_vault,
                now,
                current_timeout,
                after,
                key_ok,
                verified,
            ) != Ok::<CommandVerdict, ErrorView>(CommandVerdict::Accepted)
            &&& newer.issued_at > mark ==> crate::remote::verdict(
                newer,
                expected_vault,
                now,
                current_timeout,
                after,
                key_ok,
                verified,
            ) != Ok::<CommandVerdict, ErrorView>(CommandVerdict::Replayed)
        }),
{
    crate::remote::replay::law_restart_keeps_the_window_closed(
        guard,
        command.nonce,
        command.issued_at,
        newer.issued_at,
    );
}

/// No signature, however good, lets a command lengthen the timeout of a vault.
pub proof fn law_no_command_weakens(
    command: CommandView,
    expected_vault: Seq<u8>,
    now: i64,
    current_timeout: u64,
    guard: GuardView,
    key_ok: bool,
    verified: bool,
)
    ensures
        crate::remote::verdict(
            command,
            expected_vault,
            now,
            current_timeout,
            guard,
            key_ok,
            verified,
        ) == Ok::<CommandVerdict, ErrorView>(CommandVerdict::Accepted) ==> (
        command.action matches CommandAction::TightenPolicy { timeout_seconds } ==> timeout_seconds
            <= current_timeout),
{
}

/// An issued command says what it was issued with, and runs out exactly when
/// its time is over: it expires `valid_for_seconds` after it was issued.
pub proof fn law_issued_command_says_what_it_was_issued_with(
    seed: Seq<u8>,
    vault_id: Seq<u8>,
    action: CommandAction,
    issued_at: i64,
    valid_for_seconds: i64,
    nonce: Seq<u8>,
)
    requires
        i64::MIN <= issued_at + valid_for_seconds <= i64::MAX,
    ensures
        ({
            let c = crate::remote::issued(
                seed,
                vault_id,
                action,
                issued_at,
                valid_for_seconds,
                nonce,
            );
            &&& c.vault_id == vault_id
            &&& c.action == action
            &&& c.nonce == nonce
            &&& c.issued_at == issued_at
            &&& c.expires_at - issued_at == valid_for_seconds
            &&& c.signature == crate::remote::ed25519::ed25519_signature(seed, c.payload())
        }),
{
}

/// No endpoint accepts an issued command once its time is over, or more than
/// five minutes before it was issued, or for another vault, whatever its guard,
/// its timeout and its key are. Within that time nothing but the guard, the
/// timeout and the signature decides.
pub proof fn law_issued_command_runs_out(
    seed: Seq<u8>,
    vault_id: Seq<u8>,
    action: CommandAction,
    issued_at: i64,
    valid_for_seconds: i64,
    nonce: Seq<u8>,
    expected_vault: Seq<u8>,
    now: i64,
    current_timeout: u64,
    guard: GuardView,
    key_ok: bool,
    verified: bool,
)
    requires
        i64::MIN <= issued_at + valid_for_seconds <= i64::MAX,
    ensures
        ({
            let c = crate::remote::issued(
                seed,
                vault_id,
                action,
                issued_at,
                valid_for_seconds,
                nonce,
            );
            let v = crate::remote::verdict(
                c,
                expected_vault,
                now,
                current_timeout,
                guard,
                key_ok,
                verified,
            );
            &&& now > issued_at + valid_for_seconds ==> v != Ok::<CommandVerdict, ErrorView>(
                CommandVerdict::Accepted,
            )
            &&& now < issued_at - 300 ==> v != Ok::<CommandVerdict, ErrorView>(
                CommandVerdict::Accepted,
            )
            &&& vault_id != expected_vault ==> v != Ok::<CommandVerdict, ErrorView>(
                CommandVerdict::Accepted,
            )
            &&& vault_id == expected_vault && now > issued_at + valid_for_seconds ==> v == Ok::<
                CommandVerdict,
                ErrorView,
            >(CommandVerdict::Expired)
            &&& issued_at - 300 <= now <= issued_at + valid_for_seconds && vault_id
                == expected_vault ==> v != Ok::<CommandVerdict, ErrorView>(CommandVerdict::Expired)
                && v != Ok::<CommandVerdict, ErrorView>(CommandVerdict::NotYetValid) && v != Ok::<
                CommandVerdict,
                ErrorView,
            >(CommandVerdict::WrongVault)
        }),
{
}

/// What is said of a command, in the order in which the rules are applied. The
/// first that it breaks is the one reported; a command that breaks none is
/// accepted. Up to five minutes of difference between clocks are tolerated.
pub proof fn law_first_broken_rule_is_reported(
    command: CommandView,
    expected_vault: Seq<u8>,
    now: i64,
    current_timeout: u64,
    guard: GuardView,
    key_ok: bool,
    verified: bool,
)
    ensures
        ({
            let v = crate::remote::verdict(
                command,
                expected_vault,
                now,
                current_timeout,
                guard,
                key_ok,
                verified,
            );
            let elsewhere = command.vault_id != expected_vault;
            let late = now > command.expires_at;
            let early = command.issued_at - now > 300;
            let old = guard.newest_accepted > 0 && command.issued_at <= guard.newest_accepted;
            let seen = guard.nonces.contains(command.nonce);
            let weak = command.action matches CommandAction::TightenPolicy { timeout_seconds }
                && timeout_seconds > current_timeout;
            let fair = !elsewhere && !late && !early && !old && !seen && !weak;
            &&& v == Ok::<CommandVerdict, ErrorView>(CommandVerdict::WrongVault) <==> elsewhere
            &&& v == Ok::<CommandVerdict, ErrorView>(CommandVerdict::Expired) <==> !elsewhere
                && late
            &&& v == Ok::<CommandVerdict, ErrorView>(CommandVerdict::NotYetValid) <==> !elsewhere
                && !late && early
            &&& v == Ok::<CommandVerdict, ErrorView>(CommandVerdict::Replayed) <==> !elsewhere
                && !late && !early && (old || seen)
            &&& v == Ok::<CommandVerdict, ErrorView>(CommandVerdict::WouldWeaken) <==> !elsewhere
                && !late && !early && !old && !seen && weak
            &&& v is Err <==> fair && (!key_ok || command.signature.len() != 64)
            &&& v == Ok::<CommandVerdict, ErrorView>(CommandVerdict::BadSignature) <==> fair
                && key_ok && command.signature.len() == 64 && !verified
            &&& v == Ok::<CommandVerdict, ErrorView>(CommandVerdict::Accepted) <==> fair && key_ok
                && command.signature.len() == 64 && verified
        }),
{
}

/// A key that is none is told apart from a signature that is too short or too
/// long, and comes first.
pub proof fn law_malformed_key_comes_first(signature_len: nat, key_ok: bool, verified: bool)
    ensures
        ({
            let v = crate::remote::signature_verdict(signature_len, key_ok, verified);
            &&& !key_ok ==> v == Err::<CommandVerdict, ErrorView>(
                ErrorView::Crypto("organization public key is malformed"@),
            )
            &&& key_ok && signature_len != 64 ==> v == Err::<CommandVerdict, ErrorView>(
                ErrorView::Crypto("signature has the wrong length"@),
            )
        }),
{
}

/// An endpoint that acts on a command goes on to accept newer ones: after
/// remembering it, a correctly signed command that was issued later, even by a
/// second, and that is otherwise in order, is accepted.
pub proof fn law_a_newer_command_is_accepted(
    command: CommandView,
    newer: CommandView,
    now: i64,
    current_timeout: u64,
    guard: GuardView,
)
    requires
        newer.issued_at > command.issued_at,
        newer.issued_at > guard.newest_accepted,
        newer.nonce != command.nonce,
        !guard.nonces.contains(newer.nonce),
        newer.issued_at - 300 <= now <= newer.expires_at,
        !(newer.action is TightenPolicy),
        newer.signature.len() == 64,
    ensures
        crate::remote::verdict(
            newer,
            newer.vault_id,
            now,
            current_timeout,
            guard.remembering(command.nonce, command.issued_at),
            true,
            true,
        ) == Ok::<CommandVerdict, ErrorView>(CommandVerdict::Accepted),
{
    crate::remote::replay::law_seen_is_what_was_remembered(
        guard,
        command.nonce,
        command.issued_at,
        newer.nonce,
    );
}

/// Only shortening the timeout, or leaving it as it is, is not weakening; no
/// other action weakens.
pub proof fn law_weakening_is_lengthening_the_timeout(
    action: CommandAction,
    timeout: u64,
    current_timeout: u64,
)
    ensures
        (CommandAction::TightenPolicy { timeout_seconds: timeout }).weakens(current_timeout)
            <==> timeout > current_timeout,
        !CommandAction::Lock.weakens(current_timeout),
        !CommandAction::RequireCheckIn.weakens(current_timeout),
        !CommandAction::Destroy.weakens(current_timeout),
{
}

/// The words for two verdicts are different, and so are the names of two kinds
/// of action.
pub proof fn law_labels_tell_apart(
    v: CommandVerdict,
    w: CommandVerdict,
    a: CommandAction,
    b: CommandAction,
)
    ensures
        v.words() == w.words() ==> v == w,
        a.name() == b.name() ==> {
            &&& a is Lock <==> b is Lock
            &&& a is RequireCheckIn <==> b is RequireCheckIn
            &&& a is TightenPolicy <==> b is TightenPolicy
            &&& a is Destroy <==> b is Destroy
        },
{
    lemma_name_len(a);
    lemma_name_len(b);
    reveal_strlit("ACCEPTED");
    reveal_strlit("REFUSED: signature does not verify");
    reveal_strlit("REFUSED: issued for a different vault");
    reveal_strlit("REFUSED: expired");
    reveal_strlit("REFUSED: issued in the future");
    reveal_strlit("REFUSED: nonce already used");
    reveal_strlit("REFUSED: would reduce protection");
    assert(v.words().len() == match v {
        CommandVerdict::Accepted => 8nat,
        CommandVerdict::BadSignature => 34,
        CommandVerdict::WrongVault => 37,
        CommandVerdict::Expired => 16,
        CommandVerdict::NotYetValid => 29,
        CommandVerdict::Replayed => 27,
        CommandVerdict::WouldWeaken => 32,
    });
    assert(w.words().len() == match w {
        CommandVerdict::Accepted => 8nat,
        CommandVerdict::BadSignature => 34,
        CommandVerdict::WrongVault => 37,
        CommandVerdict::Expired => 16,
        CommandVerdict::NotYetValid => 29,
        CommandVerdict::Replayed => 27,
        CommandVerdict::WouldWeaken => 32,
    });
}

/// Destroying is the one action that destroys.
pub proof fn law_only_destroying_destroys(timeout_seconds: u64)
    ensures
        CommandAction::Destroy.destroys(),
        !CommandAction::Lock.destroys(),
        !CommandAction::RequireCheckIn.destroys(),
        !(CommandAction::TightenPolicy { timeout_seconds }).destroys(),
{
}

} // verus!
