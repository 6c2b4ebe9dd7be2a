//! Refusing commands that were seen before.

use std::collections::{HashSet, VecDeque};
use vstd::prelude::*;

verus! {

broadcast use vstd::std_specs::hash::group_hash_axioms;

/// Nonces retained for same-second commands. Beyond this the high-water mark
/// is doing the work, and older nonces cannot be replayed anyway.
pub const NONCE_MEMORY: usize = 1024;

/// Refuses a command that has been seen, or that predates one already acted
/// on.
///
/// A set of nonces alone forgets everything when the service restarts, and
/// grows without bound in a process that runs for months. The high-water mark
/// fixes both: a command must be issued strictly after the newest one already
/// accepted, which is a single integer, survives a restart when persisted, and
/// cannot grow.
///
/// The nonces are kept alongside it, and bounded, so that a replay within a
/// single run is caught by the nonce.
#[derive(Debug)]
pub struct ReplayGuard {
    seen: HashSet<u128>,
    order: VecDeque<u128>,
    newest_accepted: i64,
}

/// A guard: the nonces it remembers, oldest first, and the newest time of
/// issue that was accepted.
#[verifier::ext_equal]
pub struct GuardView {
    pub nonces: Seq<Seq<u8>>,
    pub newest_accepted: i64,
}

/// The bytes of a nonce that is held as a number.
spec fn nonce_bytes(key: u128) -> Seq<u8> {
    vstd::bytes::spec_u128_to_le_bytes(key)
}

impl View for ReplayGuard {
    type V = GuardView;

    closed spec fn view(&self) -> GuardView {
        GuardView {
            nonces: self.order@.map_values(|k: u128| nonce_bytes(k)),
            newest_accepted: self.newest_accepted,
        }
    }
}

impl GuardView {
    /// A guard that remembers no nonce.
    pub open spec fn resumed(newest_accepted: i64) -> GuardView {
        GuardView { nonces: Seq::empty(), newest_accepted }
    }

    /// The nonces remembered are all different, and no more than fit.
    pub open spec fn wf(self) -> bool {
        &&& self.nonces.no_duplicates()
        &&& self.nonces.len() <= NONCE_MEMORY
    }

    /// Whether a nonce is remembered.
    pub open spec fn has_seen(self, nonce: Seq<u8>) -> bool {
        self.nonces.contains(nonce)
    }

    /// What has to be persisted for a restart.
    pub open spec fn mark(self) -> i64 {
        self.newest_accepted
    }

    /// Whether a command is no newer than one already acted on.
    pub open spec fn predates(self, issued_at: i64) -> bool {
        self.newest_accepted > 0 && issued_at <= self.newest_accepted
    }

    /// The guard with one nonce more, the oldest forgotten where there is no
    /// room, and the mark raised.
    pub open spec fn remembering(self, nonce: Seq<u8>, issued_at: i64) -> GuardView {
        GuardView {
            nonces: if self.has_seen(nonce) {
                self.nonces
            } else if self.nonces.len() < NONCE_MEMORY {
                self.nonces.push(nonce)
            } else {
                self.nonces.drop_first().push(nonce)
            },
            newest_accepted: if issued_at > self.newest_accepted {
                issued_at
            } else {
                self.newest_accepted
            },
        }
    }
}

/// Different numbers stand for different nonces.
proof fn lemma_nonce_bytes(a: u128, b: u128)
    ensures
        nonce_bytes(a).len() == 16,
        nonce_bytes(a) == nonce_bytes(b) ==> a == b,
{
    vstd::bytes::lemma_auto_spec_u128_to_from_le_bytes();
    assert(vstd::bytes::spec_u128_to_le_bytes(a).len() == 16);
    assert(vstd::bytes::spec_u128_to_le_bytes(b).len() == 16);
}

/// Holds a nonce as a number.
fn key_of(nonce: &[u8; 16]) -> (r: u128)
    ensures
        nonce_bytes(r) == nonce@,
{
    proof {
        vstd::bytes::lemma_auto_spec_u128_to_from_le_bytes();
    }
    vstd::bytes::u128_from_le_bytes(nonce.as_slice())
}

impl ReplayGuard {
    /// The nonces are held once each, in both collections, and are no more
    /// than fit.
    pub closed spec fn wf(self) -> bool {
        &&& self.order@.no_duplicates()
        &&& self.order@.len() <= NONCE_MEMORY
        &&& self.seen@ == self.order@.to_set()
    }

    /// What a guard remembers is in order: no nonce twice, and no more than fit.
    pub proof fn law_guard_is_bounded(self)
        requires
            self.wf(),
        ensures
            self@.wf(),
    {
        assert forall|i: int, j: int|
            0 <= i < self@.nonces.len() && 0 <= j < self@.nonces.len() && i
                != j implies self@.nonces[i] != self@.nonces[j] by {
            assert(self.order@[i] != self.order@[j]);
            lemma_nonce_bytes(self.order@[i], self.order@[j]);
        }
    }

    /// What both collections hold, in terms of bytes.
    proof fn lemma_contains(self, nonce: Seq<u8>, key: u128)
        requires
            self.wf(),
            nonce_bytes(key) == nonce,
        ensures
            self.seen@.contains(key) == self@.has_seen(nonce),
            self.order@.contains(key) == self@.has_seen(nonce),
    {
        if self.order@.contains(key) {
            let i = choose|i: int| 0 <= i < self.order@.len() && self.order@[i] == key;
            assert(self@.nonces[i] == nonce);
        }
        if self@.has_seen(nonce) {
            let i = choose|i: int| 0 <= i < self@.nonces.len() && self@.nonces[i] == nonce;
            lemma_nonce_bytes(self.order@[i], key);
            assert(self.order@[i] == key);
        }
    }

    /// A guard that has accepted nothing.
    pub fn new() -> (r: Self)
        ensures
            r.wf(),
            r@ == GuardView::resumed(0),
    {
        Self::resume_from(0)
    }

    /// Restores the mark after a restart.
    ///
    /// Without this the guard begins again at zero and every command issued
    /// since the beginning of time is acceptable once more.
    pub fn resume_from(newest_accepted: i64) -> (r: Self)
        ensures
            r.wf(),
            r@ == GuardView::resumed(newest_accepted),
    {
        let r = ReplayGuard { seen: HashSet::new(), order: VecDeque::new(), newest_accepted };
        proof {
            assert(r.seen@ =~= r.order@.to_set());
            assert(r@ =~= GuardView::resumed(newest_accepted));
        }
        r
    }

    /// The value to persist so that a restart does not reopen the window.
    pub fn high_water(&self) -> (r: i64)
        ensures
            r == self@.mark(),
            r == self@.newest_accepted,
    {
        self.newest_accepted
    }

    /// Remembers a nonce, without raising the mark.
    pub fn remember(&mut self, nonce: [u8; 16])
        requires
            old(self).wf(),
        ensures
            final(self).wf(),
            final(self)@ == old(self)@.remembering(nonce@, old(self)@.newest_accepted),
    {
        let at: i64 = self.newest_accepted;
        self.remember_at(nonce, at);
    }

    /// Remembers a nonce, and raises the mark to when its command was issued.
    pub fn remember_at(&mut self, nonce: [u8; 16], issued_at: i64)
        requires
            old(self).wf(),
        ensures
            final(self).wf(),
            final(self)@ == old(self)@.remembering(nonce@, issued_at),
    {
        let key: u128 = key_of(&nonce);
        let ghost before = *self;
        proof {
            before.lemma_contains(nonce@, key);
        }
        if self.seen.insert(key) {
            let ghost longer = before.order@.push(key);
            self.order.push_back(key);
            proof {
                assert(self.seen@ =~= longer.to_set()) by {
                    assert forall|k: u128| longer.to_set().contains(k) == (before.order@.contains(k)
                        || k == key) by {
                        if before.order@.contains(k) {
                            let i = choose|i: int|
                                0 <= i < before.order@.len() && before.order@[i] == k;
                            assert(longer[i] == k);
                        }
                        assert(longer[before.order@.len() as int] == key);
                        if longer.contains(k) && k != key {
                            let i = choose|i: int| 0 <= i < longer.len() && longer[i] == k;
                            assert(before.order@[i] == k);
                        }
                    }
                }
                assert forall|i: int, j: int|
                    0 <= i < longer.len() && 0 <= j < longer.len() && i != j implies longer[i]
                    != longer[j] by {
                    if i == before.order@.len() {
                        assert(before.order@.contains(before.order@[j]));
                    } else if j == before.order@.len() {
                        assert(before.order@.contains(before.order@[i]));
                    }
                }
                assert(longer.map_values(|k: u128| nonce_bytes(k)) =~= before@.nonces.push(nonce@));
            }
            if self.order.len() > NONCE_MEMORY {
                if let Some(oldest) = self.order.pop_front() {
                    self.seen.remove(&oldest);
                    proof {
                        let shorter = longer.drop_first();
                        assert(self.order@ =~= shorter);
                        assert(oldest == longer[0]);
                        assert forall|k: u128| #[trigger] shorter.contains(k) == (longer.contains(k)
                            && k != oldest) by {
                            if shorter.contains(k) {
                                let i = choose|i: int| 0 <= i < shorter.len() && shorter[i] == k;
                                assert(longer[i + 1] == k);
                            }
                            if longer.contains(k) && k != oldest {
                                let i = choose|i: int| 0 <= i < longer.len() && longer[i] == k;
                                assert(shorter[i - 1] == k);
                            }
                        }
                        assert(self.seen@ =~= shorter.to_set());
                        assert forall|i: int, j: int|
                            0 <= i < shorter.len() && 0 <= j < shorter.len() && i
                                != j implies shorter[i] != shorter[j] by {
                            assert(longer[i + 1] != longer[j + 1]);
                        }
                        assert(self.order@.map_values(|k: u128| nonce_bytes(k))
                            =~= before@.nonces.drop_first().push(nonce@));
                    }
                }
            }
        }
        proof {
            if before.seen@.contains(key) {
                assert(self.seen@ =~= before.seen@);
            }
        }
        if issued_at > self.newest_accepted {
            self.newest_accepted = issued_at;
        }
        assert(self@ =~= before@.remembering(nonce@, issued_at));
    }

    /// Whether a nonce is remembered.
    pub fn has_seen(&self, nonce: &[u8; 16]) -> (r: bool)
        requires
            self.wf(),
        ensures
            r == self@.has_seen(nonce@),
    {
        let key: u128 = key_of(nonce);
        proof {
            self.lemma_contains(nonce@, key);
        }
        self.seen.contains(&key)
    }

    /// Whether a command is no newer than one already acted on.
    ///
    /// Equal timestamps are refused, not only earlier ones. A replayed command
    /// carries the timestamp it was issued with, so accepting an equal value
    /// would let the newest accepted command be replayed for ever.
    pub fn predates_accepted(&self, issued_at: i64) -> (r: bool)
        ensures
            r == self@.predates(issued_at),
    {
        self.newest_accepted > 0 && issued_at <= self.newest_accepted
    }

    /// How many nonces are remembered.
    pub fn len(&self) -> (r: usize)
        requires
            self.wf(),
        ensures
            r == self@.nonces.len(),
            r <= NONCE_MEMORY,
    {
        proof {
            self.order@.unique_seq_to_set();
        }
        self.seen.len()
    }

    /// Whether no nonce is remembered.
    pub fn is_empty(&self) -> (r: bool)
        requires
            self.wf(),
        ensures
            r == (self@.nonces.len() == 0),
    {
        proof {
            self.order@.unique_seq_to_set();
        }
        self.seen.is_empty()
    }
}

impl Default for ReplayGuard {
    fn default() -> (r: Self)
        ensures
            r.wf(),
            r@ == GuardView::resumed(0),
    {
        ReplayGuard::new()
    }
}

/// Guards after a run of commands that were acted on, each with its nonce and
/// its time of issue.
pub open spec fn after_commands(g: GuardView, commands: Seq<(Seq<u8>, i64)>) -> GuardView
    decreases commands.len(),
{
    if commands.len() == 0 {
        g
    } else {
        after_commands(g, commands.drop_last()).remembering(
            commands.last().0,
            commands.last().1,
        )
    }
}

/// However many commands a guard remembers, it holds no more nonces than it
/// has room for, and none twice; and its mark never falls.
pub proof fn law_memory_is_bounded(g: GuardView, commands: Seq<(Seq<u8>, i64)>)
    requires
        g.wf(),
    ensures
        after_commands(g, commands).wf(),
        after_commands(g, commands).nonces.len() <= NONCE_MEMORY,
        after_commands(g, commands).newest_accepted >= g.newest_accepted,
    decreases commands.len(),
{
    if commands.len() > 0 {
        law_memory_is_bounded(g, commands.drop_last());
        let h = after_commands(g, commands.drop_last());
        let (nonce, at) = commands.last();
        let next = h.remembering(nonce, at);
        assert(next.nonces.no_duplicates()) by {
            if !h.has_seen(nonce) {
                assert forall|i: int| 0 <= i < h.nonces.len() implies h.nonces[i] != nonce by {
                    assert(h.nonces.contains(h.nonces[i]));
                }
            }
        }
    }
}

/// A nonce that was remembered is seen, and its time of issue is covered by
/// the mark.
pub proof fn law_remembered_is_seen(g: GuardView, nonce: Seq<u8>, issued_at: i64)
    ensures
        g.remembering(nonce, issued_at).has_seen(nonce),
        g.remembering(nonce, issued_at).newest_accepted >= issued_at,
        g.remembering(nonce, issued_at).newest_accepted >= g.newest_accepted,
{
    let next = g.remembering(nonce, issued_at);
    if !g.has_seen(nonce) {
        assert(next.nonces.last() == nonce);
    }
}

/// After a restart from the persisted mark, every command that was issued no
/// later than one already acted on is recognised as such, though its nonce is
/// forgotten; and a command issued later is not.
///
/// The mark counts from the first positive time of issue: a command issued at
/// or before the epoch is not covered by it.
pub proof fn law_restart_keeps_the_window_closed(
    g: GuardView,
    nonce: Seq<u8>,
    issued_at: i64,
    later: i64,
)
    requires
        issued_at > 0,
    ensures
        ({
            let mark = g.remembering(nonce, issued_at).newest_accepted;
            &&& GuardView::resumed(mark).predates(issued_at)
            &&& later > mark ==> !GuardView::resumed(mark).predates(later)
        }),
{
}

/// Remembering raises the mark to the time of issue, where that is newer, and
/// no further; and leaves it alone where it is not.
pub proof fn law_mark_is_the_newest_time_of_issue(g: GuardView, nonce: Seq<u8>, issued_at: i64)
    ensures
        issued_at >= g.newest_accepted ==> g.remembering(nonce, issued_at).newest_accepted
            == issued_at,
        issued_at <= g.newest_accepted ==> g.remembering(nonce, issued_at).newest_accepted
            == g.newest_accepted,
{
}

/// The mark after a run of commands is one of the times of issue, or the mark
/// that there was before, and none of them is newer.
pub proof fn law_mark_is_the_newest_of_a_run(g: GuardView, commands: Seq<(Seq<u8>, i64)>)
    ensures
        ({
            let mark = after_commands(g, commands).newest_accepted;
            &&& mark >= g.newest_accepted
            &&& forall|i: int| 0 <= i < commands.len() ==> mark >= (#[trigger] commands[i]).1
            &&& mark == g.newest_accepted || exists|i: int|
                0 <= i < commands.len() && mark == (#[trigger] commands[i]).1
        }),
    decreases commands.len(),
{
    if commands.len() > 0 {
        let init = commands.drop_last();
        law_mark_is_the_newest_of_a_run(g, init);
        let before = after_commands(g, init).newest_accepted;
        let mark = after_commands(g, commands).newest_accepted;
        assert(commands[commands.len() - 1] == commands.last());
        assert forall|i: int| 0 <= i < commands.len() implies mark >= (#[trigger] commands[i]).1 by {
            if i < init.len() {
                assert(init[i] == commands[i]);
            }
        }
        if mark == before && before != g.newest_accepted {
            let i = choose|i: int| 0 <= i < init.len() && before == (#[trigger] init[i]).1;
            assert(commands[i].1 == mark);
        }
    }
}

/// A command predates a guard exactly if something was accepted, after the
/// epoch, that was issued no earlier. So whatever was remembered, a command
/// issued strictly after all of it, however little, is not taken for an older
/// one.
pub proof fn law_newer_commands_still_work(
    g: GuardView,
    nonce: Seq<u8>,
    issued_at: i64,
    later: i64,
)
    ensures
        g.predates(later) <==> g.newest_accepted > 0 && later <= g.newest_accepted,
        later > issued_at && later > g.newest_accepted ==> !g.remembering(
            nonce,
            issued_at,
        ).predates(later),
        issued_at > 0 && later <= issued_at ==> g.remembering(nonce, issued_at).predates(later),
{
}

/// What a guard has seen is what it was told, and nothing else: the nonce just
/// remembered, and those that it held, the oldest of which it lets go of only
/// when it holds 1024 others.
pub proof fn law_seen_is_what_was_remembered(
    g: GuardView,
    nonce: Seq<u8>,
    issued_at: i64,
    other: Seq<u8>,
)
    ensures
        ({
            let next = g.remembering(nonce, issued_at);
            &&& next.has_seen(nonce)
            &&& next.has_seen(other) ==> other == nonce || g.nonces.contains(other)
            &&& g.nonces.contains(other) && g.nonces.len() < 1024 ==> next.has_seen(other)
            &&& g.nonces.contains(other) && g.nonces.contains(nonce) ==> next.has_seen(other)
            &&& forall|i: int| 0 < i < g.nonces.len() ==> next.has_seen(#[trigger] g.nonces[i])
            &&& g.has_seen(other) <==> g.nonces.contains(other)
            &&& !GuardView::resumed(issued_at).has_seen(other)
            &&& GuardView::resumed(issued_at).newest_accepted == issued_at
        }),
{
    let next = g.remembering(nonce, issued_at);
    law_remembered_is_seen(g, nonce, issued_at);
    if g.nonces.contains(other) {
        let i = choose|i: int| 0 <= i < g.nonces.len() && g.nonces[i] == other;
        if !g.has_seen(nonce) && g.nonces.len() < NONCE_MEMORY {
            assert(next.nonces[i] == other);
        }
    }
    assert forall|i: int| 0 < i < g.nonces.len() implies next.has_seen(#[trigger] g.nonces[i]) by {
        if g.has_seen(nonce) || g.nonces.len() < NONCE_MEMORY {
            assert(next.nonces[i] == g.nonces[i]);
        } else {
            assert(next.nonces[i - 1] == g.nonces[i]);
        }
    }
    if next.has_seen(other) && other != nonce {
        let i = choose|i: int| 0 <= i < next.nonces.len() && next.nonces[i] == other;
        if g.has_seen(nonce) {
            assert(g.nonces[i] == other);
        } else if g.nonces.len() < NONCE_MEMORY {
            assert(g.nonces[i] == other);
        } else {
            assert(g.nonces[i + 1] == other);
        }
    }
}

/// A guard remembers the last 1024 different nonces that it was told: of a run
/// of that many, each different from the others and from what it held, every
/// one is seen at the end.
pub proof fn law_last_nonces_are_remembered(
    g: GuardView,
    commands: Seq<(Seq<u8>, i64)>,
    i: int,
)
    requires
        g.nonces.len() <= 1024,
        commands.len() <= 1024,
        0 <= i < commands.len(),
        forall|a: int, b: int|
            0 <= a < b < commands.len() ==> (#[trigger] commands[a]).0 != (#[trigger] commands[b]).0,
        forall|a: int| 0 <= a < commands.len() ==> !g.nonces.contains((#[trigger] commands[a]).0),
    ensures
        after_commands(g, commands).has_seen(commands[i].0),
{
    lemma_run_of_new_nonces(g, commands);
    let n = after_commands(g, commands).nonces;
    let k = n.len() - commands.len() + i;
    assert(n[k] == commands[i].0);
}

/// New nonces stand at the end, in order.
proof fn lemma_run_of_new_nonces(g: GuardView, commands: Seq<(Seq<u8>, i64)>)
    requires
        g.nonces.len() <= 1024,
        commands.len() <= 1024,
        forall|a: int, b: int|
            0 <= a < b < commands.len() ==> (#[trigger] commands[a]).0 != (#[trigger] commands[b]).0,
        forall|a: int| 0 <= a < commands.len() ==> !g.nonces.contains((#[trigger] commands[a]).0),
    ensures
        ({
            let n = after_commands(g, commands).nonces;
            let old = n.len() - commands.len();
            &&& commands.len() <= n.len() <= 1024
            &&& forall|j: int|
                0 <= j < commands.len() ==> n[old + j] == (#[trigger] commands[j]).0
            &&& forall|j: int| 0 <= j < old ==> g.nonces.contains(#[trigger] n[j])
        }),
    decreases commands.len(),
{
    if commands.len() > 0 {
        let init = commands.drop_last();
        assert forall|a: int, b: int| 0 <= a < b < init.len() implies (#[trigger] init[a]).0 != (
        #[trigger] init[b]).0 by {
            assert(init[a] == commands[a] && init[b] == commands[b]);
        }
        assert forall|a: int| 0 <= a < init.len() implies !g.nonces.contains(
            (#[trigger] init[a]).0,
        ) by {
            assert(init[a] == commands[a]);
        }
        lemma_run_of_new_nonces(g, init);
        let h = after_commands(g, init);
        let last = commands[commands.len() - 1];
        let n = after_commands(g, commands).nonces;
        if h.has_seen(last.0) {
            let j = choose|j: int| 0 <= j < h.nonces.len() && h.nonces[j] == last.0;
            let old = h.nonces.len() - init.len();
            if j < old {
                assert(g.nonces.contains(h.nonces[j]));
            } else {
                assert(init[j - old] == commands[j - old]);
                assert(h.nonces[old + (j - old)] == init[j - old].0);
            }
            assert(false);
        }
        let old = n.len() - commands.len();
        assert forall|j: int| 0 <= j < commands.len() implies n[old + j] == (
        #[trigger] commands[j]).0 by {
            if j < init.len() {
                assert(init[j] == commands[j]);
                assert(h.nonces[h.nonces.len() - init.len() + j] == init[j].0);
            }
        }
        assert forall|j: int| 0 <= j < old implies g.nonces.contains(#[trigger] n[j]) by {
            if h.nonces.len() < NONCE_MEMORY {
                assert(n[j] == h.nonces[j]);
            } else {
                assert(n[j] == h.nonces[j + 1]);
            }
        }
    } else {
        assert forall|j: int| 0 <= j < g.nonces.len() implies g.nonces.contains(
            #[trigger] g.nonces[j],
        ) by {}
    }
}

/// A guard that is resumed from the mark of another takes the same commands for
/// older ones, neither more nor fewer; and a new guard takes none for one.
pub proof fn law_restart_changes_no_answer(g: GuardView, issued_at: i64)
    ensures
        GuardView::resumed(g.mark()).predates(issued_at) <==> g.predates(issued_at),
        GuardView::resumed(g.mark()).mark() == g.mark(),
        g.mark() == g.newest_accepted,
        !GuardView::resumed(0).predates(issued_at),
        GuardView::resumed(0).nonces.len() == 0,
{
}

} // verus!
