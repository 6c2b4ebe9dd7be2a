//! Removing a container and everything written beside it.
//!
//! Used after a duress extraction has handed over the decoy contents. The real
//! key is already destroyed, so the container holds only unreadable bytes and
//! a decoy, and what lies beside it describes a vault that no longer opens.

use crate::text::join2;
use crate::vault::Vault;
use vstd::prelude::*;

verus! {

/// Below this size a file is overwritten before it is removed.
pub const OVERWRITE_BELOW: u64 = 67108864;

/// Below this size an unfinished export is overwritten before it is removed.
pub const WIPE_BELOW: u64 = 536870912;

/// What is appended to a vault's name for each file that may lie beside it,
/// the container itself first.
pub open spec fn suffixes() -> Seq<Seq<char>> {
    seq![
        ""@,
        ".audit"@,
        ".journal"@,
        ".policy"@,
        ".split"@,
        ".custodian"@,
        ".watch"@,
        ".watch.stop"@,
        ".decoy-build"@,
    ]
}

/// The names of everything that is removed.
pub open spec fn targets(base: Seq<char>) -> Seq<Seq<char>> {
    suffixes().map_values(|s: Seq<char>| base + s)
}

/// The views of names.
pub open spec fn names_of(names: Seq<String>) -> Seq<Seq<char>> {
    names.map_values(|s: String| s@)
}

/// What became of one file.
#[derive(Debug, Clone, Copy, PartialEq, Eq, Structural)]
pub enum Removal {
    /// There was no such file.
    Absent,
    Removed,
    /// It is still there.
    Failed,
}

/// The names of the files that survived, in order.
pub open spec fn survivors(names: Seq<Seq<char>>, outcomes: Seq<Removal>) -> Seq<Seq<char>>
    decreases names.len(),
{
    if names.len() == 0 {
        Seq::empty()
    } else {
        let before = survivors(names.drop_last(), outcomes.drop_last());
        if outcomes.last() == Removal::Failed {
            before.push(names.last())
        } else {
            before
        }
    }
}

/// Everything that is removed with a vault: the container, and what lies
/// beside it.
pub fn purge_targets(base: &str) -> (r: Vec<String>)
    ensures
        names_of(r@) == targets(base@),
{
    let mut r: Vec<String> = Vec::new();
    r.push(join2(base, ""));
    r.push(join2(base, ".audit"));
    r.push(join2(base, ".journal"));
    r.push(join2(base, ".policy"));
    r.push(join2(base, ".split"));
    r.push(join2(base, ".custodian"));
    r.push(join2(base, ".watch"));
    r.push(join2(base, ".watch.stop"));
    r.push(join2(base, ".decoy-build"));
    assert(names_of(r@) =~= targets(base@));
    r
}

/// A file that is overwritten before it is removed.
pub open spec fn overwritten_first(is_file: bool, len: u64) -> bool {
    is_file && 0 < len < OVERWRITE_BELOW
}

/// An unfinished export that is overwritten before it is removed.
pub open spec fn wiped_first(len: u64) -> bool {
    0 < len < WIPE_BELOW
}

/// Whether a file is overwritten before it is removed.
pub fn overwrites_first(is_file: bool, len: u64) -> (r: bool)
    ensures
        r == overwritten_first(is_file, len),
        r == (is_file && 0 < len < OVERWRITE_BELOW),
{
    is_file && len > 0 && len < OVERWRITE_BELOW
}

/// Whether an unfinished export, which holds plaintext, is overwritten before
/// it is removed.
pub fn wipes_first(len: u64) -> (r: bool)
    ensures
        r == wiped_first(len),
        r == (0 < len < WIPE_BELOW),
{
    len > 0 && len < WIPE_BELOW
}

impl<K> Vault<K> {
    /// Reports what could not be removed, given what became of each target.
    pub fn purge_all(path: &str, outcomes: &Vec<Removal>) -> (r: Vec<String>)
        requires
            outcomes@.len() == suffixes().len(),
        ensures
            names_of(r@) == survivors(targets(path@), outcomes@),
    {
        let all: Vec<String> = purge_targets(path);
        let mut r: Vec<String> = Vec::new();
        let mut i: usize = 0;
        assert(names_of(all@).len() == 9);
        assert(targets(path@).take(0) =~= Seq::<Seq<char>>::empty());
        assert(names_of(r@) =~= survivors(targets(path@).take(0), outcomes@.take(0)));
        while i < all.len()
            invariant
                i <= all@.len(),
                all@.len() == outcomes@.len(),
                names_of(all@) == targets(path@),
                names_of(r@) == survivors(
                    targets(path@).take(i as int),
                    outcomes@.take(i as int),
                ),
            decreases all@.len() - i,
        {
            let ghost before = r@;
            proof {
                let t = targets(path@).take(i + 1);
                assert(names_of(all@)[i as int] == all@[i as int]@);
                assert(t.drop_last() =~= targets(path@).take(i as int));
                assert(outcomes@.take(i + 1).drop_last() =~= outcomes@.take(i as int));
            }
            if outcomes[i] == Removal::Failed {
                r.push(all[i].clone());
                assert(names_of(r@) =~= names_of(before).push(all@[i as int]@));
            }
            i += 1;
        }
        assert(targets(path@).take(i as int) =~= targets(path@));
        assert(outcomes@.take(i as int) =~= outcomes@);
        r
    }
}

/// The report of a purge is honest: it is empty exactly if no file survived.
pub proof fn law_report_names_every_survivor(names: Seq<Seq<char>>, outcomes: Seq<Removal>)
    requires
        names.len() == outcomes.len(),
    ensures
        survivors(names, outcomes).len() == 0 <==> forall|i: int|
            0 <= i < outcomes.len() ==> outcomes[i] != Removal::Failed,
        forall|i: int|
            0 <= i < outcomes.len() && outcomes[i] == Removal::Failed ==> survivors(
                names,
                outcomes,
            ).contains(#[trigger] names[i]),
    decreases names.len(),
{
    if names.len() > 0 {
        let ns = names.drop_last();
        let os = outcomes.drop_last();
        law_report_names_every_survivor(ns, os);
        let before = survivors(ns, os);
        let all = survivors(names, outcomes);
        assert(forall|i: int| 0 <= i < os.len() ==> os[i] == outcomes[i]);
        assert(outcomes.last() == outcomes[outcomes.len() - 1]);
        if outcomes.last() == Removal::Failed {
            assert(all[all.len() - 1] == names.last());
        } else if before.len() == 0 {
            assert forall|i: int| 0 <= i < outcomes.len() implies outcomes[i] != Removal::Failed by {
                if i < os.len() {
                    assert(os[i] != Removal::Failed);
                }
            }
        }
        assert forall|i: int|
            0 <= i < outcomes.len() && outcomes[i] == Removal::Failed implies all.contains(
            #[trigger] names[i],
        ) by {
            if i < os.len() {
                assert(ns[i] == names[i]);
                assert(before.contains(ns[i]));
                let k = choose|k: int| 0 <= k < before.len() && before[k] == ns[i];
                assert(all[k] == names[i]);
            } else {
                assert(all[all.len() - 1] == names[i]);
            }
        }
    }
}

/// A purge reaches the container, the split bundle and the scratch file in
/// which a decoy is built.
pub proof fn law_purge_reaches_what_lies_beside(base: Seq<char>)
    ensures
        targets(base).len() == 9,
        targets(base).contains(base),
        targets(base).contains(base + ".split"@),
        targets(base).contains(base + ".decoy-build"@),
{
    reveal_strlit("");
    let t = targets(base);
    assert(base + ""@ =~= base);
    assert(t[0] == base);
    assert(t[4] == base + ".split"@);
    assert(t[8] == base + ".decoy-build"@);
}

/// As many names are reported as there are failures.
pub proof fn law_report_is_as_long_as_there_are_failures(
    names: Seq<Seq<char>>,
    outcomes: Seq<Removal>,
)
    requires
        names.len() == outcomes.len(),
    ensures
        survivors(names, outcomes).len() == outcomes.filter(
            |o: Removal| o == Removal::Failed,
        ).len(),
    decreases names.len(),
{
    reveal(Seq::filter);
    if names.len() > 0 {
        law_report_is_as_long_as_there_are_failures(names.drop_last(), outcomes.drop_last());
    }
}

/// Only what survived is reported.
pub proof fn law_report_names_only_survivors(
    names: Seq<Seq<char>>,
    outcomes: Seq<Removal>,
    k: int,
) -> (i: int)
    requires
        names.len() == outcomes.len(),
        0 <= k < survivors(names, outcomes).len(),
    ensures
        0 <= i < names.len(),
        outcomes[i] == Removal::Failed,
        names[i] == survivors(names, outcomes)[k],
    decreases names.len(),
{
    let before = survivors(names.drop_last(), outcomes.drop_last());
    if k < before.len() {
        law_report_names_only_survivors(names.drop_last(), outcomes.drop_last(), k)
    } else {
        names.len() - 1
    }
}

/// Everything that may lie beside a vault is removed with it, and nothing else:
/// each name is the vault's own with one of these endings, in this order.
pub proof fn law_purge_removes_exactly_these(base: Seq<char>)
    ensures
        targets(base) == seq![
            base,
            base + ".audit"@,
            base + ".journal"@,
            base + ".policy"@,
            base + ".split"@,
            base + ".custodian"@,
            base + ".watch"@,
            base + ".watch.stop"@,
            base + ".decoy-build"@,
        ],
{
    reveal_strlit("");
    assert(base + ""@ =~= base);
    assert(targets(base) =~= seq![
        base,
        base + ".audit"@,
        base + ".journal"@,
        base + ".policy"@,
        base + ".split"@,
        base + ".custodian"@,
        base + ".watch"@,
        base + ".watch.stop"@,
        base + ".decoy-build"@,
    ]);
}

} // verus!
