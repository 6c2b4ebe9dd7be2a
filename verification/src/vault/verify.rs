//! Verifying a vault without exporting anything.

use crate::error::{Error, ErrorView};
use crate::le::same_bytes;
use crate::suite::VaultId;
use crate::vault::{Vault, VaultView};
use vstd::prelude::*;

verus! {

/// How sure one can be of something.
#[derive(Debug, Clone, Copy, PartialEq, Eq, Structural)]
pub enum Assurance {
    Verified,
    Failed,
}

/// Outcome of a verification, reported check by check rather than as one
/// boolean.
#[derive(Debug, Clone)]
pub struct VerifyReport {
    pub vault_id: VaultId,
    pub header_authentic: Assurance,
    pub manifest_authentic: Assurance,
    pub chunks_checked: usize,
    pub chunks_failed: usize,
    pub integrity_root_matches: Assurance,
    pub entries: usize,
    pub plaintext_bytes: u64,
    pub ciphertext_bytes: u64,
}

/// A report, with its bytes as a sequence.
pub struct ReportView {
    pub vault_id: Seq<u8>,
    pub header_authentic: Assurance,
    pub manifest_authentic: Assurance,
    pub chunks_checked: nat,
    pub chunks_failed: nat,
    pub integrity_root_matches: Assurance,
    pub entries: nat,
    pub plaintext_bytes: u64,
    pub ciphertext_bytes: u64,
}

impl View for VerifyReport {
    type V = ReportView;

    open spec fn view(&self) -> ReportView {
        ReportView {
            vault_id: self.vault_id@,
            header_authentic: self.header_authentic,
            manifest_authentic: self.manifest_authentic,
            chunks_checked: self.chunks_checked as nat,
            chunks_failed: self.chunks_failed as nat,
            integrity_root_matches: self.integrity_root_matches,
            entries: self.entries as nat,
            plaintext_bytes: self.plaintext_bytes,
            ciphertext_bytes: self.ciphertext_bytes,
        }
    }
}

impl ReportView {
    /// Nothing was found wrong.
    pub open spec fn intact(self) -> bool {
        &&& self.header_authentic == Assurance::Verified
        &&& self.manifest_authentic == Assurance::Verified
        &&& self.integrity_root_matches == Assurance::Verified
        &&& self.chunks_failed == 0
    }

    /// The report with one more chunk checked.
    pub open spec fn plus(self, readable: bool) -> ReportView {
        ReportView {
            chunks_checked: self.chunks_checked + 1,
            chunks_failed: self.chunks_failed + if readable {
                0nat
            } else {
                1
            },
            ..self
        }
    }

    /// The report with several more chunks checked.
    pub open spec fn tally(self, readable: Seq<bool>) -> ReportView
        decreases readable.len(),
    {
        if readable.len() == 0 {
            self
        } else {
            self.tally(readable.drop_last()).plus(readable.last())
        }
    }
}

impl<K> VaultView<K> {
    /// The report before any chunk was checked. `root` is what the contents
    /// come to.
    pub open spec fn report(
        self,
        root: Seq<u8>,
        plaintext_bytes: u64,
        ciphertext_bytes: u64,
    ) -> ReportView {
        ReportView {
            vault_id: self.header.vault_id,
            header_authentic: Assurance::Verified,
            manifest_authentic: Assurance::Verified,
            chunks_checked: 0,
            chunks_failed: 0,
            integrity_root_matches: if root == self.manifest.integrity_root
                && self.manifest.integrity_root == self.header.integrity_root {
                Assurance::Verified
            } else {
                Assurance::Failed
            },
            entries: self.manifest.entries.len(),
            plaintext_bytes,
            ciphertext_bytes,
        }
    }
}

impl<K> Vault<K> {
    /// Begins a report. `root` is what the contents come to by the manifest as
    /// it was sealed (see [`Vault::recorded`]), and the sizes are what it adds
    /// up to.
    ///
    /// That header and manifest are authentic was proven when the vault was
    /// opened: the header prefix by the successful unwrap, the manifest by its
    /// own seal.
    pub fn verify(&self, root: [u8; 32], plaintext_bytes: u64, ciphertext_bytes: u64) -> (r: Result<
        VerifyReport,
        Error,
    >)
        ensures
            match r {
                Ok(p) => self@.master is Some && p@ == self@.report(
                    root@,
                    plaintext_bytes,
                    ciphertext_bytes,
                ),
                Err(e) => self@.master is None && e@ == ErrorView::Locked,
            },
    {
        if self.master.is_none() {
            return Err(Error::Locked);
        }
        let agrees: bool = same_bytes(root.as_slice(), self.manifest.integrity_root.as_slice())
            && same_bytes(
            self.manifest.integrity_root.as_slice(),
            self.header.integrity_root.as_slice(),
        );
        Ok(
            VerifyReport {
                vault_id: self.header.vault_id,
                header_authentic: Assurance::Verified,
                manifest_authentic: Assurance::Verified,
                chunks_checked: 0,
                chunks_failed: 0,
                integrity_root_matches: if agrees {
                    Assurance::Verified
                } else {
                    Assurance::Failed
                },
                entries: self.manifest.entries.len(),
                plaintext_bytes,
                ciphertext_bytes,
            },
        )
    }
}

impl VerifyReport {
    /// Records whether a chunk could be read.
    pub fn record(&mut self, readable: bool)
        requires
            old(self).chunks_checked < usize::MAX,
            old(self).chunks_failed < usize::MAX,
        ensures
            final(self)@ == old(self)@.plus(readable),
    {
        self.chunks_checked = self.chunks_checked + 1;
        if !readable {
            self.chunks_failed = self.chunks_failed + 1;
        }
    }

    /// Whether nothing was found wrong.
    pub fn is_intact(&self) -> (r: bool)
        ensures
            r == self@.intact(),
    {
        self.header_authentic == Assurance::Verified && self.manifest_authentic
            == Assurance::Verified && self.integrity_root_matches == Assurance::Verified
            && self.chunks_failed == 0
    }
}

/// How many of some outcomes are failures.
pub open spec fn failures(readable: Seq<bool>) -> nat
    decreases readable.len(),
{
    if readable.len() == 0 {
        0
    } else {
        failures(readable.drop_last()) + if readable.last() {
            0nat
        } else {
            1
        }
    }
}

/// There is no failure exactly if every outcome is good.
proof fn lemma_failures(readable: Seq<bool>)
    ensures
        failures(readable) == 0 <==> forall|i: int| 0 <= i < readable.len() ==> readable[i],
        failures(readable) <= readable.len(),
    decreases readable.len(),
{
    if readable.len() > 0 {
        lemma_failures(readable.drop_last());
        assert(forall|i: int| 0 <= i < readable.len() - 1 ==> readable.drop_last()[i]
            == readable[i]);
        assert(readable.last() == readable[readable.len() - 1]);
        if forall|i: int| 0 <= i < readable.drop_last().len() ==> readable.drop_last()[i] {
            assert forall|i: int| 0 <= i < readable.len() && readable.last() implies readable[i] by {
                if i < readable.len() - 1 {
                    assert(readable.drop_last()[i]);
                }
            }
        }
    }
}

/// A report counts every chunk that was checked and every one that failed, and
/// calls the vault intact exactly if the integrity roots agree and every chunk
/// could be read.
pub proof fn law_report_is_faithful<K>(
    v: VaultView<K>,
    root: Seq<u8>,
    plaintext_bytes: u64,
    ciphertext_bytes: u64,
    readable: Seq<bool>,
)
    ensures
        ({
            let p = v.report(root, plaintext_bytes, ciphertext_bytes).tally(readable);
            &&& p.chunks_checked == readable.len()
            &&& p.chunks_failed == failures(readable)
            &&& p.intact() <==> {
                &&& root == v.manifest.integrity_root
                &&& v.manifest.integrity_root == v.header.integrity_root
                &&& forall|i: int| 0 <= i < readable.len() ==> readable[i]
            }
        }),
    decreases readable.len(),
{
    lemma_failures(readable);
    lemma_tally(v.report(root, plaintext_bytes, ciphertext_bytes), readable);
}

/// Tallying changes the two counts only.
proof fn lemma_tally(p: ReportView, readable: Seq<bool>)
    ensures
        p.tally(readable) == (ReportView {
            chunks_checked: p.chunks_checked + readable.len(),
            chunks_failed: p.chunks_failed + failures(readable),
            ..p
        }),
    decreases readable.len(),
{
    if readable.len() > 0 {
        lemma_tally(p, readable.drop_last());
    }
}

/// A report speaks of the vault it was made of: its identifier, how many
/// entries it has, and the sizes they add up to; before any chunk is checked
/// nothing is counted. Each chunk that is checked counts once, and counts as a
/// failure exactly if it could not be read.
pub proof fn law_report_counts_what_was_checked<K>(
    v: VaultView<K>,
    root: Seq<u8>,
    plaintext_bytes: u64,
    ciphertext_bytes: u64,
    p: ReportView,
    readable: bool,
)
    ensures
        ({
            let r = v.report(root, plaintext_bytes, ciphertext_bytes);
            &&& r.vault_id == v.header.vault_id
            &&& r.entries == v.manifest.entries.len()
            &&& r.plaintext_bytes == plaintext_bytes
            &&& r.ciphertext_bytes == ciphertext_bytes
            &&& r.chunks_checked == 0
            &&& r.chunks_failed == 0
            &&& r.header_authentic == Assurance::Verified
            &&& r.manifest_authentic == Assurance::Verified
            &&& r.integrity_root_matches == Assurance::Verified <==> root
                == v.manifest.integrity_root && root == v.header.integrity_root
        }),
        ({
            let q = p.plus(readable);
            &&& q == (ReportView {
                chunks_checked: q.chunks_checked,
                chunks_failed: q.chunks_failed,
                ..p
            })
            &&& q.chunks_checked - p.chunks_checked == 1
            &&& readable ==> q.chunks_failed == p.chunks_failed
            &&& !readable ==> q.chunks_failed - p.chunks_failed == 1
        }),
        p.intact() <==> p.header_authentic is Verified && p.manifest_authentic is Verified
            && p.integrity_root_matches is Verified && p.chunks_failed == 0,
{
}

} // verus!
