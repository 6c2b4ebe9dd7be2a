//! Installing a duress password and the contents it reveals.
//!
//! The decoy is built as a complete second vault beside the real one, then
//! folded in: its chunks and its manifest are appended to the real container,
//! and its key, wrapped under the duress password, goes into the decoy block.
//! Nothing distinguishes the two identities from outside.

use crate::binding::decoy_aad;
use crate::container::{Op, OpView};
use crate::error::{Error, ErrorView};
use crate::format::{
    DecoySlot, DecoySlotView, HeaderView, DECOY_FILLER_LEN, V3_DATA_START, WRAPPED_KEY_LEN,
};
use crate::le::array_at;
use crate::lossy::from_utf8_lossy;
use crate::manifest::ManifestView;
use crate::paths::scratch_path;
use crate::similar::too_similar;
use crate::strength::require_acceptable;
use crate::suite::{FactorSet, KdfParams, VaultId};
use crate::text::{chars_of, join2, same_chars};
use crate::vault::save::{SealRequest, SealView, MAX_POSITION};
use crate::vault::{Identity, Vault, VaultOptions, VaultView, COMPRESSION_LEVEL};
use vstd::prelude::*;

verus! {

broadcast use crate::le::group_le;

/// A file that the decoy is to show: where it is, and whether it is there.
#[derive(Debug, PartialEq, Eq)]
pub struct Source {
    pub path: String,
    pub is_file: bool,
}

/// The first of some files that is not there.
pub open spec fn first_missing(sources: Seq<Source>) -> Option<Seq<char>>
    decreases sources.len(),
{
    if sources.len() == 0 {
        None
    } else if first_missing(sources.drop_last()) is Some {
        first_missing(sources.drop_last())
    } else if !sources.last().is_file {
        Some(sources.last().path@)
    } else {
        None
    }
}

/// Why two passwords cannot stand side by side, if they cannot.
pub open spec fn pair_refusal(real_text: Seq<char>, duress_text: Seq<char>) -> Option<ErrorView> {
    if real_text == duress_text {
        Some(ErrorView::Other("the duress password must be different from the real one"@))
    } else if crate::similar::alike(real_text, duress_text) {
        Some(
            ErrorView::Other(
                "the duress password is too close to the real one. Under pressure they would be confused, and confusing them destroys the vault. Choose a different phrase entirely"@,
            ),
        )
    } else {
        None
    }
}

/// Refuses a duress password that could be typed for the real one.
///
/// Checked here rather than in a front end, because a rule enforced in one of
/// two front ends is not enforced.
pub fn check_pair(real_text: &str, duress_text: &str) -> (r: Result<(), Error>)
    ensures
        match r {
            Ok(_) => pair_refusal(real_text@, duress_text@) is None,
            Err(e) => pair_refusal(real_text@, duress_text@) == Some(e@),
        },
{
    let a = chars_of(real_text);
    let b = chars_of(duress_text);
    if same_chars(&a, &b) {
        return Err(
            Error::Other("the duress password must be different from the real one".to_owned()),
        );
    }
    if too_similar(real_text, duress_text) {
        return Err(
            Error::Other(
                "the duress password is too close to the real one. Under pressure they would be confused, and confusing them destroys the vault. Choose a different phrase entirely".to_owned(),
            ),
        );
    }
    Ok(())
}

/// How a decoy will be built and folded in.
#[derive(Debug, PartialEq, Eq)]
pub struct DuressPlan {
    /// Where the decoy is built.
    pub scratch: String,
    /// Where the decoy region will begin in the real container.
    pub append_at: u64,
    /// How far everything in the decoy moves when it is folded in.
    pub shift: u64,
}

impl<K> VaultView<K> {
    /// Why a duress password cannot be installed, if it cannot.
    pub open spec fn duress_refusal(
        self,
        real_text: Seq<char>,
        duress_text: Seq<char>,
        sources: Seq<Source>,
        container_len: u64,
    ) -> Option<ErrorView> {
        if self.identity != Identity::Real {
            Some(ErrorView::Other("this handle is not the real vault"@))
        } else if sources.len() == 0 {
            Some(
                ErrorView::Other(
                    "a duress password needs something to show. An empty vault under coercion invites the question of what else there is"@,
                ),
            )
        } else if let Some(path) = first_missing(sources) {
            Some(
                ErrorView::Other(
                    path
                        + " is not a file that exists. Choose files already on this computer for the duress password to show"@,
                ),
            )
        } else if pair_refusal(real_text, duress_text) is Some {
            pair_refusal(real_text, duress_text)
        } else if !crate::strength::assessment(duress_text).acceptable() {
            Some(ErrorView::Other(crate::strength::assessment(duress_text).sentence()))
        } else if container_len < V3_DATA_START {
            Some(ErrorView::Format("file is too short to be an AZV vault"@))
        } else if container_len > MAX_POSITION {
            Some(ErrorView::Io("the position is beyond the end of any file"@))
        } else {
            None
        }
    }
}

impl<K> VaultView<K> {
    /// The plan for a container of some length.
    pub open spec fn planned(self, container_len: u64, p: DuressPlan) -> bool {
        &&& p.scratch@ == self.path + ".decoy-build"@
        &&& p.append_at == container_len
        &&& p.shift == container_len - V3_DATA_START
    }

    /// The settings that a decoy is made with.
    pub open spec fn decoy_settings(self, password_only: FactorSet) -> VaultOptions {
        VaultOptions {
            crypto_suite: self.header.crypto_suite,
            compress_suite: self.header.compress_suite,
            kdf_params: self.header.kdf_params,
            compression_level: COMPRESSION_LEVEL,
            factors: password_only,
        }
    }

    /// What the key that wraps a decoy's key is derived from.
    pub open spec fn duress_kek_basis(self, decoy: HeaderView) -> (Seq<u8>, KdfParams) {
        (decoy.kdf_salt, self.header.kdf_params)
    }

    /// What a decoy's key is wrapped under.
    pub open spec fn duress_seal(self, nonce: Seq<u8>) -> SealView {
        SealView {
            suite: self.header.crypto_suite,
            nonce: self.header.crypto_suite.nonce_of(nonce),
            aad: crate::binding::decoy_binding(self.header.vault_id),
        }
    }
}

/// Finds the first file that is not there.
fn find_missing(sources: &Vec<Source>) -> (r: Option<usize>)
    ensures
        match r {
            Some(i) => i < sources@.len() && first_missing(sources@) == Some(
                sources@[i as int].path@,
            ),
            None => first_missing(sources@) is None,
        },
{
    let mut found: Option<usize> = None;
    let mut i: usize = 0;
    assert(sources@.take(0) =~= Seq::<Source>::empty());
    while i < sources.len()
        invariant
            i <= sources@.len(),
            match found {
                Some(k) => k < i && first_missing(sources@.take(i as int)) == Some(
                    sources@[k as int].path@,
                ),
                None => first_missing(sources@.take(i as int)) is None,
            },
        decreases sources@.len() - i,
    {
        assert(sources@.take(i + 1).drop_last() =~= sources@.take(i as int));
        if found.is_none() && !sources[i].is_file {
            found = Some(i);
        }
        i += 1;
    }
    assert(sources@.take(i as int) =~= sources@);
    found
}

impl<K> Vault<K> {
    /// Begins to install a duress password. `container_len` is how long the
    /// real container is. Everything that speaks against it is told now, when
    /// nothing has been written yet.
    ///
    /// The format of the container does not matter here. One before format 3
    /// has no block of its own: the slot is then written over the bytes that
    /// follow the header, and is not looked for when the vault is opened.
    pub fn set_duress_password(
        &self,
        real_password: &[u8],
        duress_password: &[u8],
        sources: &Vec<Source>,
        container_len: u64,
    ) -> (r: Result<DuressPlan, Error>)
        ensures
            ({
                let refusal = self@.duress_refusal(
                    crate::lossy::utf8_lossy_text(real_password@),
                    crate::lossy::utf8_lossy_text(duress_password@),
                    sources@,
                    container_len,
                );
                match r {
                    Ok(p) => {
                        &&& refusal is None
                        &&& self@.planned(container_len, p)
                        &&& p.scratch@ == self@.path + ".decoy-build"@
                        &&& p.append_at == container_len
                        &&& p.shift == container_len - V3_DATA_START
                    },
                    Err(e) => refusal == Some(e@),
                }
            }),
    {
        let real_text = from_utf8_lossy(real_password);
        let duress_text = from_utf8_lossy(duress_password);
        self.plan_duress(real_text.as_str(), duress_text.as_str(), sources, container_len)
    }

    /// The same, for passwords that are already text.
    pub fn plan_duress(
        &self,
        real_text: &str,
        duress_text: &str,
        sources: &Vec<Source>,
        container_len: u64,
    ) -> (r: Result<DuressPlan, Error>)
        ensures
            ({
                let refusal = self@.duress_refusal(
                    real_text@,
                    duress_text@,
                    sources@,
                    container_len,
                );
                match r {
                    Ok(p) => {
                        &&& refusal is None
                        &&& self@.planned(container_len, p)
                        &&& p.scratch@ == self@.path + ".decoy-build"@
                        &&& p.append_at == container_len
                        &&& p.shift == container_len - V3_DATA_START
                    },
                    Err(e) => refusal == Some(e@),
                }
            }),
    {
        if self.identity != Identity::Real {
            return Err(Error::Other("this handle is not the real vault".to_owned()));
        }
        if sources.len() == 0 {
            return Err(
                Error::Other(
                    "a duress password needs something to show. An empty vault under coercion invites the question of what else there is".to_owned(),
                ),
            );
        }
        // Checked before any work, so that a mistyped path fails cleanly.
        if let Some(i) = find_missing(sources) {
            return Err(
                Error::Other(
                    join2(
                        sources[i].path.as_str(),
                        " is not a file that exists. Choose files already on this computer for the duress password to show",
                    ),
                ),
            );
        }
        if let Err(e) = check_pair(real_text, duress_text) {
            return Err(e);
        }
        // The decoy is made like any other vault, under the same floor; told
        // here, before anything is written.
        if let Err(e) = require_acceptable(duress_text) {
            return Err(e);
        }
        if container_len < V3_DATA_START {
            return Err(Error::Format("file is too short to be an AZV vault".to_owned()));
        }
        if container_len > MAX_POSITION {
            return Err(Error::Io("the position is beyond the end of any file".to_owned()));
        }
        Ok(
            DuressPlan {
                scratch: scratch_path(self.path.as_str()),
                append_at: container_len,
                shift: container_len - V3_DATA_START,
            },
        )
    }

    /// The settings that the decoy is made with: those of the real vault, with
    /// the password alone.
    pub fn decoy_options(&self, password_only: FactorSet) -> (r: VaultOptions)
        ensures
            r == self@.decoy_settings(password_only),
            r == (VaultOptions {
                crypto_suite: self@.header.crypto_suite,
                compress_suite: self@.header.compress_suite,
                kdf_params: self@.header.kdf_params,
                compression_level: COMPRESSION_LEVEL,
                factors: password_only,
            }),
    {
        VaultOptions::new(
            self.header.crypto_suite,
            self.header.compress_suite,
            self.header.kdf_params,
            password_only,
        )
    }
}

/// Every chunk can be moved on without its position overflowing.
pub open spec fn can_shift(m: ManifestView, shift: u64) -> bool {
    forall|i: int, k: int|
        0 <= i < m.entries.len() && 0 <= k < m.entries[i].chunks.len()
            ==> (#[trigger] m.entries[i].chunks[k]).offset + shift <= u64::MAX
}

impl<K> VaultView<K> {
    /// The decoy as it will be once it is folded into another container: under
    /// that container's identifier, with its chunks where they will lie.
    pub open spec fn rebased(self, vault_id: Seq<u8>, shift: u64) -> VaultView<K> {
        VaultView {
            header: HeaderView { vault_id, ..self.header },
            manifest: self.manifest.slid(shift),
            ..self
        }
    }
}

impl<K> Vault<K> {
    /// Whether every chunk can be moved on.
    fn fits_shift(&self, shift: u64) -> (r: bool)
        ensures
            r == can_shift(self@.manifest, shift),
    {
        let mut i: usize = 0;
        while i < self.manifest.entries.len()
            invariant
                i <= self.manifest.entries@.len(),
                forall|a: int, b: int|
                    0 <= a < i && 0 <= b < self@.manifest.entries[a].chunks.len()
                        ==> (#[trigger] self@.manifest.entries[a].chunks[b]).offset + shift
                        <= u64::MAX,
            decreases self.manifest.entries@.len() - i,
        {
            let e = &self.manifest.entries[i];
            assert(self@.manifest.entries[i as int] == e@);
            let mut k: usize = 0;
            while k < e.chunks.len()
                invariant
                    i < self.manifest.entries@.len(),
                    *e == self.manifest.entries@[i as int],
                    self@.manifest.entries[i as int] == e@,
                    k <= e.chunks@.len(),
                    forall|b: int|
                        0 <= b < k ==> (#[trigger] self@.manifest.entries[i as int].chunks[b]).offset
                            + shift <= u64::MAX,
                decreases e.chunks@.len() - k,
            {
                assert(self@.manifest.entries[i as int].chunks[k as int] == e.chunks@[k as int]@);
                if e.chunks[k].offset > u64::MAX - shift {
                    assert(self@.manifest.entries[i as int].chunks[k as int].offset + shift
                        > u64::MAX);
                    return false;
                }
                k += 1;
            }
            i += 1;
        }
        true
    }

    /// Makes a decoy ready to be folded into another container.
    ///
    /// Its manifest is authenticated against a vault identifier, and will be
    /// read back through the real container's header; and every offset in it
    /// has to be written in the real container's coordinates.
    pub fn rebase(&mut self, vault_id: VaultId, shift: u64) -> (r: Result<(), Error>)
        ensures
            match r {
                Ok(_) => can_shift(old(self)@.manifest, shift) && final(self)@
                    == old(self)@.rebased(vault_id@, shift),
                Err(e) => {
                    &&& !can_shift(old(self)@.manifest, shift)
                    &&& e@ == ErrorView::Io("the position is beyond the end of any file"@)
                    &&& final(self)@ == old(self)@
                },
            },
    {
        if !self.fits_shift(shift) {
            return Err(Error::Io("the position is beyond the end of any file".to_owned()));
        }
        let ghost before = self@;
        self.manifest.slide(shift);
        self.header.vault_id = vault_id;
        assert(self@ =~= before.rebased(vault_id@, shift));
        Ok(())
    }
}

/// What a decoy is folded in with: its key wrapped under the duress password,
/// and the scratch container it was built in.
pub struct Folding {
    pub nonce: [u8; 24],
    pub wrapped: Vec<u8>,
    pub scratch: Vec<u8>,
}

/// A folding, with its bytes as sequences.
pub struct FoldingView {
    pub nonce: Seq<u8>,
    pub wrapped: Seq<u8>,
    pub scratch: Seq<u8>,
}

impl View for Folding {
    type V = FoldingView;

    open spec fn view(&self) -> FoldingView {
        FoldingView { nonce: self.nonce@, wrapped: self.wrapped@, scratch: self.scratch@ }
    }
}

impl FoldingView {
    /// What is appended to the real container: everything behind the scratch
    /// container's header and block.
    pub open spec fn body(self) -> Seq<u8> {
        self.scratch.skip(V3_DATA_START as int)
    }

    /// Why a decoy is not folded in, if it is not. `len` is how long the real
    /// container is now.
    pub open spec fn refusal(self, decoy: HeaderView, plan: DuressPlan, len: u64) -> Option<
        ErrorView,
    > {
        if self.wrapped.len() != WRAPPED_KEY_LEN {
            Some(ErrorView::Crypto("unexpected wrapped key length"@))
        } else if self.scratch.len() <= V3_DATA_START {
            Some(ErrorView::Other("the decoy vault is empty"@))
        } else if len != plan.append_at {
            Some(
                ErrorView::Other(
                    "the vault changed while the duress contents were being prepared"@,
                ),
            )
        } else if decoy.manifest_offset + plan.shift > u64::MAX {
            Some(ErrorView::Io("the position is beyond the end of any file"@))
        } else {
            None
        }
    }

    /// The slot that points at the folded-in decoy.
    pub open spec fn slot(self, decoy: HeaderView, plan: DuressPlan) -> DecoySlotView {
        DecoySlotView {
            key_nonce: self.nonce,
            wrapped_key: self.wrapped,
            kdf_salt: decoy.kdf_salt,
            manifest_offset: (decoy.manifest_offset + plan.shift) as u64,
            manifest_len: decoy.manifest_len,
            body_offset: plan.append_at,
            body_len: self.body().len() as u64,
        }
    }

    /// The real header, with the slot in its block.
    pub open spec fn folded(
        self,
        header: HeaderView,
        decoy: HeaderView,
        plan: DuressPlan,
        filler: Seq<u8>,
    ) -> HeaderView {
        HeaderView { decoy: Some(self.slot(decoy, plan).image() + filler), ..header }
    }

    /// The changes that folding makes to the real container, in order.
    pub open spec fn ops(
        self,
        header: HeaderView,
        decoy: HeaderView,
        plan: DuressPlan,
        filler: Seq<u8>,
    ) -> Seq<OpView> {
        seq![
            OpView::Write { at: plan.append_at, data: self.body() },
            OpView::Write { at: 0, data: self.folded(header, decoy, plan, filler).head() },
        ]
    }
}

impl<K> Vault<K> {
    /// What the key that wraps the decoy's key is derived from: the decoy's
    /// salt, at the real vault's costs.
    pub fn duress_kek_request(&self, decoy: &Vault<K>) -> (r: ([u8; 32], KdfParams))
        ensures
            (r.0@, r.1) == self@.duress_kek_basis(decoy@.header),
            r.0@ == decoy@.header.kdf_salt,
            r.1 == self@.header.kdf_params,
    {
        (decoy.header.kdf_salt, self.header.kdf_params)
    }

    /// What the decoy's key is wrapped under. It does not commit to the real
    /// header, because the slot has to keep opening after the real wrapped key
    /// beside it has been overwritten.
    pub fn duress_wrap_request(&self, nonce: &[u8; 24]) -> (r: SealRequest)
        requires
            self@.wf(),
        ensures
            r@ == self@.duress_seal(nonce@),
            r.suite == self@.header.crypto_suite,
            r.nonce@ == self@.header.crypto_suite.nonce_of(nonce@),
            r.aad@ == crate::binding::decoy_binding(self@.header.vault_id),
    {
        SealRequest {
            suite: self.header.crypto_suite,
            nonce: self.header.crypto_suite.nonce(nonce),
            aad: decoy_aad(&self.header.vault_id),
        }
    }

    /// Folds a saved decoy into this container: gives the changes to make to
    /// it. `len` is how long the container is now, and `filler` fills the rest
    /// of the decoy block.
    pub fn fold_decoy(
        &mut self,
        decoy: &Vault<K>,
        plan: &DuressPlan,
        folding: Folding,
        len: u64,
        filler: &[u8; DECOY_FILLER_LEN],
    ) -> (r: Result<Vec<Op>, Error>)
        ensures
            ({
                let f = folding@;
                let d = decoy@.header;
                match r {
                    Ok(ops) => {
                        &&& f.refusal(d, *plan, len) is None
                        &&& crate::container::op_views(ops@) == f.ops(
                            old(self)@.header,
                            d,
                            *plan,
                            filler@,
                        )
                        &&& final(self)@ == (VaultView {
                            header: f.folded(old(self)@.header, d, *plan, filler@),
                            ..old(self)@
                        })
                    },
                    Err(e) => f.refusal(d, *plan, len) == Some(e@) && final(self)@ == old(self)@,
                }
            }),
    {
        let ghost before = self@;
        let ghost f = folding@;
        let Folding { nonce, wrapped, scratch } = folding;
        if wrapped.len() != WRAPPED_KEY_LEN {
            return Err(Error::Crypto("unexpected wrapped key length".to_owned()));
        }
        if scratch.len() <= V3_DATA_START as usize {
            return Err(Error::Other("the decoy vault is empty".to_owned()));
        }
        if len != plan.append_at {
            return Err(
                Error::Other(
                    "the vault changed while the duress contents were being prepared".to_owned(),
                ),
            );
        }
        if decoy.header.manifest_offset > u64::MAX - plan.shift {
            return Err(Error::Io("the position is beyond the end of any file".to_owned()));
        }
        let body: Vec<u8> = rest_of(&scratch, V3_DATA_START as usize);
        let key: [u8; WRAPPED_KEY_LEN] = array_at::<WRAPPED_KEY_LEN>(wrapped.as_slice(), 0);
        assert(key@ =~= wrapped@);
        let slot = DecoySlot {
            key_nonce: nonce,
            wrapped_key: key,
            kdf_salt: decoy.header.kdf_salt,
            manifest_offset: decoy.header.manifest_offset + plan.shift,
            manifest_len: decoy.header.manifest_len,
            body_offset: plan.append_at,
            body_len: body.len() as u64,
        };
        assert(slot@ =~= f.slot(decoy@.header, *plan));
        self.header.set_decoy_slot(&slot, filler);
        let mut ops: Vec<Op> = Vec::new();
        ops.push(Op::Write { at: plan.append_at, data: body });
        let head: Vec<u8> = self.header.head();
        ops.push(Op::Write { at: 0, data: head });
        assert(crate::container::op_views(ops@) =~= f.ops(
            before.header,
            decoy@.header,
            *plan,
            filler@,
        ));
        Ok(ops)
    }
}

/// Copies what lies behind a position.
fn rest_of(b: &Vec<u8>, from: usize) -> (r: Vec<u8>)
    requires
        from <= b@.len(),
    ensures
        r@ == b@.skip(from as int),
{
    let mut r: Vec<u8> = Vec::new();
    let mut i: usize = from;
    while i < b.len()
        invariant
            from <= i <= b@.len(),
            r@ == b@.subrange(from as int, i as int),
        decreases b@.len() - i,
    {
        r.push(b[i]);
        i += 1;
        assert(r@ =~= b@.subrange(from as int, i as int));
    }
    assert(r@ =~= b@.skip(from as int));
    r
}

} // verus!
