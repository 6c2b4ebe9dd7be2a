//! Writing the manifest and the header, which follows every change.

use crate::binding::manifest_aad;
use crate::container::{Op, OpView};
use crate::error::{Error, ErrorView};
use crate::format::{DecoySlot, DecoySlotView, Header, HeaderView, DECOY_FILLER_LEN};
use crate::frame::{Frame, FrameView};
use crate::le::put_bytes;
use crate::manifest::ManifestView;
use crate::suite::CryptoSuite;
use crate::vault::{Limits, Vault, VaultView};
use vstd::prelude::*;

verus! {

broadcast use crate::le::group_le;

/// What has to be sealed under: a cipher, a nonce, and additional data.
#[derive(Debug, PartialEq, Eq)]
pub struct SealRequest {
    pub suite: CryptoSuite,
    pub nonce: Vec<u8>,
    pub aad: Vec<u8>,
}

/// What has to be sealed under, with its bytes as sequences.
pub struct SealView {
    pub suite: CryptoSuite,
    pub nonce: Seq<u8>,
    pub aad: Seq<u8>,
}

impl View for SealRequest {
    type V = SealView;

    open spec fn view(&self) -> SealView {
        SealView { suite: self.suite, nonce: self.nonce@, aad: self.aad@ }
    }
}

/// Bytes that may be absent, as a sequence.
pub open spec fn bytes_of(b: Option<Vec<u8>>) -> Option<Seq<u8>> {
    match b {
        Some(v) => Some(v@),
        None => None,
    }
}

/// The last position that a file can be written at.
pub const MAX_POSITION: u64 = 0x7fff_ffff_ffff_ffff;

/// The decoy region that a save has to carry, if the header tells of one that
/// is not implausibly large.
pub open spec fn region(h: HeaderView, max: u64) -> Option<DecoySlotView> {
    match h.slot() {
        Some(s) => if 0 < s.body_len < max * 8 {
            Some(s)
        } else {
            None
        },
        None => None,
    }
}

/// The decoy region that is carried: one the header tells of, and that could
/// be read in full.
pub open spec fn kept(h: HeaderView, carried: Option<Seq<u8>>, max: u64) -> Option<
    DecoySlotView,
> {
    match (region(h, max), carried) {
        (Some(s), Some(body)) => if body.len() == s.body_len {
            Some(s)
        } else {
            None
        },
        _ => None,
    }
}

/// A number moved along with a region.
pub open spec fn shifted(x: u64, from: u64, to: u64) -> u64 {
    ((x + to - from) % 0x1_0000_0000_0000_0000) as u64
}

/// A slot whose region lies at another place.
pub open spec fn moved(s: DecoySlotView, to: u64) -> DecoySlotView {
    DecoySlotView {
        manifest_offset: shifted(s.manifest_offset, s.body_offset, to),
        body_offset: to,
        ..s
    }
}

/// The manifest as the next save writes it.
pub open spec fn bumped(m: ManifestView, root: Seq<u8>) -> ManifestView {
    ManifestView {
        integrity_root: root,
        generation: if m.generation == u64::MAX {
            u64::MAX
        } else {
            (m.generation + 1) as u64
        },
        ..m
    }
}

impl<K> VaultView<K> {
    /// The vault whose save has begun: what is sealed is the manifest with its
    /// chunks where they lie, as the next generation.
    pub open spec fn begun(self, root: Seq<u8>) -> VaultView<K> {
        VaultView { manifest: bumped(self.manifest, root), shift: 0, ..self }
    }

    /// What the manifest is sealed under.
    pub open spec fn manifest_seal(self, plain_len: u64, nonce: Seq<u8>) -> SealView {
        SealView {
            suite: self.header.crypto_suite,
            nonce: self.header.crypto_suite.nonce_of(nonce),
            aad: crate::binding::manifest_binding(
                self.header.vault_id,
                plain_len,
                self.manifest.generation,
            ),
        }
    }

    /// The record that a save writes.
    pub open spec fn frame(self, nonce: Seq<u8>, plain_len: u64, sealed: Seq<u8>) -> FrameView {
        FrameView { nonce, plain_len, generation: self.manifest.generation, sealed }
    }

    /// Where the record ends, and a carried region begins.
    pub open spec fn frame_end(self, sealed: Seq<u8>) -> int {
        self.data_end + crate::frame::FRAME_PREFIX + sealed.len()
    }

    /// The header that a save writes.
    pub open spec fn saved_header(
        self,
        sealed: Seq<u8>,
        carried: Option<Seq<u8>>,
        filler: Seq<u8>,
        max: u64,
    ) -> HeaderView {
        HeaderView {
            manifest_offset: self.data_end,
            manifest_len: (crate::frame::FRAME_PREFIX + sealed.len()) as u64,
            integrity_root: self.manifest.integrity_root,
            decoy: match kept(self.header, carried, max) {
                Some(s) => Some(moved(s, self.frame_end(sealed) as u64).image() + filler),
                None => self.header.decoy,
            },
            ..self.header
        }
    }

    /// Where the container ends after a save.
    pub open spec fn saved_len(self, sealed: Seq<u8>, carried: Option<Seq<u8>>, max: u64) -> int {
        match kept(self.header, carried, max) {
            Some(s) => self.frame_end(sealed) + s.body_len,
            None => self.frame_end(sealed),
        }
    }

    /// The changes that a save makes to the container, in order.
    pub open spec fn save_ops(
        self,
        nonce: Seq<u8>,
        plain_len: u64,
        sealed: Seq<u8>,
        carried: Option<Seq<u8>>,
        filler: Seq<u8>,
        max: u64,
    ) -> Seq<OpView> {
        let record = OpView::Write {
            at: self.data_end,
            data: self.frame(nonce, plain_len, sealed).image(),
        };
        let cut = OpView::SetLen(self.saved_len(sealed, carried, max) as u64);
        let head = OpView::Write {
            at: 0,
            data: self.saved_header(sealed, carried, filler, max).head(),
        };
        match kept(self.header, carried, max) {
            Some(s) => seq![
                record,
                OpView::Write { at: self.frame_end(sealed) as u64, data: carried->0 },
                cut,
                head,
            ],
            None => seq![record, cut, head],
        }
    }

    /// Why a save is refused, if it is.
    pub open spec fn save_refusal(self, sealed: Seq<u8>, max: u64) -> Option<ErrorView> {
        if crate::frame::FRAME_PREFIX + sealed.len() > max {
            Some(ErrorView::LimitExceeded("manifest is too large"@))
        } else if self.data_end > MAX_POSITION {
            Some(ErrorView::Io("the position is beyond the end of any file"@))
        } else {
            None
        }
    }
}

impl Header {
    /// What stands at the start of the container.
    pub fn head(&self) -> (r: Vec<u8>)
        ensures
            r@ == self@.head(),
    {
        let mut b: Vec<u8> = Vec::new();
        let image: [u8; 256] = self.to_bytes();
        put_bytes(&mut b, image.as_slice());
        assert(b@ =~= self@.image());
        // The decoy block travels with the header, and is written on every
        // save whether or not a duress password exists.
        if let Some(block) = self.decoy_bytes() {
            put_bytes(&mut b, block.as_slice());
        }
        b
    }
}

impl<K> Vault<K> {
    /// Where the decoy region lies that has to be picked up before anything
    /// is written, and put back down after the manifest: its position and its
    /// length.
    pub fn decoy_region(&self, limits: &Limits) -> (r: Option<(u64, u64)>)
        requires
            limits.wf(),
        ensures
            r == (match region(self@.header, limits.max_manifest_bytes) {
                Some(s) => Some((s.body_offset, s.body_len)),
                None => None,
            }),
    {
        match self.header.decoy_slot() {
            Some(s) => if s.body_len > 0 && s.body_len < limits.max_manifest_bytes * 8 {
                Some((s.body_offset, s.body_len))
            } else {
                None
            },
            None => None,
        }
    }

    /// Begins a save. `root` is what the contents come to.
    ///
    /// The generation is counted from one and never reused, so that an older
    /// manifest authenticates only against its own generation.
    pub fn begin_save(&mut self, root: [u8; 32]) -> (r: Result<(), Error>)
        ensures
            match r {
                Ok(_) => old(self)@.master is Some && final(self)@ == old(self)@.begun(root@),
                Err(e) => old(self)@.master is None && e@ == ErrorView::Locked && final(self)@
                    == old(self)@,
            },
    {
        if self.master.is_none() {
            return Err(Error::Locked);
        }
        self.shift = 0;
        self.manifest.integrity_root = root;
        if self.manifest.generation < u64::MAX {
            self.manifest.generation = self.manifest.generation + 1;
        }
        Ok(())
    }

    /// What the encoded manifest, of `plain_len` bytes, is sealed under.
    pub fn seal_manifest(&self, plain_len: u64, nonce: &[u8; 24]) -> (r: SealRequest)
        requires
            self@.wf(),
        ensures
            r@ == self@.manifest_seal(plain_len, nonce@),
            r.suite == self@.header.crypto_suite,
            r.nonce@ == self@.header.crypto_suite.nonce_of(nonce@),
            r.aad@ == crate::binding::manifest_binding(
                self@.header.vault_id,
                plain_len,
                self@.manifest.generation,
            ),
    {
        SealRequest {
            suite: self.header.crypto_suite,
            nonce: self.header.crypto_suite.nonce(nonce),
            aad: manifest_aad(&self.header.vault_id, plain_len, self.manifest.generation),
        }
    }

    /// Ends a save: gives the changes to make to the container.
    ///
    /// `carried` is the decoy region, if it could be read. It lies after the
    /// manifest, so it is put back down after the new one, and the slot is
    /// made to point at it; `filler` fills the rest of its block.
    pub fn finish_save(
        &mut self,
        nonce: [u8; 24],
        plain_len: u64,
        sealed: Vec<u8>,
        carried: Option<Vec<u8>>,
        filler: &[u8; DECOY_FILLER_LEN],
        limits: &Limits,
    ) -> (r: Result<Vec<Op>, Error>)
        requires
            limits.wf(),
        ensures
            ({
                let max = limits.max_manifest_bytes;
                let body = bytes_of(carried);
                match r {
                    Ok(ops) => {
                        &&& old(self)@.save_refusal(sealed@, max) is None
                        &&& crate::container::op_views(ops@) == old(self)@.save_ops(
                            nonce@,
                            plain_len,
                            sealed@,
                            body,
                            filler@,
                            max,
                        )
                        &&& final(self)@ == (VaultView {
                            header: old(self)@.saved_header(sealed@, body, filler@, max),
                            ..old(self)@
                        })
                    },
                    Err(e) => old(self)@.save_refusal(sealed@, max) == Some(e@) && final(self)@
                        == old(self)@,
                }
            }),
    {
        let ghost start = self@;
        let ghost max = limits.max_manifest_bytes;
        let ghost body = bytes_of(carried);
        let n: u64 = sealed.len() as u64;
        if n > limits.max_manifest_bytes || n + 40 > limits.max_manifest_bytes {
            return Err(Error::LimitExceeded("manifest is too large".to_owned()));
        }
        if self.data_end > MAX_POSITION {
            return Err(Error::Io("the position is beyond the end of any file".to_owned()));
        }
        let blob_len: u64 = n + 40;
        let frame = Frame { nonce, plain_len, generation: self.manifest.generation, sealed };
        let record: Vec<u8> = frame.to_bytes();
        let mut end: u64 = self.data_end + blob_len;
        let mut ops: Vec<Op> = Vec::new();
        ops.push(Op::Write { at: self.data_end, data: record });
        let region = self.decoy_region(limits);
        if let (Some(slot), Some(b), Some((_, len))) = (self.header.decoy_slot(), carried, region) {
            if b.len() as u64 == len {
                let mut slot: DecoySlot = slot;
                slot.manifest_offset =
                slot.manifest_offset.wrapping_add(end).wrapping_sub(slot.body_offset);
                slot.body_offset = end;
                proof {
                    let s = crate::format::slot_of(start.header.decoy->0);
                    assert(slot@ =~= moved(s, end));
                }
                self.header.set_decoy_slot(&slot, filler);
                ops.push(Op::Write { at: end, data: b });
                end = end + len;
            }
        }
        self.header.place_manifest(self.data_end, blob_len, self.manifest.integrity_root);
        ops.push(Op::SetLen(end));
        let head: Vec<u8> = self.header.head();
        ops.push(Op::Write { at: 0, data: head });
        assert(self@.header =~= start.saved_header(frame.sealed@, body, filler@, max));
        assert(crate::container::op_views(ops@) =~= start.save_ops(
            nonce@,
            plain_len,
            frame.sealed@,
            body,
            filler@,
            max,
        ));
        Ok(ops)
    }
}

} // verus!
