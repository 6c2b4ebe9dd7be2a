//! The record in which a manifest is stored: a nonce, the length of the plain
//! manifest, its generation, and the sealed manifest.

use crate::error::{Error, ErrorView};
use crate::le::{array_at, get64, put64, put_bytes};
use vstd::prelude::*;

verus! {

broadcast use crate::le::group_le;

/// What precedes the sealed manifest in its record.
pub const FRAME_PREFIX: u64 = 40;

/// The parts of a stored manifest.
#[derive(Debug, PartialEq, Eq)]
pub struct Frame {
    pub nonce: [u8; 24],
    pub plain_len: u64,
    pub generation: u64,
    pub sealed: Vec<u8>,
}

/// A stored manifest, with its bytes as sequences.
#[verifier::ext_equal]
pub struct FrameView {
    pub nonce: Seq<u8>,
    pub plain_len: u64,
    pub generation: u64,
    pub sealed: Seq<u8>,
}

impl View for Frame {
    type V = FrameView;

    open spec fn view(&self) -> FrameView {
        FrameView {
            nonce: self.nonce@,
            plain_len: self.plain_len,
            generation: self.generation,
            sealed: self.sealed@,
        }
    }
}

impl FrameView {
    /// The record as it is stored.
    pub open spec fn image(self) -> Seq<u8> {
        self.nonce + crate::le::le64(self.plain_len) + crate::le::le64(self.generation)
            + self.sealed
    }
}

/// How many bytes a reader of a record of the given length asks for.
pub open spec fn frame_reach(manifest_len: u64) -> u64 {
    if manifest_len < FRAME_PREFIX {
        FRAME_PREFIX
    } else {
        manifest_len
    }
}

/// The first reason for which bytes are refused as a record of the given
/// length.
pub open spec fn frame_refusal(b: Seq<u8>, manifest_len: u64, max: u64) -> Option<ErrorView> {
    if b.len() < 24 {
        Some(ErrorView::Format("vault is truncated at the manifest"@))
    } else if b.len() < 32 {
        Some(ErrorView::Io("failed to fill whole buffer"@))
    } else if crate::le::un64(b.subrange(24, 32)) > max {
        Some(ErrorView::LimitExceeded("manifest declares an implausible size"@))
    } else if b.len() < FRAME_PREFIX {
        Some(ErrorView::Io("failed to fill whole buffer"@))
    } else if manifest_len < FRAME_PREFIX {
        Some(ErrorView::Format("manifest region is too small"@))
    } else if b.len() < manifest_len {
        Some(ErrorView::Format("vault is truncated at the manifest"@))
    } else {
        None
    }
}

/// The parts of a record of the given length, or the first reason against it.
pub open spec fn frame_of(b: Seq<u8>, manifest_len: u64, max: u64) -> Result<
    FrameView,
    ErrorView,
> {
    match frame_refusal(b, manifest_len, max) {
        Some(e) => Err(e),
        None => Ok(
            FrameView {
                nonce: b.subrange(0, 24),
                plain_len: crate::le::un64(b.subrange(24, 32)),
                generation: crate::le::un64(b.subrange(32, 40)),
                sealed: b.subrange(40, manifest_len as int),
            },
        ),
    }
}

impl Frame {
    /// The record as it is stored.
    ///
    /// The generation is written in the clear because a reader needs it before
    /// it can decrypt: it is part of the additional data. Altering it makes
    /// the manifest fail to open.
    pub fn to_bytes(&self) -> (r: Vec<u8>)
        ensures
            r@ == self@.image(),
    {
        let mut b: Vec<u8> = Vec::new();
        put_bytes(&mut b, self.nonce.as_slice());
        put64(&mut b, self.plain_len);
        put64(&mut b, self.generation);
        put_bytes(&mut b, self.sealed.as_slice());
        assert(b@ =~= self@.image());
        b
    }

    /// Takes a record of `manifest_len` bytes apart. `b` is what could be read
    /// of it.
    pub fn from_bytes(b: &[u8], manifest_len: u64, max: u64) -> (r: Result<Self, Error>)
        ensures
            match r {
                Ok(f) => frame_of(b@, manifest_len, max) == Ok::<FrameView, ErrorView>(f@),
                Err(e) => frame_of(b@, manifest_len, max) == Err::<FrameView, ErrorView>(e@),
            },
    {
        if b.len() < 24 {
            return Err(Error::Format("vault is truncated at the manifest".to_owned()));
        }
        if b.len() < 32 {
            return Err(Error::Io("failed to fill whole buffer".to_owned()));
        }
        let plain_len: u64 = get64(b, 24);
        if plain_len > max {
            return Err(Error::LimitExceeded("manifest declares an implausible size".to_owned()));
        }
        if b.len() < 40 {
            return Err(Error::Io("failed to fill whole buffer".to_owned()));
        }
        if manifest_len < FRAME_PREFIX {
            return Err(Error::Format("manifest region is too small".to_owned()));
        }
        if (b.len() as u64) < manifest_len {
            return Err(Error::Format("vault is truncated at the manifest".to_owned()));
        }
        let mut sealed: Vec<u8> = Vec::new();
        let mut i: usize = 40;
        while (i as u64) < manifest_len
            invariant
                40 <= i <= manifest_len <= b@.len(),
                b@.len() <= usize::MAX,
                sealed@ == b@.subrange(40, i as int),
            decreases manifest_len - i,
        {
            sealed.push(b[i]);
            i += 1;
            assert(sealed@ =~= b@.subrange(40, i as int));
        }
        let f = Frame {
            nonce: array_at::<24>(b, 0),
            plain_len,
            generation: get64(b, 32),
            sealed,
        };
        assert(f@ =~= frame_of(b@, manifest_len, max)->Ok_0);
        Ok(f)
    }
}

/// A record that was written is read back as it was, whatever follows it, as
/// long as the size it declares is accepted.
pub proof fn law_frame_round_trips(f: FrameView, rest: Seq<u8>, max: u64)
    requires
        f.nonce.len() == 24,
        f.plain_len <= max,
        FRAME_PREFIX + f.sealed.len() <= u64::MAX,
    ensures
        f.image().len() == FRAME_PREFIX + f.sealed.len(),
        frame_of(f.image() + rest, (FRAME_PREFIX + f.sealed.len()) as u64, max) == Ok::<
            FrameView,
            ErrorView,
        >(f),
{
    let b = f.image() + rest;
    assert(b.subrange(0, 24) =~= f.nonce);
    assert(b.subrange(24, 32) =~= crate::le::le64(f.plain_len));
    assert(b.subrange(32, 40) =~= crate::le::le64(f.generation));
    assert(b.subrange(40, 40 + f.sealed.len() as int) =~= f.sealed);
}

/// A record is taken apart exactly if the bytes reach as far as its length,
/// that is at least 40 bytes, and the size it declares is accepted.
pub proof fn law_record_is_read_exactly_when(b: Seq<u8>, manifest_len: u64, max: u64)
    ensures
        frame_of(b, manifest_len, max) is Ok <==> {
            &&& 40 <= manifest_len
            &&& manifest_len <= b.len()
            &&& crate::le::un64(b.subrange(24, 32)) <= max
        },
        frame_of(b, manifest_len, max) is Ok ==> {
            let f = frame_of(b, manifest_len, max)->Ok_0;
            &&& f.nonce == b.subrange(0, 24)
            &&& f.plain_len == crate::le::un64(b.subrange(24, 32))
            &&& f.generation == crate::le::un64(b.subrange(32, 40))
            &&& f.sealed == b.subrange(40, manifest_len as int)
            &&& f.image() == b.take(manifest_len as int)
        },
        32 <= b.len() && crate::le::un64(b.subrange(24, 32)) > max ==> frame_of(
            b,
            manifest_len,
            max,
        ) is Err && frame_of(b, manifest_len, max)->Err_0 is LimitExceeded,
{
    if frame_of(b, manifest_len, max) is Ok {
        crate::le::lemma_le64_un64(b.subrange(24, 32));
        crate::le::lemma_le64_un64(b.subrange(32, 40));
        assert(frame_of(b, manifest_len, max)->Ok_0.image() =~= b.take(manifest_len as int));
    }
}

} // verus!
