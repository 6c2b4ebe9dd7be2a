//! Importing a file, chunk by chunk.
//!
//! The chunks are written back to back from where the last one ended. The
//! manifest that lay there is overwritten and saved anew behind them, and the
//! decoy region behind the manifest is picked up before the first chunk is
//! written.

use crate::binding::chunk_aad;
use crate::container::{Op, OpView};
use crate::error::{Error, ErrorView};
use crate::manifest::{ChunkRef, ChunkView, Entry, EntryView, ManifestView};
use crate::paths::sanitize_relative_path;
use crate::suite::CompressSuite;
use crate::text::join2;
use crate::vault::save::MAX_POSITION;
use crate::vault::{Limits, Vault, VaultView, CHUNK_SIZE};
use vstd::prelude::*;

verus! {

/// A file being imported.
pub struct Importing {
    object_id: [u8; 16],
    path: String,
    chunks: Vec<ChunkRef>,
    total: u64,
    cursor: u64,
    region: Option<(u64, u64)>,
    more: bool,
}

/// A file being imported, with its parts as their views.
#[verifier::ext_equal]
pub struct ImportView {
    pub object_id: Seq<u8>,
    pub path: Seq<char>,
    pub chunks: Seq<ChunkView>,
    /// Plain bytes taken so far.
    pub total: u64,
    /// Where the next chunk goes.
    pub cursor: u64,
    /// The decoy region to be picked up.
    pub region: Option<(u64, u64)>,
    /// Whether there may be more of the file.
    pub more: bool,
}

impl View for Importing {
    type V = ImportView;

    closed spec fn view(&self) -> ImportView {
        ImportView {
            object_id: self.object_id@,
            path: self.path@,
            chunks: crate::manifest::chunk_views(self.chunks@),
            total: self.total,
            cursor: self.cursor,
            region: self.region,
            more: self.more,
        }
    }
}

/// What one chunk comes to: how much of the file it holds, what that was
/// sealed to, and the hash of that.
pub struct Piece {
    pub plain_len: usize,
    pub sealed: Seq<u8>,
    pub hash: Seq<u8>,
}

impl ImportView {
    /// Why a chunk is refused, if it is.
    pub open spec fn refusal(self, sealed: Seq<u8>, max: u32) -> Option<ErrorView> {
        if sealed.len() > max {
            Some(ErrorView::LimitExceeded("chunk ciphertext is too large"@))
        } else if self.cursor > MAX_POSITION || self.total > MAX_POSITION {
            Some(ErrorView::Io("the position is beyond the end of any file"@))
        } else {
            None
        }
    }

    /// The import with one chunk more. A chunk that is not full is the last.
    pub open spec fn plus(self, p: Piece) -> ImportView {
        ImportView {
            chunks: self.chunks.push(
                ChunkView {
                    offset: self.cursor,
                    ciphertext_len: p.sealed.len() as u32,
                    plaintext_len: p.plain_len as u32,
                    hash: p.hash,
                },
            ),
            total: (self.total + p.plain_len) as u64,
            cursor: (self.cursor + p.sealed.len()) as u64,
            more: p.plain_len == CHUNK_SIZE,
            ..self
        }
    }

    /// What the next chunk is bound to: `n` plain bytes, compressed as `used`
    /// says.
    pub open spec fn next_binding(self, n: u32, used: CompressSuite) -> Seq<u8> {
        crate::binding::chunk_binding(self.object_id, self.chunks.len() as u64, n, used)
    }

    /// Where the next chunk is written.
    pub open spec fn next_write(self, sealed: Seq<u8>) -> OpView {
        OpView::Write { at: self.cursor, data: sealed }
    }

    /// The entry that the manifest is given. A file without chunks is recorded
    /// as stored plainly.
    pub open spec fn entry(
        self,
        mtime: i64,
        suite: CompressSuite,
        store: CompressSuite,
    ) -> EntryView {
        EntryView {
            object_id: self.object_id,
            path: self.path,
            size: self.total,
            mtime,
            compress_suite: if self.chunks.len() == 0 {
                store
            } else {
                suite
            },
            chunks: self.chunks,
        }
    }
}

impl<K> VaultView<K> {
    /// Why an import is refused, if it is.
    pub open spec fn import_refusal(
        self,
        source: Seq<char>,
        is_file: bool,
        stored_path: Seq<char>,
        limits: Limits,
    ) -> Option<ErrorView> {
        if self.master is None {
            Some(ErrorView::Locked)
        } else if !is_file {
            Some(ErrorView::Other(source + " is not a file"@))
        } else if let Err(e) = crate::paths::sanitized(stored_path, limits.max_path_depth) {
            Some(e)
        } else if self.manifest.entries.len() >= limits.max_entries {
            Some(ErrorView::LimitExceeded("vault holds too many entries"@))
        } else {
            None
        }
    }

    /// An import that has taken nothing yet.
    pub open spec fn import(
        self,
        stored_path: Seq<char>,
        object_id: Seq<u8>,
        limits: Limits,
    ) -> ImportView {
        ImportView {
            object_id,
            path: stored_path,
            chunks: Seq::empty(),
            total: 0,
            cursor: self.data_end,
            region: match crate::vault::save::region(self.header, limits.max_manifest_bytes) {
                Some(s) => Some((s.body_offset, s.body_len)),
                None => None,
            },
            more: true,
        }
    }

    /// The vault with an imported file in its manifest.
    pub open spec fn imported(self, im: ImportView, mtime: i64, store: CompressSuite) -> VaultView<
        K,
    > {
        VaultView {
            manifest: ManifestView {
                entries: self.manifest.entries.push(
                    im.entry(mtime, self.header.compress_suite, store),
                ),
                ..self.manifest
            },
            data_end: im.cursor,
            ..self
        }
    }
}

impl<K> Vault<K> {
    /// Begins to import a file under `stored_path`. `object_id` is random.
    pub fn import(
        &self,
        source: &str,
        is_file: bool,
        stored_path: &str,
        object_id: [u8; 16],
        limits: &Limits,
    ) -> (r: Result<Importing, Error>)
        requires
            limits.wf(),
        ensures
            match r {
                Ok(im) => self@.import_refusal(source@, is_file, stored_path@, *limits) is None
                    && im@ == self@.import(stored_path@, object_id@, *limits),
                Err(e) => self@.import_refusal(source@, is_file, stored_path@, *limits) == Some(
                    e@,
                ),
            },
    {
        if self.master.is_none() {
            return Err(Error::Locked);
        }
        if !is_file {
            return Err(Error::Other(join2(source, " is not a file")));
        }
        if let Err(e) = sanitize_relative_path(stored_path, limits.max_path_depth) {
            return Err(e);
        }
        if self.manifest.entries.len() >= limits.max_entries {
            return Err(Error::LimitExceeded("vault holds too many entries".to_owned()));
        }
        let im = Importing {
            object_id,
            path: stored_path.to_owned(),
            chunks: Vec::new(),
            total: 0,
            cursor: self.data_end,
            region: self.decoy_region(limits),
            more: true,
        };
        assert(im@ =~= self@.import(stored_path@, object_id@, *limits));
        Ok(im)
    }

    /// Ends an import: the file is in the manifest, which is still to be
    /// saved. `store` is the code for content that is not compressed.
    ///
    /// Mixed content can end up partly stored and partly compressed, so what
    /// the entry records is the compression that its chunks may have.
    pub fn finish_import(&mut self, im: Importing, mtime: i64, store: CompressSuite)
        ensures
            final(self)@ == old(self)@.imported(im@, mtime, store),
    {
        let ghost before = self@;
        let ghost entries = self.manifest.entries@;
        let suite: CompressSuite = if im.chunks.len() == 0 {
            store
        } else {
            self.header.compress_suite
        };
        let entry = Entry {
            object_id: im.object_id,
            path: im.path,
            size: im.total,
            mtime,
            compress_suite: suite,
            chunks: im.chunks,
        };
        let ghost view = entry@;
        self.data_end = im.cursor;
        self.manifest.entries.push(entry);
        proof {
            assert(view =~= im@.entry(mtime, before.header.compress_suite, store));
            assert(crate::manifest::entry_views(self.manifest.entries@)
                =~= crate::manifest::entry_views(entries).push(view));
            assert(self@ =~= before.imported(im@, mtime, store));
        }
    }
}

impl Importing {
    /// The decoy region that has to be picked up before the first chunk is
    /// written: its position and its length.
    pub fn region(&self) -> (r: Option<(u64, u64)>)
        ensures
            r == self@.region,
    {
        self.region
    }

    /// How many plain bytes have been taken so far.
    pub fn total(&self) -> (r: u64)
        ensures
            r == self@.total,
    {
        self.total
    }

    /// The random identifier that the file's key is derived from.
    pub fn object_id(&self) -> (r: &[u8; 16])
        ensures
            r@ == self@.object_id,
    {
        &self.object_id
    }

    /// The number of the next chunk.
    pub fn index(&self) -> (r: u64)
        ensures
            r == self@.chunks.len() as u64,
    {
        self.chunks.len() as u64
    }

    /// Whether another chunk is to be read.
    pub fn wants_more(&self) -> (r: bool)
        ensures
            r == self@.more,
    {
        self.more
    }

    /// The additional data of the next chunk: `n` plain bytes, compressed as
    /// `used` says.
    pub fn next_aad(&self, n: usize, used: CompressSuite) -> (r: Vec<u8>)
        requires
            n <= CHUNK_SIZE,
        ensures
            r@ == self@.next_binding(n as u32, used),
            r@ == crate::binding::chunk_binding(
                self@.object_id,
                self@.chunks.len() as u64,
                n as u32,
                used,
            ),
    {
        chunk_aad(&self.object_id, self.chunks.len() as u64, n as u32, used)
    }

    /// Takes a sealed chunk of `n` plain bytes, and says where it is written.
    pub fn add_chunk(&mut self, n: usize, sealed: Vec<u8>, hash: [u8; 32], limits: &Limits) -> (r:
        Result<Op, Error>)
        requires
            0 < n <= CHUNK_SIZE,
        ensures
            match r {
                Ok(op) => {
                    &&& old(self)@.refusal(sealed@, limits.max_chunk_ciphertext) is None
                    &&& op@ == old(self)@.next_write(sealed@)
                    &&& op@ == (OpView::Write { at: old(self)@.cursor, data: sealed@ })
                    &&& final(self)@ == old(self)@.plus(
                        (Piece { plain_len: n, sealed: sealed@, hash: hash@ }),
                    )
                },
                Err(e) => old(self)@.refusal(sealed@, limits.max_chunk_ciphertext) == Some(e@)
                    && final(self)@ == old(self)@,
            },
    {
        if sealed.len() as u64 > limits.max_chunk_ciphertext as u64 {
            return Err(Error::LimitExceeded("chunk ciphertext is too large".to_owned()));
        }
        if self.cursor > MAX_POSITION || self.total > MAX_POSITION {
            return Err(Error::Io("the position is beyond the end of any file".to_owned()));
        }
        let ghost before = self@;
        let ghost refs = self.chunks@;
        let len: u32 = sealed.len() as u32;
        let at: u64 = self.cursor;
        let chunk = ChunkRef { offset: at, ciphertext_len: len, plaintext_len: n as u32, hash };
        self.chunks.push(chunk);
        self.total = self.total + n as u64;
        self.cursor = self.cursor + len as u64;
        self.more = n == CHUNK_SIZE;
        proof {
            assert(crate::manifest::chunk_views(self.chunks@) =~= crate::manifest::chunk_views(
                refs,
            ).push(chunk@));
            assert(self@ =~= before.plus(
                (Piece { plain_len: n, sealed: sealed@, hash: hash@ }),
            ));
        }
        Ok(Op::Write { at, data: sealed })
    }
}

} // verus!
