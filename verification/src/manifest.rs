//! What a manifest records of a vault's contents.

use crate::suite::CompressSuite;
use vstd::prelude::*;

verus! {

/// Where one sealed piece of a file lies.
#[derive(Debug, Clone, Copy, PartialEq, Eq)]
pub struct ChunkRef {
    pub offset: u64,
    pub ciphertext_len: u32,
    pub plaintext_len: u32,
    /// The hash of the ciphertext.
    pub hash: [u8; 32],
}

/// A chunk reference, with its bytes as a sequence.
pub struct ChunkView {
    pub offset: u64,
    pub ciphertext_len: u32,
    pub plaintext_len: u32,
    pub hash: Seq<u8>,
}

impl View for ChunkRef {
    type V = ChunkView;

    open spec fn view(&self) -> ChunkView {
        ChunkView {
            offset: self.offset,
            ciphertext_len: self.ciphertext_len,
            plaintext_len: self.plaintext_len,
            hash: self.hash@,
        }
    }
}

/// One stored file.
#[derive(Debug, PartialEq, Eq)]
pub struct Entry {
    /// Random, and unique in the vault: file keys are derived from it.
    pub object_id: [u8; 16],
    pub path: String,
    pub size: u64,
    pub mtime: i64,
    /// The compression that chunks of this file may have been given.
    pub compress_suite: CompressSuite,
    pub chunks: Vec<ChunkRef>,
}

/// An entry, with its texts and bytes as sequences.
#[verifier::ext_equal]
pub struct EntryView {
    pub object_id: Seq<u8>,
    pub path: Seq<char>,
    pub size: u64,
    pub mtime: i64,
    pub compress_suite: CompressSuite,
    pub chunks: Seq<ChunkView>,
}

/// The views of chunk references.
pub open spec fn chunk_views(chunks: Seq<ChunkRef>) -> Seq<ChunkView> {
    chunks.map_values(|c: ChunkRef| c@)
}

impl View for Entry {
    type V = EntryView;

    open spec fn view(&self) -> EntryView {
        EntryView {
            object_id: self.object_id@,
            path: self.path@,
            size: self.size,
            mtime: self.mtime,
            compress_suite: self.compress_suite,
            chunks: chunk_views(self.chunks@),
        }
    }
}

/// The list of a vault's files.
#[derive(Debug, PartialEq, Eq)]
pub struct Manifest {
    pub entries: Vec<Entry>,
    /// Which write of the manifest this is. Counted from one.
    pub generation: u64,
    /// What the contents come to, chunk hashes included.
    pub integrity_root: [u8; 32],
}

/// A manifest, with its parts as their views.
#[verifier::ext_equal]
pub struct ManifestView {
    pub entries: Seq<EntryView>,
    pub generation: u64,
    pub integrity_root: Seq<u8>,
}

/// The views of entries.
pub open spec fn entry_views(entries: Seq<Entry>) -> Seq<EntryView> {
    entries.map_values(|e: Entry| e@)
}

impl View for Manifest {
    type V = ManifestView;

    open spec fn view(&self) -> ManifestView {
        ManifestView {
            entries: entry_views(self.entries@),
            generation: self.generation,
            integrity_root: self.integrity_root@,
        }
    }
}

/// The manifest of a vault that nothing has been written to.
pub open spec fn empty_manifest() -> ManifestView {
    ManifestView {
        entries: Seq::empty(),
        generation: 0,
        integrity_root: Seq::new(32, |i: int| 0u8),
    }
}

/// A position moved on, around the end of what can be counted.
pub open spec fn slid(x: u64, by: u64) -> u64 {
    ((x + by) % 0x1_0000_0000_0000_0000) as u64
}

/// How far a position has to be moved on to come to lie at another.
pub open spec fn gap(from: u64, to: u64) -> u64 {
    ((to - from) % 0x1_0000_0000_0000_0000) as u64
}

impl ChunkView {
    /// The chunk, further on.
    pub open spec fn slid(self, by: u64) -> ChunkView {
        ChunkView { offset: slid(self.offset, by), ..self }
    }
}

impl EntryView {
    /// The entry, with its chunks further on.
    pub open spec fn slid(self, by: u64) -> EntryView {
        EntryView { chunks: self.chunks.map_values(|c: ChunkView| c.slid(by)), ..self }
    }
}

/// Where the first chunk of some entries lies, if they have any.
pub open spec fn first_offset(entries: Seq<EntryView>) -> Option<u64>
    decreases entries.len(),
{
    if entries.len() == 0 {
        None
    } else if first_offset(entries.drop_last()) is Some {
        first_offset(entries.drop_last())
    } else if entries.last().chunks.len() > 0 {
        Some(entries.last().chunks[0].offset)
    } else {
        None
    }
}

impl ManifestView {
    /// The manifest, with its chunks further on.
    pub open spec fn slid(self, by: u64) -> ManifestView {
        ManifestView { entries: self.entries.map_values(|e: EntryView| e.slid(by)), ..self }
    }

    /// How far the chunks have to be moved on for the first of them to lie at
    /// a place.
    pub open spec fn lag(self, to: u64) -> u64 {
        match first_offset(self.entries) {
            Some(from) => gap(from, to),
            None => 0,
        }
    }

    /// The manifest, with its chunks so moved that the first lies at a place.
    pub open spec fn placed(self, to: u64) -> ManifestView {
        self.slid(self.lag(to))
    }
}

impl ManifestView {
    /// Every chunk lies within `len` bytes from a place.
    pub open spec fn lies_in(self, at: int, len: int) -> bool {
        forall|e: int, k: int|
            0 <= e < self.entries.len() && 0 <= k < self.entries[e].chunks.len() ==> {
                let c = #[trigger] self.entries[e].chunks[k];
                at <= c.offset && c.offset + c.ciphertext_len <= at + len
            }
    }
}

/// Moving chunks on and back leaves them where they were.
pub proof fn lemma_slid_back(m: ManifestView, by: u64)
    ensures
        m.slid(0) == m,
        m.slid(by).slid(gap(by, 0)) == m,
{
    assert forall|c: ChunkView|
        #![trigger c.slid(0)]
        #![trigger c.slid(by)]
        c.slid(0) == c && c.slid(by).slid(gap(by, 0)) == c by {
        assert(slid(c.offset, 0) == c.offset);
        assert(slid(slid(c.offset, by), gap(by, 0)) == c.offset);
    }
    assert forall|e: EntryView|
        #![trigger e.slid(0)]
        #![trigger e.slid(by)]
        e.slid(0) == e && e.slid(by).slid(gap(by, 0)) == e by {
        assert(e.slid(0) =~= e);
        assert(e.slid(by).slid(gap(by, 0)) =~= e);
    }
    assert(m.slid(0) =~= m);
    assert(m.slid(by).slid(gap(by, 0)) =~= m);
}

/// A manifest whose first chunk lies at a place already is not changed by
/// placing it there.
pub proof fn lemma_placed_stays(m: ManifestView, at: u64)
    requires
        first_offset(m.entries) matches Some(x) ==> x == at,
    ensures
        m.placed(at) == m,
        m.lag(at) == 0,
{
    lemma_slid_back(m, 0);
}

/// The first chunk of some entries is also the first of more entries.
pub proof fn lemma_first_offset_stays(entries: Seq<EntryView>, n: int)
    requires
        0 <= n <= entries.len(),
        first_offset(entries.take(n)) is Some,
    ensures
        first_offset(entries) == first_offset(entries.take(n)),
    decreases entries.len(),
{
    if n < entries.len() {
        assert(entries.drop_last().take(n) =~= entries.take(n));
        lemma_first_offset_stays(entries.drop_last(), n);
    } else {
        assert(entries.take(n) =~= entries);
    }
}

/// Moves chunks on.
fn slide_chunks(chunks: &mut Vec<ChunkRef>, by: u64)
    ensures
        chunk_views(final(chunks)@) == chunk_views(old(chunks)@).map_values(
            |c: ChunkView| c.slid(by),
        ),
{
    let ghost start = chunks@;
    let mut k: usize = 0;
    while k < chunks.len()
        invariant
            k <= chunks@.len(),
            chunks@.len() == start.len(),
            forall|b: int| 0 <= b < k ==> (#[trigger] chunks@[b])@ == start[b]@.slid(by),
            forall|b: int| k <= b < start.len() ==> #[trigger] chunks@[b] == start[b],
        decreases start.len() - k,
    {
        let mut c = chunks[k];
        c.offset = c.offset.wrapping_add(by);
        chunks.set(k, c);
        k += 1;
    }
    assert(chunk_views(chunks@) =~= chunk_views(start).map_values(|c: ChunkView| c.slid(by)));
}

impl Entry {
    /// Another entry that is the same.
    fn copy(&self) -> (r: Entry)
        ensures
            r@ == self@,
    {
        let mut chunks: Vec<ChunkRef> = Vec::new();
        let mut k: usize = 0;
        while k < self.chunks.len()
            invariant
                k <= self.chunks@.len(),
                chunks@ == self.chunks@.take(k as int),
            decreases self.chunks@.len() - k,
        {
            chunks.push(self.chunks[k]);
            k += 1;
            assert(chunks@ =~= self.chunks@.take(k as int));
        }
        assert(chunks@ =~= self.chunks@);
        Entry {
            object_id: self.object_id,
            path: self.path.as_str().to_owned(),
            size: self.size,
            mtime: self.mtime,
            compress_suite: self.compress_suite,
            chunks,
        }
    }
}

impl Manifest {
    /// Moves every chunk on.
    pub fn slide(&mut self, by: u64)
        ensures
            final(self)@ == old(self)@.slid(by),
    {
        let ghost before = self@;
        let ghost entries = self.entries@;
        let mut i: usize = 0;
        while i < self.entries.len()
            invariant
                i <= self.entries@.len(),
                before.entries == entry_views(entries),
                self.entries@.len() == entries.len(),
                self@.generation == before.generation,
                self@.integrity_root == before.integrity_root,
                forall|a: int| 0 <= a < i ==> #[trigger] self.entries@[a]@ == entries[a]@.slid(by),
                forall|a: int| i <= a < entries.len() ==> #[trigger] self.entries@[a] == entries[a],
            decreases entries.len() - i,
        {
            slide_chunks(&mut self.entries[i].chunks, by);
            assert(self.entries@[i as int]@ =~= entries[i as int]@.slid(by));
            i += 1;
        }
        assert(self@.entries =~= before.slid(by).entries);
    }

    /// How far the chunks have to be moved on for the first of them to lie at
    /// a place.
    pub fn lag(&self, to: u64) -> (r: u64)
        ensures
            r == self@.lag(to),
    {
        let mut i: usize = 0;
        assert(self@.entries.take(0) =~= Seq::<EntryView>::empty());
        while i < self.entries.len()
            invariant
                i <= self.entries@.len(),
                first_offset(self@.entries.take(i as int)) is None,
            decreases self.entries@.len() - i,
        {
            let e = &self.entries[i];
            assert(self@.entries[i as int] == e@);
            assert(self@.entries.take(i + 1).drop_last() =~= self@.entries.take(i as int));
            if e.chunks.len() > 0 {
                let from: u64 = e.chunks[0].offset;
                assert(e@.chunks[0].offset == from);
                proof {
                    lemma_first_offset_stays(self@.entries, i + 1);
                }
                return to.wrapping_sub(from);
            }
            i += 1;
        }
        assert(self@.entries.take(i as int) =~= self@.entries);
        0
    }

    /// Another manifest that is the same.
    pub fn copy(&self) -> (r: Manifest)
        ensures
            r@ == self@,
    {
        let mut entries: Vec<Entry> = Vec::new();
        let mut i: usize = 0;
        while i < self.entries.len()
            invariant
                i <= self.entries@.len(),
                entries@.len() == i,
                forall|a: int| 0 <= a < i ==> #[trigger] entries@[a]@ == self.entries@[a]@,
            decreases self.entries@.len() - i,
        {
            entries.push(self.entries[i].copy());
            i += 1;
        }
        assert(entry_views(entries@) =~= entry_views(self.entries@));
        Manifest { entries, generation: self.generation, integrity_root: self.integrity_root }
    }

    /// The manifest of a vault that nothing has been written to.
    pub fn empty() -> (r: Manifest)
        ensures
            r@ == empty_manifest(),
    {
        let r = Manifest { entries: Vec::new(), generation: 0, integrity_root: [0u8;32] };
        assert(r.integrity_root@ =~= empty_manifest().integrity_root);
        assert(r@ =~= empty_manifest());
        r
    }
}

} // verus!
