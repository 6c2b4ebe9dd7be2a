//! Exporting a file, chunk by chunk.
//!
//! The file is written beside its destination and put in place only once every
//! chunk has been authenticated and the length matches, so that an export
//! produces a complete verified file or nothing.

use crate::error::{Error, ErrorView};
use crate::paths::{part_path, sanitize_relative_path};
use crate::suite::CompressSuite;
use crate::vault::chunk::{ChunkReaderView, ChunkStep, ChunkWorld};
use crate::vault::import::Piece;
use crate::vault::import_laws::plain_sum;
use crate::vault::{Limits, Vault, VaultView};
use vstd::prelude::*;

verus! {

/// A file being exported.
#[derive(Debug, PartialEq, Eq)]
pub struct Exporting {
    entry: usize,
    path: String,
    next: usize,
    written: u64,
}

/// A file being exported, with its parts as their views.
pub struct ExportView {
    pub entry: usize,
    /// Where the file goes, below the directory it is exported to.
    pub path: Seq<char>,
    /// The chunk that comes next.
    pub next: usize,
    /// Plain bytes written so far.
    pub written: u64,
}

impl View for Exporting {
    type V = ExportView;

    closed spec fn view(&self) -> ExportView {
        ExportView {
            entry: self.entry,
            path: self.path@,
            next: self.next,
            written: self.written,
        }
    }
}

impl<K> VaultView<K> {
    /// What beginning to export an entry gives.
    pub open spec fn export(self, index: usize, max_depth: usize) -> Result<
        ExportView,
        ErrorView,
    > {
        if self.master is None {
            Err(ErrorView::Locked)
        } else if index >= self.manifest.entries.len() {
            Err(ErrorView::Other("entry index out of range"@))
        } else {
            match crate::paths::sanitized(self.manifest.entries[index as int].path, max_depth) {
                Err(e) => Err(e),
                Ok(path) => Ok(ExportView { entry: index, path, next: 0, written: 0 }),
            }
        }
    }
}

impl<K> VaultView<K> {
    /// Every chunk of an entry has been written, and the size is right.
    pub open spec fn export_is_complete(self, x: ExportView) -> bool {
        &&& x.next >= self.manifest.entries[x.entry as int].chunks.len()
        &&& x.written == self.manifest.entries[x.entry as int].size
    }
}

/// What is reported of an export that came out at the wrong size.
pub open spec fn wrong_size() -> ErrorView {
    ErrorView::Integrity("exported size does not match the manifest"@)
}

impl<K> Vault<K> {
    /// Begins to export an entry beneath some directory, recreating its
    /// relative path.
    pub fn export(&self, index: usize, limits: &Limits) -> (r: Result<Exporting, Error>)
        ensures
            match r {
                Ok(x) => self@.export(index, limits.max_path_depth) == Ok::<ExportView, ErrorView>(
                    x@,
                ),
                Err(e) => self@.export(index, limits.max_path_depth) == Err::<
                    ExportView,
                    ErrorView,
                >(e@),
            },
    {
        if self.master.is_none() {
            return Err(Error::Locked);
        }
        if index >= self.manifest.entries.len() {
            return Err(Error::Other("entry index out of range".to_owned()));
        }
        let e = &self.manifest.entries[index];
        assert(self@.manifest.entries[index as int] == e@);
        match sanitize_relative_path(e.path.as_str(), limits.max_path_depth) {
            Err(e) => Err(e),
            Ok(path) => Ok(Exporting { entry: index, path, next: 0, written: 0 }),
        }
    }

    /// Begins to read the next chunk of an export; nothing, when all have been
    /// read.
    pub fn next_chunk(&self, x: &Exporting, store: CompressSuite, limits: &Limits) -> (r: Option<
        ChunkStep,
    >)
        ensures
            r is Some <==> self@.has_chunk(x@.entry as int, x@.next as int),
            match r {
                Some(s) => {
                    &&& x@.entry < self@.manifest.entries.len()
                    &&& x@.next < self@.manifest.entries[x@.entry as int].chunks.len()
                    &&& s@ == self@.chunk_reader(
                        x@.entry as int,
                        x@.next as int,
                        store,
                    ).first(limits.max_chunk_ciphertext)
                },
                None => x@.entry >= self@.manifest.entries.len() || x@.next
                    >= self@.manifest.entries[x@.entry as int].chunks.len(),
            },
    {
        self.read_chunk(x.entry, x.next, store, limits)
    }

    /// Ends an export. It ends well only once all chunks have been written,
    /// and at the size that the entry records.
    pub fn finish_export(&self, x: &Exporting) -> (r: Result<(), Error>)
        requires
            x@.entry < self@.manifest.entries.len(),
        ensures
            r is Ok <==> self@.export_is_complete(x@),
            r is Ok <==> x@.next >= self@.manifest.entries[x@.entry as int].chunks.len()
                && x@.written == self@.manifest.entries[x@.entry as int].size,
            r matches Err(e) ==> e@ == wrong_size(),
    {
        let e = &self.manifest.entries[x.entry];
        assert(self@.manifest.entries[x.entry as int] == e@);
        if x.next < e.chunks.len() || x.written != e.size {
            return Err(
                Error::Integrity("exported size does not match the manifest".to_owned()),
            );
        }
        Ok(())
    }
}

impl Exporting {
    /// Where the file goes, below the directory it is exported to.
    pub fn path(&self) -> (r: &str)
        ensures
            r@ == self@.path,
    {
        self.path.as_str()
    }

    /// Where the file is written until it is complete.
    pub fn part_path(&self) -> (r: String)
        ensures
            r@ == crate::paths::part_name(self@.path),
    {
        part_path(self.path.as_str())
    }

    /// How many bytes have been written so far.
    pub fn written(&self) -> (r: u64)
        ensures
            r == self@.written,
    {
        self.written
    }

    /// Counts a chunk that was written, of `len` plain bytes.
    pub fn add_written(&mut self, len: usize) -> (r: Result<(), Error>)
        requires
            old(self)@.next < usize::MAX,
        ensures
            match r {
                Ok(_) => final(self)@ == old(self)@.plus(len as nat) && old(self)@.written + len
                    <= u64::MAX,
                Err(e) => e@ == wrong_size() && old(self)@.written + len > u64::MAX && final(self)@
                    == old(self)@,
            },
    {
        match self.written.checked_add(len as u64) {
            None => Err(Error::Integrity("exported size does not match the manifest".to_owned())),
            Some(n) => {
                self.written = n;
                self.next = self.next + 1;
                Ok(())
            },
        }
    }
}

/// How one piece of a file became a chunk: the plain bytes, the compression
/// they were given, and what that came to.
pub struct Made {
    pub plain: Seq<u8>,
    pub used: CompressSuite,
    pub compressed: Seq<u8>,
}

impl Made {
    /// Everything that was done to a piece can be undone: its hash is that of
    /// the sealed bytes; they open as the compression that was used, and not
    /// as another that would be tried first; and what they open to decompresses
    /// to the plain bytes.
    pub open spec fn undone(self, w: ChunkWorld, r: ChunkReaderView, p: Piece) -> bool {
        &&& self.plain.len() == p.plain_len
        &&& p.hash == (w.hash)(p.sealed)
        &&& self.used == r.recorded || self.used == r.store
        &&& w.opened_as(r, p.sealed, self.used) == Some(self.compressed)
        &&& self.used != r.recorded ==> w.opened_as(r, p.sealed, r.recorded) is None
        &&& (w.inflate)(self.used, self.compressed, p.plain_len as u32) == Ok::<
            Seq<u8>,
            ErrorView,
        >(self.plain)
    }
}

/// A file, from its pieces in order.
pub open spec fn file_of(made: Seq<Made>) -> Seq<u8>
    decreases made.len(),
{
    if made.len() == 0 {
        Seq::empty()
    } else {
        file_of(made.drop_last()) + made.last().plain
    }
}

impl<K> VaultView<K> {
    /// What the first `n` chunks of an entry come to, one behind the other, or
    /// why the first that cannot be read cannot.
    pub open spec fn exported(
        self,
        w: ChunkWorld,
        entry: int,
        n: nat,
        store: CompressSuite,
        max: u32,
    ) -> Result<Seq<u8>, ErrorView>
        decreases n,
    {
        if n == 0 {
            Ok(Seq::empty())
        } else {
            match self.exported(w, entry, (n - 1) as nat, store, max) {
                Err(e) => Err(e),
                Ok(b) => match w.outcome(self.chunk_reader(entry, n - 1, store), max) {
                    Err(e) => Err(e),
                    Ok(plain) => Ok(b + plain),
                },
            }
        }
    }
}

impl ExportView {
    /// The export with one chunk more, of `len` plain bytes.
    pub open spec fn plus(self, len: nat) -> ExportView {
        ExportView {
            next: (self.next + 1) as usize,
            written: (self.written + len) as u64,
            ..self
        }
    }

    /// The export once the pieces of a file have been written.
    pub open spec fn counted(self, made: Seq<Made>) -> ExportView
        decreases made.len(),
    {
        if made.len() == 0 {
            self
        } else {
            self.counted(made.drop_last()).plus(made.last().plain.len())
        }
    }
}

/// Chunks that read back as the pieces come to the pieces put together.
proof fn lemma_put_together<K>(
    v: VaultView<K>,
    w: ChunkWorld,
    entry: int,
    store: CompressSuite,
    max: u32,
    made: Seq<Made>,
    n: nat,
)
    requires
        n <= made.len(),
        forall|i: int|
            0 <= i < made.len() ==> w.outcome(#[trigger] v.chunk_reader(entry, i, store), max)
                == Ok::<Seq<u8>, ErrorView>(made[i].plain),
    ensures
        v.exported(w, entry, n, store, max) == Ok::<Seq<u8>, ErrorView>(
            file_of(made.take(n as int)),
        ),
    decreases n,
{
    if n > 0 {
        lemma_put_together(v, w, entry, store, max, made, (n - 1) as nat);
        assert(made.take(n as int).drop_last() =~= made.take(n - 1));
        assert(w.outcome(v.chunk_reader(entry, n - 1, store), max) == Ok::<Seq<u8>, ErrorView>(
            made[n - 1].plain,
        ));
    }
}

/// A file is as long as its pieces together.
proof fn lemma_sizes(made: Seq<Made>, ps: Seq<Piece>)
    requires
        made.len() == ps.len(),
        forall|i: int| 0 <= i < made.len() ==> (#[trigger] made[i]).plain.len() == ps[i].plain_len,
    ensures
        file_of(made).len() == plain_sum(ps),
    decreases made.len(),
{
    if made.len() > 0 {
        let m = made.drop_last();
        assert forall|i: int| 0 <= i < m.len() implies (#[trigger] m[i]).plain.len()
            == ps.drop_last()[i].plain_len by {
            assert(m[i] == made[i]);
        }
        lemma_sizes(m, ps.drop_last());
        assert(made.last() == made[made.len() - 1]);
    }
}

/// The first pieces are no longer than the file.
proof fn lemma_file_grows(made: Seq<Made>, i: int)
    requires
        0 <= i <= made.len(),
    ensures
        file_of(made.take(i)).len() <= file_of(made).len(),
    decreases made.len(),
{
    if i < made.len() {
        assert(made.drop_last().take(i) =~= made.take(i));
        lemma_file_grows(made.drop_last(), i);
    } else {
        assert(made.take(i) =~= made);
    }
}

/// An export counts every piece and every byte.
proof fn lemma_counted(x: ExportView, made: Seq<Made>)
    requires
        x.next + made.len() <= usize::MAX,
        x.written + file_of(made).len() <= u64::MAX,
    ensures
        x.counted(made) == (ExportView {
            next: (x.next + made.len()) as usize,
            written: (x.written + file_of(made).len()) as u64,
            ..x
        }),
    decreases made.len(),
{
    if made.len() > 0 {
        lemma_counted(x, made.drop_last());
    }
}

impl<K> VaultView<K> {
    /// An export never leaves the directory it is made to, whatever the
    /// manifest says: its path is a list of plain names.
    pub proof fn law_export_stays_inside(self, index: usize, max_depth: usize)
        requires
            self.export(index, max_depth) is Ok,
        ensures
            !crate::paths::leads_out(self.export(index, max_depth)->Ok_0.path),
            self.export(index, max_depth)->Ok_0.path.len() > 0,
    {
        crate::paths::law_sanitized_stays_inside(
            self.manifest.entries[index as int].path,
            max_depth,
        );
    }

    /// An entry is made of some pieces, and a container holds each of them
    /// where the entry says that it lies.
    pub open spec fn keeps(self, entry: int, ps: Seq<Piece>, c: Seq<u8>) -> bool {
        &&& 0 <= entry < self.manifest.entries.len()
        &&& self.manifest.entries[entry].size == plain_sum(ps)
        &&& self.manifest.entries[entry].chunks.len() == ps.len()
        &&& forall|i: int|
            0 <= i < ps.len() ==> {
                let k = #[trigger] self.manifest.entries[entry].chunks[i];
                &&& k.ciphertext_len == ps[i].sealed.len()
                &&& k.plaintext_len == ps[i].plain_len
                &&& k.hash == ps[i].hash
                &&& crate::container::read_at(c, k.offset as int, ps[i].sealed.len() as int)
                    == ps[i].sealed
            }
    }

    /// Exporting an entry gives a file: it goes where the name it was stored
    /// under says; the chunks read from first to last, one behind the other,
    /// are the file, at the size that the entry records; when all are written
    /// the export is at its end, and on the way what counts as written is what
    /// the chunks so far hold.
    pub open spec fn exports_as(
        self,
        index: usize,
        made: Seq<Made>,
        w: ChunkWorld,
        store: CompressSuite,
        limits: Limits,
    ) -> bool {
        let e = self.manifest.entries[index as int];
        let x = self.export(index, limits.max_path_depth);
        &&& index < self.manifest.entries.len()
        &&& x is Ok
        &&& crate::paths::sanitized(e.path, limits.max_path_depth) == Ok::<Seq<char>, ErrorView>(
            x->Ok_0.path,
        )
        &&& e.chunks.len() == made.len()
        &&& self.exported(w, index as int, made.len(), store, limits.max_chunk_ciphertext) == Ok::<
            Seq<u8>,
            ErrorView,
        >(file_of(made))
        &&& file_of(made).len() == e.size
        &&& x->Ok_0.counted(made) == (ExportView {
            next: made.len() as usize,
            written: e.size,
            ..x->Ok_0
        })
        &&& forall|i: int|
            0 <= i <= made.len() ==> (#[trigger] x->Ok_0.counted(made.take(i))).written == file_of(
                made.take(i),
            ).len()
    }

    /// Whatever vault holds an entry, and whatever container holds the pieces
    /// that it is made of where it says: the entry is exported as the file that
    /// the pieces were made from.
    ///
    /// `made` tells how each piece of the file became a chunk, and the file is
    /// its pieces put together. What a chunk was sealed to has to open, under
    /// the same number and additional data, to what was compressed, and only
    /// as the compression it was given; and decompressing has to undo
    /// compressing.
    pub proof fn law_kept_entry_exports(
        self,
        index: usize,
        ps: Seq<Piece>,
        made: Seq<Made>,
        w: ChunkWorld,
        store: CompressSuite,
        limits: Limits,
    )
        requires
            self.master is Some,
            self.keeps(index as int, ps, w.container),
            crate::paths::sanitized(
                self.manifest.entries[index as int].path,
                limits.max_path_depth,
            ) is Ok,
            made.len() == ps.len() <= usize::MAX,
            forall|i: int|
                0 <= i < ps.len() ==> (#[trigger] ps[i]).sealed.len()
                    <= limits.max_chunk_ciphertext,
            forall|i: int|
                0 <= i < ps.len() ==> (#[trigger] made[i]).undone(
                    w,
                    self.chunk_reader(index as int, i, store),
                    ps[i],
                ),
        ensures
            self.exports_as(index, made, w, store, limits),
    {
        let max = limits.max_chunk_ciphertext;
        assert forall|i: int| 0 <= i < ps.len() implies w.outcome(
            #[trigger] self.chunk_reader(index as int, i, store),
            max,
        ) == Ok::<Seq<u8>, ErrorView>(made[i].plain) by {
            let r = self.chunk_reader(index as int, i, store);
            let m = made[i];
            assert(r.chunk == self.manifest.entries[index as int].chunks[i]);
            assert(ps[i].sealed.len() <= max);
            assert(m.undone(w, r, ps[i]));
            w.law_sealed_chunk_reads_back(r, max, m.used, ps[i].sealed, m.compressed, m.plain);
        }
        lemma_put_together(self, w, index as int, store, max, made, ps.len());
        assert(made.take(ps.len() as int) =~= made);
        assert forall|i: int| 0 <= i < ps.len() implies (#[trigger] made[i]).plain.len()
            == ps[i].plain_len by {}
        lemma_sizes(made, ps);
        let x = self.export(index, limits.max_path_depth)->Ok_0;
        lemma_counted(x, made);
        assert forall|i: int| 0 <= i <= ps.len() implies (#[trigger] x.counted(
            made.take(i),
        )).written == file_of(made.take(i)).len() by {
            lemma_file_grows(made, i);
            lemma_counted(x, made.take(i));
        }
    }
}

} // verus!
