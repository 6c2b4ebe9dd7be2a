//! What an import leaves in the container and in the manifest.

use crate::container::OpView;
use crate::manifest::ChunkView;
use crate::suite::CompressSuite;
use crate::vault::import::{ImportView, Piece};
use crate::vault::save::MAX_POSITION;
use crate::vault::{Limits, VaultView, CHUNK_SIZE};
use vstd::prelude::*;

verus! {

impl ImportView {
    /// The import after several chunks.
    pub open spec fn fed(self, ps: Seq<Piece>) -> ImportView
        decreases ps.len(),
    {
        if ps.len() == 0 {
            self
        } else {
            self.fed(ps.drop_last()).plus(ps.last())
        }
    }

    /// The writes that go with them.
    pub open spec fn writes(self, ps: Seq<Piece>) -> Seq<OpView>
        decreases ps.len(),
    {
        if ps.len() == 0 {
            Seq::empty()
        } else {
            self.writes(ps.drop_last()).push(
                self.fed(ps.drop_last()).next_write(ps.last().sealed),
            )
        }
    }

    /// Every one of the chunks is taken: none is refused.
    pub open spec fn takes(self, ps: Seq<Piece>, max: u32) -> bool
        decreases ps.len(),
    {
        ps.len() > 0 ==> {
            &&& self.takes(ps.drop_last(), max)
            &&& self.fed(ps.drop_last()).refusal(ps.last().sealed, max) is None
            &&& 0 < ps.last().plain_len <= CHUNK_SIZE
        }
    }
}

/// How many plain bytes chunks hold together.
pub open spec fn plain_sum(ps: Seq<Piece>) -> int
    decreases ps.len(),
{
    if ps.len() == 0 {
        0
    } else {
        plain_sum(ps.drop_last()) + ps.last().plain_len
    }
}

/// How many sealed bytes chunks have together.
pub open spec fn sealed_sum(ps: Seq<Piece>) -> int
    decreases ps.len(),
{
    if ps.len() == 0 {
        0
    } else {
        sealed_sum(ps.drop_last()) + ps.last().sealed.len()
    }
}

/// Sealed bytes are counted upward.
pub proof fn lemma_sealed_sum_grows(ps: Seq<Piece>, i: int)
    requires
        0 <= i <= ps.len(),
    ensures
        0 <= sealed_sum(ps.take(i)) <= sealed_sum(ps),
        i < ps.len() ==> sealed_sum(ps.take(i)) + ps[i].sealed.len() <= sealed_sum(ps),
    decreases ps.len(),
{
    if i == ps.len() {
        assert(ps.take(i) =~= ps);
        if i > 0 {
            lemma_sealed_sum_grows(ps.drop_last(), i - 1);
            assert(ps.drop_last().take(i - 1) =~= ps.drop_last());
        }
    } else {
        lemma_sealed_sum_grows(ps.drop_last(), i);
        assert(ps.drop_last().take(i) =~= ps.take(i));
        if i == ps.len() - 1 {
            assert(ps.take(i) =~= ps.drop_last());
        }
    }
}

/// The chunks of an import lie back to back from where it began, one for each
/// piece, in order; the sizes recorded are the sizes taken, and the next chunk
/// goes behind the last.
pub proof fn law_chunks_lie_back_to_back(im: ImportView, ps: Seq<Piece>, max: u32)
    requires
        im.chunks.len() == 0,
        im.total == 0,
        im.takes(ps, max),
    ensures
        im.fed(ps).chunks.len() == ps.len(),
        im.fed(ps).total == plain_sum(ps),
        im.fed(ps).cursor == im.cursor + sealed_sum(ps),
        im.fed(ps).object_id == im.object_id,
        im.fed(ps).path == im.path,
        im.fed(ps).region == im.region,
        forall|i: int|
            0 <= i < ps.len() ==> #[trigger] im.fed(ps).chunks[i] == (ChunkView {
                offset: (im.cursor + sealed_sum(ps.take(i))) as u64,
                ciphertext_len: ps[i].sealed.len() as u32,
                plaintext_len: ps[i].plain_len as u32,
                hash: ps[i].hash,
            }),
        forall|i: int|
            0 <= i < ps.len() ==> (#[trigger] ps[i]).sealed.len() <= max && im.cursor + sealed_sum(
                ps.take(i),
            ) <= MAX_POSITION,
    decreases ps.len(),
{
    if ps.len() > 0 {
        let init = ps.drop_last();
        law_chunks_lie_back_to_back(im, init, max);
        let a = im.fed(init);
        let b = im.fed(ps);
        assert forall|i: int| 0 <= i < ps.len() implies #[trigger] b.chunks[i] == (ChunkView {
            offset: (im.cursor + sealed_sum(ps.take(i))) as u64,
            ciphertext_len: ps[i].sealed.len() as u32,
            plaintext_len: ps[i].plain_len as u32,
            hash: ps[i].hash,
        }) by {
            if i < init.len() {
                assert(b.chunks[i] == a.chunks[i]);
                assert(init.take(i) =~= ps.take(i));
                assert(init[i] == ps[i]);
            } else {
                assert(ps.take(i) =~= init);
            }
        }
        assert forall|i: int| 0 <= i < ps.len() implies (#[trigger] ps[i]).sealed.len() <= max
            && im.cursor + sealed_sum(ps.take(i)) <= MAX_POSITION by {
            if i < init.len() {
                assert(init.take(i) =~= ps.take(i));
                assert(init[i] == ps[i]);
            } else {
                assert(ps.take(i) =~= init);
            }
        }
    }
}

/// After an import the container holds each sealed chunk where the manifest
/// says it lies, and what lay before the import began is as it was.
pub proof fn law_imported_chunks_can_be_read(
    im: ImportView,
    ps: Seq<Piece>,
    max: u32,
    c: Seq<u8>,
)
    requires
        im.chunks.len() == 0,
        im.total == 0,
        im.takes(ps, max),
    ensures
        ({
            let d = crate::container::applied(c, im.writes(ps));
            &&& forall|i: int|
                0 <= i < ps.len() ==> crate::container::read_at(
                    d,
                    (#[trigger] im.fed(ps).chunks[i]).offset as int,
                    im.fed(ps).chunks[i].ciphertext_len as int,
                ) == ps[i].sealed
            &&& forall|k: int| 0 <= k < im.cursor && k < c.len() ==> d[k] == c[k]
            &&& d.len() >= c.len()
            &&& sealed_sum(ps) > 0 ==> d.len() >= im.cursor + sealed_sum(ps)
        }),
    decreases ps.len(),
{
    if ps.len() > 0 {
        let init = ps.drop_last();
        let last = ps.last();
        law_imported_chunks_can_be_read(im, init, max, c);
        law_chunks_lie_back_to_back(im, init, max);
        law_chunks_lie_back_to_back(im, ps, max);
        let a = crate::container::applied(c, im.writes(init));
        let d = crate::container::applied(c, im.writes(ps));
        let at = im.fed(init).cursor as int;
        assert(im.writes(ps).drop_last() =~= im.writes(init));
        assert(d == crate::container::written(a, at, last.sealed));
        crate::container::lemma_written(a, at, last.sealed);
        lemma_sealed_sum_grows(init, 0);
        assert(init.take(0) =~= Seq::<Piece>::empty());
        assert forall|i: int| 0 <= i < ps.len() implies crate::container::read_at(
            d,
            (#[trigger] im.fed(ps).chunks[i]).offset as int,
            im.fed(ps).chunks[i].ciphertext_len as int,
        ) == ps[i].sealed by {
            let off = im.cursor + sealed_sum(ps.take(i));
            let n = ps[i].sealed.len() as int;
            assert(ps[i].sealed.len() <= max);
            lemma_sealed_sum_grows(ps, i);
            if i < init.len() {
                assert(im.fed(init).chunks[i] == im.fed(ps).chunks[i]);
                assert(init[i] == ps[i]);
                assert(init.take(i) =~= ps.take(i));
                lemma_sealed_sum_grows(init, i);
                let x = crate::container::read_at(a, off, n);
                let y = crate::container::read_at(d, off, n);
                assert(x == ps[i].sealed);
                assert(y =~= x);
            } else {
                assert(ps.take(i) =~= init);
                let y = crate::container::read_at(d, off, n);
                assert(y =~= last.sealed);
            }
        }
    }
}

impl<K> VaultView<K> {
    /// A chunk that lies behind the header and before the manifest reads the
    /// same after a save as before it.
    pub proof fn law_chunks_survive_a_save(
        self,
        c: Seq<u8>,
        nonce: Seq<u8>,
        plain_len: u64,
        sealed: Seq<u8>,
        carried: Option<Seq<u8>>,
        filler: Seq<u8>,
        max: u64,
        offset: int,
        len: int,
    )
        requires
            self.can_save(nonce, sealed, filler, max),
            self.header.head().len() <= offset,
            0 <= len,
            offset + len <= self.data_end,
            offset + len <= c.len(),
        ensures
            crate::container::read_at(
                self.saved(c, nonce, plain_len, sealed, carried, filler, max),
                offset,
                len,
            ) == crate::container::read_at(c, offset, len),
    {
        let d = self.saved(c, nonce, plain_len, sealed, carried, filler, max);
        self.law_saved_container(c, nonce, plain_len, sealed, carried, filler, max);
        self.lemma_saved_header(sealed, carried, filler, max);
        assert(d.len() >= self.data_end);
        assert(crate::container::read_at(d, offset, len) =~= crate::container::read_at(
            c,
            offset,
            len,
        ));
    }

    /// An import adds one entry behind those that were there, and changes
    /// nothing else that the manifest or the header records.
    pub proof fn law_import_adds_one_entry(
        self,
        stored_path: Seq<char>,
        object_id: Seq<u8>,
        limits: Limits,
        ps: Seq<Piece>,
        mtime: i64,
        store: CompressSuite,
    )
        requires
            self.import(stored_path, object_id, limits).takes(ps, limits.max_chunk_ciphertext),
        ensures
            ({
                let im = self.import(stored_path, object_id, limits).fed(ps);
                let v = self.imported(im, mtime, store);
                let e = v.manifest.entries.last();
                &&& v.manifest.entries.drop_last() == self.manifest.entries
                &&& e.path == stored_path
                &&& e.object_id == object_id
                &&& e.size == plain_sum(ps)
                &&& e.mtime == mtime
                &&& e.chunks.len() == ps.len()
                &&& e.compress_suite == if ps.len() == 0 {
                    store
                } else {
                    self.header.compress_suite
                }
                &&& v.data_end == self.data_end + sealed_sum(ps)
                &&& v.header == self.header
                &&& v.manifest.generation == self.manifest.generation
            }),
    {
        let im = self.import(stored_path, object_id, limits);
        law_chunks_lie_back_to_back(im, ps, limits.max_chunk_ciphertext);
        let v = self.imported(im.fed(ps), mtime, store);
        assert(v.manifest.entries.drop_last() =~= self.manifest.entries);
    }

    /// An import leaves a vault in good order.
    pub proof fn law_import_keeps_order(
        self,
        stored_path: Seq<char>,
        object_id: Seq<u8>,
        limits: Limits,
        ps: Seq<Piece>,
        mtime: i64,
        store: CompressSuite,
    )
        requires
            self.orderly(),
            self.import(stored_path, object_id, limits).takes(ps, limits.max_chunk_ciphertext),
        ensures
            self.imported(
                self.import(stored_path, object_id, limits).fed(ps),
                mtime,
                store,
            ).orderly(),
    {
        let im = self.import(stored_path, object_id, limits);
        law_chunks_lie_back_to_back(im, ps, limits.max_chunk_ciphertext);
        lemma_sealed_sum_grows(ps, 0);
        assert(ps.take(0) =~= Seq::<Piece>::empty());
    }
}

} // verus!
