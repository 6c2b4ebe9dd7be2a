//! Reading one chunk.
//!
//! A [`ChunkReader`] decides; whoever runs it reads, hashes, opens and
//! decompresses, and answers. The compression recorded for a file is one that
//! its chunks may have. Which one a chunk has is pinned by its additional
//! data, so the recorded one is tried first and plain storage second.

use crate::binding::chunk_aad;
use crate::error::{Error, ErrorView};
use crate::le::same_bytes;
use crate::manifest::{ChunkRef, ChunkView};
use crate::suite::{CompressSuite, CryptoSuite};
use crate::text::{decimal_text, join3};
use crate::vault::{Limits, Vault, VaultView};
use vstd::prelude::*;

verus! {

/// What is asked of whoever runs a reader.
pub enum ChunkAsk {
    /// Up to `len` bytes at a position, as many as there are, and their hash.
    Bytes { at: u64, len: u32 },
    /// What a ciphertext opens to under the file's key, the nonce of a chunk
    /// number, and additional data.
    Open { suite: CryptoSuite, index: u64, sealed: Vec<u8>, aad: Vec<u8> },
    /// What compressed bytes come to, which should be `len` bytes.
    Inflate { method: CompressSuite, inner: Vec<u8>, len: u32 },
}

/// A question, with its bytes as sequences.
pub enum ChunkAskView {
    Bytes { at: u64, len: u32 },
    Open { suite: CryptoSuite, index: u64, sealed: Seq<u8>, aad: Seq<u8> },
    Inflate { method: CompressSuite, inner: Seq<u8>, len: u32 },
}

impl View for ChunkAsk {
    type V = ChunkAskView;

    open spec fn view(&self) -> ChunkAskView {
        match *self {
            ChunkAsk::Bytes { at, len } => ChunkAskView::Bytes { at, len },
            ChunkAsk::Open { suite, index, sealed, aad } => ChunkAskView::Open {
                suite,
                index,
                sealed: sealed@,
                aad: aad@,
            },
            ChunkAsk::Inflate { method, inner, len } => ChunkAskView::Inflate {
                method,
                inner: inner@,
                len,
            },
        }
    }
}

/// What comes back for a question.
pub enum ChunkReply {
    /// It could not be done.
    Failed(Error),
    Bytes { data: Vec<u8>, hash: [u8; 32] },
    /// The ciphertext does not open; here it is again.
    NotOpened { sealed: Vec<u8> },
    Opened(Vec<u8>),
    Plain(Vec<u8>),
}

/// A reply, with its parts as their views.
pub enum ChunkReplyView {
    Failed(ErrorView),
    Bytes { data: Seq<u8>, hash: Seq<u8> },
    NotOpened { sealed: Seq<u8> },
    Opened(Seq<u8>),
    Plain(Seq<u8>),
}

impl View for ChunkReply {
    type V = ChunkReplyView;

    open spec fn view(&self) -> ChunkReplyView {
        match *self {
            ChunkReply::Failed(e) => ChunkReplyView::Failed(e@),
            ChunkReply::Bytes { data, hash } => ChunkReplyView::Bytes { data: data@, hash: hash@ },
            ChunkReply::NotOpened { sealed } => ChunkReplyView::NotOpened { sealed: sealed@ },
            ChunkReply::Opened(b) => ChunkReplyView::Opened(b@),
            ChunkReply::Plain(b) => ChunkReplyView::Plain(b@),
        }
    }
}

/// What a reader is waiting for.
#[derive(Debug, Clone, Copy, PartialEq, Eq, Structural)]
pub enum ChunkPhase {
    Bytes,
    /// The ciphertext being opened as the compression recorded for the file.
    AsRecorded,
    /// The ciphertext being opened as plain storage.
    AsStored,
    Inflate,
}

/// The reading of one chunk, between two questions.
pub struct ChunkReader {
    object_id: [u8; 16],
    index: u64,
    chunk: ChunkRef,
    crypto_suite: CryptoSuite,
    recorded: CompressSuite,
    store: CompressSuite,
    phase: ChunkPhase,
}

/// A reader, with its parts as their views.
pub struct ChunkReaderView {
    pub object_id: Seq<u8>,
    pub index: u64,
    pub chunk: ChunkView,
    pub crypto_suite: CryptoSuite,
    pub recorded: CompressSuite,
    pub store: CompressSuite,
    pub phase: ChunkPhase,
}

impl View for ChunkReader {
    type V = ChunkReaderView;

    closed spec fn view(&self) -> ChunkReaderView {
        ChunkReaderView {
            object_id: self.object_id@,
            index: self.index,
            chunk: self.chunk@,
            crypto_suite: self.crypto_suite,
            recorded: self.recorded,
            store: self.store,
            phase: self.phase,
        }
    }
}

/// What a reader comes to: another question, or an end.
pub enum ChunkStep {
    Ask(ChunkReader, ChunkAsk),
    Plain(Vec<u8>),
    Refused(Error),
}

/// A step, with its parts as their views.
pub enum ChunkStepView {
    Ask(ChunkReaderView, ChunkAskView),
    Plain(Seq<u8>),
    Refused(ErrorView),
}

impl View for ChunkStep {
    type V = ChunkStepView;

    open spec fn view(&self) -> ChunkStepView {
        match *self {
            ChunkStep::Ask(r, a) => ChunkStepView::Ask(r@, a@),
            ChunkStep::Plain(b) => ChunkStepView::Plain(b@),
            ChunkStep::Refused(e) => ChunkStepView::Refused(e@),
        }
    }
}

impl ChunkReaderView {
    /// The first question.
    pub open spec fn first(self, max: u32) -> ChunkStepView {
        if self.chunk.ciphertext_len > max {
            ChunkStepView::Refused(
                ErrorView::LimitExceeded("chunk ciphertext exceeds the limit"@),
            )
        } else {
            ChunkStepView::Ask(
                ChunkReaderView { phase: ChunkPhase::Bytes, ..self },
                ChunkAskView::Bytes {
                    at: self.chunk.offset,
                    len: self.chunk.ciphertext_len,
                },
            )
        }
    }

    /// The compression that a phase tries, or has found.
    pub open spec fn tried(self, phase: ChunkPhase) -> CompressSuite {
        if phase is AsRecorded {
            self.recorded
        } else {
            self.store
        }
    }

    /// The ciphertext is asked to be opened, as one compression or the other.
    pub open spec fn ask_open(self, phase: ChunkPhase, sealed: Seq<u8>) -> ChunkStepView {
        ChunkStepView::Ask(
            ChunkReaderView { phase, ..self },
            ChunkAskView::Open {
                suite: self.crypto_suite,
                index: self.index,
                sealed,
                aad: crate::binding::chunk_binding(
                    self.object_id,
                    self.index,
                    self.chunk.plaintext_len,
                    self.tried(phase),
                ),
            },
        )
    }

    /// The ciphertext was read.
    pub open spec fn on_bytes(self, data: Seq<u8>, hash: Seq<u8>) -> ChunkStepView {
        if data.len() != self.chunk.ciphertext_len {
            ChunkStepView::Refused(ErrorView::Integrity("vault is truncated"@))
        } else if hash != self.chunk.hash {
            ChunkStepView::Refused(
                ErrorView::Integrity(
                    "chunk "@ + crate::text::decimal(self.index as nat)
                        + " does not match its recorded hash"@,
                ),
            )
        } else {
            self.ask_open(ChunkPhase::AsRecorded, data)
        }
    }

    /// The ciphertext was opened.
    pub open spec fn on_opened(self, inner: Seq<u8>) -> ChunkStepView {
        ChunkStepView::Ask(
            ChunkReaderView { phase: ChunkPhase::Inflate, ..self },
            ChunkAskView::Inflate {
                method: self.tried(self.phase),
                inner,
                len: self.chunk.plaintext_len,
            },
        )
    }
}

/// What follows a reply.
pub open spec fn chunk_next(r: ChunkReaderView, reply: ChunkReplyView) -> ChunkStepView {
    match (r.phase, reply) {
        (_, ChunkReplyView::Failed(e)) => ChunkStepView::Refused(e),
        (ChunkPhase::Bytes, ChunkReplyView::Bytes { data, hash }) => r.on_bytes(data, hash),
        (ChunkPhase::AsRecorded, ChunkReplyView::NotOpened { sealed }) => r.ask_open(
            ChunkPhase::AsStored,
            sealed,
        ),
        (ChunkPhase::AsStored, ChunkReplyView::NotOpened { .. }) => ChunkStepView::Refused(
            ErrorView::AuthenticationFailed,
        ),
        (ChunkPhase::AsRecorded, ChunkReplyView::Opened(inner)) => r.on_opened(inner),
        (ChunkPhase::AsStored, ChunkReplyView::Opened(inner)) => r.on_opened(inner),
        (ChunkPhase::Inflate, ChunkReplyView::Plain(b)) => ChunkStepView::Plain(b),
        _ => ChunkStepView::Refused(
            ErrorView::Other("the reply does not answer what was asked"@),
        ),
    }
}

impl ChunkReader {
    /// Asks for the ciphertext to be opened.
    fn ask_open(self, phase: ChunkPhase, sealed: Vec<u8>) -> (r: ChunkStep)
        ensures
            r@ == self@.ask_open(phase, sealed@),
    {
        let suite: CompressSuite = match phase {
            ChunkPhase::AsRecorded => self.recorded,
            _ => self.store,
        };
        let aad = chunk_aad(&self.object_id, self.index, self.chunk.plaintext_len, suite);
        let ask = ChunkAsk::Open { suite: self.crypto_suite, index: self.index, sealed, aad };
        let mut reader = self;
        reader.phase = phase;
        ChunkStep::Ask(reader, ask)
    }

    /// Asks for opened bytes to be decompressed.
    fn on_opened(self, inner: Vec<u8>) -> (r: ChunkStep)
        ensures
            r@ == self@.on_opened(inner@),
    {
        let method: CompressSuite = match self.phase {
            ChunkPhase::AsRecorded => self.recorded,
            _ => self.store,
        };
        let len: u32 = self.chunk.plaintext_len;
        let mut reader = self;
        reader.phase = ChunkPhase::Inflate;
        ChunkStep::Ask(reader, ChunkAsk::Inflate { method, inner, len })
    }

    /// Goes on with what came back for the last question.
    pub fn step(self, reply: ChunkReply) -> (r: ChunkStep)
        ensures
            r@ == chunk_next(self@, reply@),
    {
        match (self.phase, reply) {
            (_, ChunkReply::Failed(e)) => ChunkStep::Refused(e),
            (ChunkPhase::Bytes, ChunkReply::Bytes { data, hash }) => {
                if data.len() as u64 != self.chunk.ciphertext_len as u64 {
                    return ChunkStep::Refused(Error::Integrity("vault is truncated".to_owned()));
                }
                if !same_bytes(hash.as_slice(), self.chunk.hash.as_slice()) {
                    let n = decimal_text(self.index);
                    return ChunkStep::Refused(
                        Error::Integrity(
                            join3("chunk ", n.as_str(), " does not match its recorded hash"),
                        ),
                    );
                }
                self.ask_open(ChunkPhase::AsRecorded, data)
            },
            (ChunkPhase::AsRecorded, ChunkReply::NotOpened { sealed }) => self.ask_open(
                ChunkPhase::AsStored,
                sealed,
            ),
            (ChunkPhase::AsStored, ChunkReply::NotOpened { sealed: _ }) => ChunkStep::Refused(
                Error::AuthenticationFailed,
            ),
            (ChunkPhase::AsRecorded, ChunkReply::Opened(inner)) => self.on_opened(inner),
            (ChunkPhase::AsStored, ChunkReply::Opened(inner)) => self.on_opened(inner),
            (ChunkPhase::Inflate, ChunkReply::Plain(b)) => ChunkStep::Plain(b),
            _ => ChunkStep::Refused(
                Error::Other("the reply does not answer what was asked".to_owned()),
            ),
        }
    }
}

impl<K> VaultView<K> {
    /// There is such an entry, and it has such a chunk.
    pub open spec fn has_chunk(self, entry: int, chunk: int) -> bool {
        0 <= entry < self.manifest.entries.len() && 0 <= chunk
            < self.manifest.entries[entry].chunks.len()
    }

    /// The reader of a chunk of an entry.
    pub open spec fn chunk_reader(
        self,
        entry: int,
        chunk: int,
        store: CompressSuite,
    ) -> ChunkReaderView {
        let e = self.manifest.entries[entry];
        ChunkReaderView {
            object_id: e.object_id,
            index: chunk as u64,
            chunk: e.chunks[chunk],
            crypto_suite: self.header.crypto_suite,
            recorded: e.compress_suite,
            store,
            phase: ChunkPhase::Bytes,
        }
    }
}

impl<K> Vault<K> {
    /// Begins to read a chunk of an entry; nothing, when there is no such
    /// chunk. `store` is the code for content that is not compressed.
    pub fn read_chunk(
        &self,
        entry: usize,
        chunk: usize,
        store: CompressSuite,
        limits: &Limits,
    ) -> (r: Option<ChunkStep>)
        ensures
            r is Some <==> self@.has_chunk(entry as int, chunk as int),
            match r {
                Some(s) => {
                    &&& entry < self@.manifest.entries.len()
                    &&& chunk < self@.manifest.entries[entry as int].chunks.len()
                    &&& s@ == self@.chunk_reader(entry as int, chunk as int, store).first(
                        limits.max_chunk_ciphertext,
                    )
                },
                None => entry >= self@.manifest.entries.len() || chunk
                    >= self@.manifest.entries[entry as int].chunks.len(),
            },
    {
        if entry >= self.manifest.entries.len() {
            return None;
        }
        let e = &self.manifest.entries[entry];
        assert(self@.manifest.entries[entry as int] == e@);
        if chunk >= e.chunks.len() {
            return None;
        }
        let c: ChunkRef = e.chunks[chunk];
        assert(e@.chunks[chunk as int] == c@);
        if c.ciphertext_len > limits.max_chunk_ciphertext {
            return Some(
                ChunkStep::Refused(
                    Error::LimitExceeded("chunk ciphertext exceeds the limit".to_owned()),
                ),
            );
        }
        let reader = ChunkReader {
            object_id: e.object_id,
            index: chunk as u64,
            chunk: c,
            crypto_suite: self.header.crypto_suite,
            recorded: e.compress_suite,
            store,
            phase: ChunkPhase::Bytes,
        };
        Some(ChunkStep::Ask(reader, ChunkAsk::Bytes { at: c.offset, len: c.ciphertext_len }))
    }
}

/// What answers a reader: the container, the hash, the file's key and the
/// decompressor.
pub struct ChunkWorld {
    pub container: Seq<u8>,
    pub hash: spec_fn(Seq<u8>) -> Seq<u8>,
    pub open: spec_fn(CryptoSuite, u64, Seq<u8>, Seq<u8>) -> Option<Seq<u8>>,
    pub inflate: spec_fn(CompressSuite, Seq<u8>, u32) -> Result<Seq<u8>, ErrorView>,
}

impl ChunkWorld {
    /// The reply to a question.
    pub open spec fn answer(self, ask: ChunkAskView) -> ChunkReplyView {
        match ask {
            ChunkAskView::Bytes { at, len } => {
                let data = crate::container::read_at(self.container, at as int, len as int);
                ChunkReplyView::Bytes { data, hash: (self.hash)(data) }
            },
            ChunkAskView::Open { suite, index, sealed, aad } => match (self.open)(
                suite,
                index,
                sealed,
                aad,
            ) {
                Some(inner) => ChunkReplyView::Opened(inner),
                None => ChunkReplyView::NotOpened { sealed },
            },
            ChunkAskView::Inflate { method, inner, len } => match (self.inflate)(
                method,
                inner,
                len,
            ) {
                Ok(b) => ChunkReplyView::Plain(b),
                Err(e) => ChunkReplyView::Failed(e),
            },
        }
    }

    /// Answers questions until there are none left, or `fuel` of them.
    pub open spec fn play(self, step: ChunkStepView, fuel: nat) -> ChunkStepView
        decreases fuel,
    {
        match step {
            ChunkStepView::Ask(r, ask) => if fuel == 0 {
                step
            } else {
                self.play(chunk_next(r, self.answer(ask)), (fuel - 1) as nat)
            },
            _ => step,
        }
    }

    /// What opening a chunk's ciphertext as some compression gives.
    pub open spec fn opened_as(
        self,
        r: ChunkReaderView,
        sealed: Seq<u8>,
        suite: CompressSuite,
    ) -> Option<Seq<u8>> {
        (self.open)(
            r.crypto_suite,
            r.index,
            sealed,
            crate::binding::chunk_binding(r.object_id, r.index, r.chunk.plaintext_len, suite),
        )
    }

    /// What reading a chunk comes to.
    pub open spec fn outcome(self, r: ChunkReaderView, max: u32) -> Result<Seq<u8>, ErrorView> {
        let sealed = crate::container::read_at(
            self.container,
            r.chunk.offset as int,
            r.chunk.ciphertext_len as int,
        );
        if r.chunk.ciphertext_len > max {
            Err(ErrorView::LimitExceeded("chunk ciphertext exceeds the limit"@))
        } else if sealed.len() != r.chunk.ciphertext_len {
            Err(ErrorView::Integrity("vault is truncated"@))
        } else if (self.hash)(sealed) != r.chunk.hash {
            Err(
                ErrorView::Integrity(
                    "chunk "@ + crate::text::decimal(r.index as nat)
                        + " does not match its recorded hash"@,
                ),
            )
        } else if let Some(inner) = self.opened_as(r, sealed, r.recorded) {
            (self.inflate)(r.recorded, inner, r.chunk.plaintext_len)
        } else if let Some(inner) = self.opened_as(r, sealed, r.store) {
            (self.inflate)(r.store, inner, r.chunk.plaintext_len)
        } else {
            Err(ErrorView::AuthenticationFailed)
        }
    }

    /// A reader, run to its end, comes to what [`ChunkWorld::outcome`] says.
    pub proof fn law_chunk_reader_runs(self, r: ChunkReaderView, max: u32)
        ensures
            self.play(r.first(max), 4) == match self.outcome(r, max) {
                Ok(b) => ChunkStepView::Plain(b),
                Err(e) => ChunkStepView::Refused(e),
            },
    {
        reveal_with_fuel(ChunkWorld::play, 5);
    }

    /// A chunk whose bytes changed in the container is never handed out as
    /// plaintext, as long as the change changes the hash.
    pub proof fn law_damaged_chunk_is_refused(self, r: ChunkReaderView, max: u32)
        requires
            (self.hash)(
                crate::container::read_at(
                    self.container,
                    r.chunk.offset as int,
                    r.chunk.ciphertext_len as int,
                ),
            ) != r.chunk.hash,
        ensures
            self.outcome(r, max) is Err,
    {
    }

    /// What reading a chunk comes to depends on where it lies only through the
    /// bytes that are there.
    pub proof fn law_moved_chunk_reads_the_same(
        self,
        other: Seq<u8>,
        r: ChunkReaderView,
        offset: u64,
        max: u32,
    )
        requires
            crate::container::read_at(
                other,
                offset as int,
                r.chunk.ciphertext_len as int,
            ) == crate::container::read_at(
                self.container,
                r.chunk.offset as int,
                r.chunk.ciphertext_len as int,
            ),
        ensures
            (ChunkWorld { container: other, ..self }).outcome(
                ChunkReaderView { chunk: ChunkView { offset, ..r.chunk }, ..r },
                max,
            ) == self.outcome(r, max),
    {
    }

    /// What an import sealed, a read gives back: the chunk opens as the
    /// compression it was given, the recorded one or plain storage, and is
    /// decompressed as that. A chunk that was stored plainly must not open as
    /// the recorded compression; its additional data differs.
    pub proof fn law_sealed_chunk_reads_back(
        self,
        r: ChunkReaderView,
        max: u32,
        used: CompressSuite,
        sealed: Seq<u8>,
        compressed: Seq<u8>,
        plain: Seq<u8>,
    )
        requires
            r.chunk.ciphertext_len <= max,
            r.chunk.ciphertext_len == sealed.len(),
            r.chunk.hash == (self.hash)(sealed),
            crate::container::read_at(
                self.container,
                r.chunk.offset as int,
                sealed.len() as int,
            ) == sealed,
            used == r.recorded || used == r.store,
            self.opened_as(r, sealed, used) == Some(compressed),
            used != r.recorded ==> self.opened_as(r, sealed, r.recorded) is None,
            (self.inflate)(used, compressed, r.chunk.plaintext_len) == Ok::<Seq<u8>, ErrorView>(
                plain,
            ),
        ensures
            self.outcome(r, max) == Ok::<Seq<u8>, ErrorView>(plain),
    {
    }
}

impl<K> VaultView<K> {
    /// A chunk of an entry is read as that chunk of that entry: under its
    /// identifier, its number, its place and its sizes, with the vault's cipher
    /// and the compression recorded for the entry.
    pub proof fn law_reader_reads_its_own_chunk(self, entry: int, chunk: u64, store: CompressSuite)
        ensures
            ({
                let r = self.chunk_reader(entry, chunk as int, store);
                &&& r.object_id == self.manifest.entries[entry].object_id
                &&& r.index == chunk
                &&& r.chunk == self.manifest.entries[entry].chunks[chunk as int]
                &&& r.crypto_suite == self.header.crypto_suite
                &&& r.recorded == self.manifest.entries[entry].compress_suite
                &&& r.store == store
            }),
    {
    }
}

impl ChunkWorld {
    /// A chunk comes to plain bytes exactly if it is no larger than a chunk may
    /// be, all of it is there and has the recorded hash, and it opens, under its
    /// number and bound to its file, its number, its size and a compression,
    /// as the compression recorded for its file, or else as plain storage; and
    /// decompresses to those bytes as whichever it opened as.
    pub proof fn law_chunk_is_read_exactly_when(self, r: ChunkReaderView, max: u32, plain: Seq<u8>)
        requires
            r.chunk.ciphertext_len > 0,
        ensures
            self.outcome(r, max) == Ok::<Seq<u8>, ErrorView>(plain) <==> {
                let at = r.chunk.offset as int;
                let n = r.chunk.ciphertext_len as int;
                let sealed = self.container.subrange(at, at + n);
                let first = (self.open)(
                    r.crypto_suite,
                    r.index,
                    sealed,
                    crate::binding::chunk_binding(
                        r.object_id,
                        r.index,
                        r.chunk.plaintext_len,
                        r.recorded,
                    ),
                );
                let second = (self.open)(
                    r.crypto_suite,
                    r.index,
                    sealed,
                    crate::binding::chunk_binding(
                        r.object_id,
                        r.index,
                        r.chunk.plaintext_len,
                        r.store,
                    ),
                );
                let used = if first is Some {
                    r.recorded
                } else {
                    r.store
                };
                let inner = if first is Some {
                    first
                } else {
                    second
                };
                &&& n <= max
                &&& at + n <= self.container.len()
                &&& (self.hash)(sealed) == r.chunk.hash
                &&& inner is Some
                &&& (self.inflate)(used, inner->0, r.chunk.plaintext_len) == Ok::<
                    Seq<u8>,
                    ErrorView,
                >(plain)
            },
    {
        let at = r.chunk.offset as int;
        let n = r.chunk.ciphertext_len as int;
        let read = crate::container::read_at(self.container, at, n);
        if at + n <= self.container.len() {
            assert(read =~= self.container.subrange(at, at + n));
        }
    }

    /// Why a chunk is not read: it is larger than a chunk may be; the container
    /// ends before it does; its hash is not the recorded one; it opens as
    /// neither compression. The first that holds is the one reported.
    pub proof fn law_chunk_refusals_in_order(self, r: ChunkReaderView, max: u32)
        ensures
            ({
                let at = r.chunk.offset as int;
                let n = r.chunk.ciphertext_len as int;
                let sealed = self.container.subrange(at, at + n);
                let whole = 0 < n <= max && at + n <= self.container.len();
                &&& n > max ==> self.outcome(r, max) is Err && self.outcome(
                    r,
                    max,
                )->Err_0 is LimitExceeded
                &&& 0 < n <= max && at + n > self.container.len() ==> self.outcome(r, max) == Err::<
                    Seq<u8>,
                    ErrorView,
                >(ErrorView::Integrity("vault is truncated"@))
                &&& whole && (self.hash)(sealed) != r.chunk.hash ==> self.outcome(r, max) is Err
                    && self.outcome(r, max)->Err_0 is Integrity
                &&& whole && (self.hash)(sealed) == r.chunk.hash && self.opened_as(
                    r,
                    sealed,
                    r.recorded,
                ) is None && self.opened_as(r, sealed, r.store) is None ==> self.outcome(r, max)
                    == Err::<Seq<u8>, ErrorView>(ErrorView::AuthenticationFailed)
            }),
    {
        let at = r.chunk.offset as int;
        let n = r.chunk.ciphertext_len as int;
        let read = crate::container::read_at(self.container, at, n);
        if 0 < n && at + n <= self.container.len() {
            assert(read =~= self.container.subrange(at, at + n));
        }
    }
}

/// Every chunk that the manifest lists can be asked for, however many there
/// are, and no other: counting up from the first, the chunks of an entry end
/// exactly where its list does.
pub proof fn law_every_listed_chunk_is_there<K>(v: VaultView<K>, entry: int, chunk: int)
    requires
        0 <= entry,
        0 <= chunk,
    ensures
        v.has_chunk(entry, chunk) <==> entry < v.manifest.entries.len() && chunk
            < v.manifest.entries[entry].chunks.len(),
        v.has_chunk(entry, chunk + 1) ==> v.has_chunk(entry, chunk),
{
}

} // verus!
