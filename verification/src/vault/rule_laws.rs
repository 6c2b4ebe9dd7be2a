//! When each operation is refused, and when it is not, told from what it was
//! given.

use crate::error::ErrorView;
use crate::format::HeaderView;
use crate::manifest::{ChunkView, EntryView};
use crate::similar::Slip;
use crate::vault::create::{create_refusal, new_header, new_vault, AuthenticatorKind, CreatingView, Noise};
use crate::vault::duress::{first_missing, pair_refusal, DuressPlan, FoldingView, Source};
use crate::vault::import::{ImportView, Piece};
use crate::vault::{Identity, Limits, VaultOptions, VaultView};
use vstd::prelude::*;

verus! {

/// A vault is made exactly if the costs and the factors are accepted, the
/// password meets the floor, nothing is at the path yet, and a FIDO2
/// authenticator is at hand where one is required. Having an authenticator
/// never makes up for anything else.
pub proof fn law_made_exactly_when(
    path: Seq<char>,
    exists_already: bool,
    text: Seq<char>,
    opts: VaultOptions,
    kdf: Result<(), ErrorView>,
    factors: Result<(), ErrorView>,
    authenticator: Option<AuthenticatorKind>,
)
    ensures
        create_refusal(path, exists_already, text, opts, kdf, factors, authenticator) is None <==> {
            &&& kdf is Ok
            &&& factors is Ok
            &&& crate::strength::assessment(text).acceptable()
            &&& !exists_already
            &&& opts.factors.hardware ==> authenticator == Some(AuthenticatorKind::Fido2Prf)
        },
{
}

/// A vault is never made over something that is already there, whatever else is
/// asked for; and where nothing but that speaks against it, that is what is
/// said. The other reasons are each said too, where no earlier one applies.
pub proof fn law_nothing_is_made_over_a_file(
    path: Seq<char>,
    exists_already: bool,
    text: Seq<char>,
    opts: VaultOptions,
    kdf: Result<(), ErrorView>,
    factors: Result<(), ErrorView>,
    authenticator: Option<AuthenticatorKind>,
)
    ensures
        ({
            let r = create_refusal(
                path,
                exists_already,
                text,
                opts,
                kdf,
                factors,
                authenticator,
            );
            let fine = kdf is Ok && factors is Ok && crate::strength::assessment(
                text,
            ).acceptable();
            &&& exists_already ==> r is Some
            &&& exists_already && fine ==> r == Some(ErrorView::Other(path + " already exists"@))
            &&& kdf is Err ==> r == Some(kdf->Err_0)
            &&& kdf is Ok && factors is Err ==> r == Some(factors->Err_0)
            &&& kdf is Ok && factors is Ok && !crate::strength::assessment(text).acceptable()
                ==> r == Some(ErrorView::Other(crate::strength::assessment(text).sentence()))
            &&& fine && !exists_already && opts.factors.hardware && authenticator is None
                ==> r is Some && r->0 is NotImplemented
            &&& fine && !exists_already && opts.factors.hardware && authenticator == Some(
                AuthenticatorKind::Other,
            ) ==> r is Some && r->0 is Other
        }),
{
}

/// What a new vault is: of the newest format, with what was chosen and the
/// random bytes it was given, without flags, locked to nothing but its
/// password and the factors chosen, empty, and with its chunks to begin at
/// byte 512.
pub proof fn law_new_vault_is_what_was_chosen<K>(
    path: Seq<char>,
    opts: VaultOptions,
    noise: Noise,
    master: K,
    wrapped: Seq<u8>,
)
    ensures
        ({
            let v = new_vault(
                CreatingView { path, header: new_header(opts, noise) },
                master,
                wrapped,
            );
            let h = v.header;
            &&& h.format_version == 3
            &&& h.crypto_suite == opts.crypto_suite
            &&& h.compress_suite == opts.compress_suite
            &&& h.kdf_params == opts.kdf_params
            &&& h.flags == 0
            &&& h.vault_id == noise.vault_id@
            &&& h.kdf_salt == noise.kdf_salt@
            &&& h.master_key_nonce == noise.master_key_nonce@
            &&& h.wrapped_master_key == wrapped
            &&& h.manifest_offset == 512
            &&& h.manifest_len == 0
            &&& h.auth.required == opts.factors
            &&& opts.factors.hardware ==> h.auth.prf_salt == noise.prf_salt@
            &&& !opts.factors.hardware ==> forall|i: int|
                0 <= i < 32 ==> h.auth.prf_salt[i] == 0u8
            &&& forall|i: int| 0 <= i < 20 ==> h.auth.credential_hint[i] == 0u8
            &&& h.integrity_root.len() == 32
            &&& forall|i: int| 0 <= i < 32 ==> h.integrity_root[i] == 0u8
            &&& h.raw == Some((HeaderView { wrapped_master_key: Seq::new(48, |i: int| 0u8), ..h }).image())
            &&& h.decoy == Some(noise.decoy@)
            &&& v.path == path
            &&& v.master == Some(master)
            &&& v.manifest.entries.len() == 0
            &&& v.manifest.generation == 0
            &&& v.data_end == 512
            &&& v.identity == Identity::Real
            &&& v.shift == 0
        }),
{
}

/// The first missing file is the first one in the list that is no file; there
/// is none exactly if all of them are files.
pub proof fn law_first_missing_is_the_first(sources: Seq<Source>)
    ensures
        first_missing(sources) is None <==> forall|i: int|
            0 <= i < sources.len() ==> (#[trigger] sources[i]).is_file,
        first_missing(sources) matches Some(path) ==> exists|i: int|
            0 <= i < sources.len() && !(#[trigger] sources[i]).is_file && path
                == sources[i].path@ && forall|j: int|
                0 <= j < i ==> (#[trigger] sources[j]).is_file,
    decreases sources.len(),
{
    if sources.len() > 0 {
        let init = sources.drop_last();
        law_first_missing_is_the_first(init);
        assert(sources[sources.len() - 1] == sources.last());
        assert forall|i: int| 0 <= i < init.len() implies (#[trigger] sources[i]) == init[i] by {}
        if first_missing(init) is None {
            assert forall|i: int| 0 <= i < init.len() implies (#[trigger] sources[i]).is_file by {
                assert(init[i].is_file);
            }
        } else {
            let path = first_missing(init)->0;
            let i = choose|i: int|
                0 <= i < init.len() && !(#[trigger] init[i]).is_file && path == init[i].path@
                    && forall|j: int| 0 <= j < i ==> (#[trigger] init[j]).is_file;
            assert(!sources[i].is_file);
            assert forall|j: int| 0 <= j < i implies (#[trigger] sources[j]).is_file by {
                assert(init[j].is_file);
            }
        }
    }
}

/// Two passwords can stand side by side exactly if they differ and are not
/// alike. Which of them is longer, and by how much, plays no role, nor does
/// which of them is the real one.
pub proof fn law_pair_stands_exactly_when(a: Seq<char>, b: Seq<char>)
    ensures
        pair_refusal(a, b) is None <==> a != b && !crate::similar::alike(a, b),
        pair_refusal(a, b) is None <==> pair_refusal(b, a) is None,
        a == b ==> pair_refusal(a, b) == Some(
            ErrorView::Other("the duress password must be different from the real one"@),
        ),
        a != b && crate::similar::alike(a, b) ==> pair_refusal(a, b) matches Some(
            ErrorView::Other(_),
        ),
{
    crate::similar::law_alike_symmetric(a, b);
}

/// Two passwords that begin with the same eight characters are refused as a
/// pair, whatever follows; and so are two that one or two slips turn into one
/// another.
pub proof fn law_slips_and_openings_are_refused(
    opening: Seq<char>,
    a: Seq<char>,
    b: Seq<char>,
    x: Seq<char>,
    e: Slip,
    f: Slip,
)
    requires
        opening.len() >= 8,
        x.len() > 0,
        f.on(e.on(x)).len() > 0,
    ensures
        pair_refusal(opening + a, opening + b) is Some,
        pair_refusal(x, f.on(e.on(x))) is Some,
        pair_refusal(f.on(e.on(x)), x) is Some,
{
    crate::similar::law_shared_opening_alike(opening, a, b);
    crate::similar::law_alike_exactly_when(x, f.on(e.on(x)));
    law_pair_stands_exactly_when(opening + a, opening + b);
    law_pair_stands_exactly_when(x, f.on(e.on(x)));
}

impl<K> VaultView<K> {
    /// A duress password is planned exactly if the handle is on the real
    /// contents, there is something to show and all of it is there, the two
    /// passwords neither equal nor resemble one another, the duress password
    /// meets the floor, and the container has a length that a vault can have.
    pub proof fn law_duress_is_planned_exactly_when(
        self,
        a: Seq<char>,
        b: Seq<char>,
        sources: Seq<Source>,
        container_len: u64,
    )
        ensures
            self.duress_refusal(a, b, sources, container_len) is None <==> {
                &&& self.identity == Identity::Real
                &&& sources.len() > 0
                &&& forall|i: int| 0 <= i < sources.len() ==> (#[trigger] sources[i]).is_file
                &&& a != b
                &&& !crate::similar::alike(a, b)
                &&& crate::strength::assessment(b).acceptable()
                &&& 512 <= container_len <= 0x7fff_ffff_ffff_ffff
            },
    {
        law_first_missing_is_the_first(sources);
        law_pair_stands_exactly_when(a, b);
    }

    /// What speaks against a duress password is said in this order: a handle
    /// that is not the real one, nothing to show, a file that is missing, the
    /// other password, the floor, the container.
    pub proof fn law_duress_refusals_in_order(
        self,
        a: Seq<char>,
        b: Seq<char>,
        sources: Seq<Source>,
        container_len: u64,
        i: int,
    )
        ensures
            ({
                let r = self.duress_refusal(a, b, sources, container_len);
                let is_real = self.identity == Identity::Real;
                let there = is_real && sources.len() > 0 && forall|k: int|
                    0 <= k < sources.len() ==> (#[trigger] sources[k]).is_file;
                &&& !is_real ==> r == Some(ErrorView::Other("this handle is not the real vault"@))
                &&& is_real && sources.len() == 0 ==> r is Some && r->0 is Other
                &&& is_real && 0 <= i < sources.len() && !sources[i].is_file && (forall|k: int|
                    0 <= k < i ==> (#[trigger] sources[k]).is_file) ==> r == Some(
                    ErrorView::Other(
                        sources[i].path@
                            + " is not a file that exists. Choose files already on this computer for the duress password to show"@,
                    ),
                )
                &&& there && (a == b || crate::similar::alike(a, b)) ==> r is Some && r
                    == pair_refusal(a, b)
                &&& there && pair_refusal(a, b) is None && !crate::strength::assessment(
                    b,
                ).acceptable() ==> r == Some(
                    ErrorView::Other(crate::strength::assessment(b).sentence()),
                )
            }),
    {
        law_first_missing_is_the_first(sources);
        law_pair_stands_exactly_when(a, b);
        if 0 <= i < sources.len() && !sources[i].is_file && forall|k: int|
            0 <= k < i ==> (#[trigger] sources[k]).is_file {
            assert(first_missing(sources) is Some) by {
                if first_missing(sources) is None {
                    assert(sources[i].is_file);
                }
            }
            let path = first_missing(sources)->0;
            let n = choose|n: int|
                0 <= n < sources.len() && !(#[trigger] sources[n]).is_file && path
                    == sources[n].path@ && forall|j: int|
                    0 <= j < n ==> (#[trigger] sources[j]).is_file;
            assert(n == i) by {
                if n < i {
                    assert(sources[n].is_file);
                } else if i < n {
                    assert(sources[i].is_file);
                }
            }
        }
    }

    /// An import is begun exactly if the vault is unlocked, the source is a
    /// file, the name it is to be stored under is safe, and there is room for
    /// one more entry.
    pub proof fn law_import_is_begun_exactly_when(
        self,
        source: Seq<char>,
        is_file: bool,
        stored_path: Seq<char>,
        limits: Limits,
    )
        ensures
            ({
                let r = self.import_refusal(source, is_file, stored_path, limits);
                let path = crate::paths::sanitized(stored_path, limits.max_path_depth);
                &&& r is None <==> self.master is Some && is_file && path is Ok
                    && self.manifest.entries.len() < limits.max_entries
                &&& self.master is None ==> r == Some(ErrorView::Locked)
                &&& self.master is Some && !is_file ==> r == Some(
                    ErrorView::Other(source + " is not a file"@),
                )
                &&& self.master is Some && is_file && path is Err ==> r == Some(path->Err_0)
                &&& self.master is Some && is_file && path is Ok && self.manifest.entries.len()
                    >= limits.max_entries ==> r is Some && r->0 is LimitExceeded
            }),
    {
    }

    /// An import begins with nothing taken, at the place for the next chunk,
    /// under the name and the identifier it was given, and wants a first chunk.
    /// It remembers where the decoy region lies, if the block tells of one that
    /// is not implausibly large.
    pub proof fn law_import_begins_fresh(
        self,
        stored_path: Seq<char>,
        object_id: Seq<u8>,
        limits: Limits,
    )
        ensures
            ({
                let im = self.import(stored_path, object_id, limits);
                &&& im.object_id == object_id
                &&& im.path == stored_path
                &&& im.chunks.len() == 0
                &&& im.total == 0
                &&& im.cursor == self.data_end
                &&& im.more
                &&& self.header.decoy is None ==> im.region is None
                &&& self.header.decoy is Some ==> {
                    let s = crate::format::slot_of(self.header.decoy->0);
                    let plausible = 0 < s.body_len < limits.max_manifest_bytes * 8;
                    &&& plausible ==> im.region == Some((s.body_offset, s.body_len))
                    &&& !plausible ==> im.region is None
                }
            }),
    {
    }

    /// An export is begun exactly if the vault is unlocked, there is such an
    /// entry, and its name is safe; and begins with nothing written.
    pub proof fn law_export_is_begun_exactly_when(self, index: usize, max_depth: usize)
        ensures
            ({
                let r = self.export(index, max_depth);
                let there = index < self.manifest.entries.len();
                let path = crate::paths::sanitized(
                    self.manifest.entries[index as int].path,
                    max_depth,
                );
                &&& r is Ok <==> self.master is Some && there && path is Ok
                &&& r is Ok ==> {
                    let x = r->Ok_0;
                    &&& x.entry == index
                    &&& path == Ok::<Seq<char>, ErrorView>(x.path)
                    &&& x.next == 0
                    &&& x.written == 0
                }
                &&& self.master is None ==> r is Err && r->Err_0 is Locked
                &&& self.master is Some && !there ==> r is Err && r->Err_0 is Other
                &&& self.master is Some && there && path is Err ==> r is Err && r->Err_0
                    == path->Err_0
            }),
    {
    }

    /// A vault is converted to split protection exactly if it is not split
    /// protected yet and is unlocked.
    pub proof fn law_enrolled_exactly_when(self)
        ensures
            ({
                let split = self.header.flags & 2 != 0;
                &&& self.enroll_refusal() is None <==> !split && self.master is Some
                &&& split ==> self.enroll_refusal() == Some(
                    ErrorView::Other("this vault is already split protected"@),
                )
                &&& !split && self.master is None ==> self.enroll_refusal() == Some(
                    ErrorView::Locked,
                )
            }),
    {
    }

    /// A save is refused exactly if the sealed manifest with its prefix is
    /// larger than a manifest may be, or there is no such place in a file.
    pub proof fn law_saved_exactly_when(self, sealed: Seq<u8>, max: u64)
        ensures
            self.save_refusal(sealed, max) is None <==> 40 + sealed.len() <= max && self.data_end
                <= 0x7fff_ffff_ffff_ffff,
            40 + sealed.len() > max ==> self.save_refusal(sealed, max) matches Some(
                ErrorView::LimitExceeded(_),
            ),
            40 + sealed.len() <= max && self.save_refusal(sealed, max) is Some
                ==> self.save_refusal(sealed, max) matches Some(ErrorView::Io(_)),
    {
    }

    /// A vault of a save: the same but for the manifest's root and its
    /// generation, which is one higher until the counter is full; and but for
    /// the header, which tells where the record lies, how long it is, and the
    /// manifest's root. A decoy block is written anew only where a region is
    /// carried.
    pub proof fn law_save_changes_only_this(
        self,
        root: Seq<u8>,
        sealed: Seq<u8>,
        carried: Option<Seq<u8>>,
        filler: Seq<u8>,
        max: u64,
    )
        requires
            40 + sealed.len() <= u64::MAX,
        ensures
            ({
                let s = self.begun(root);
                let h = s.saved_header(sealed, carried, filler, max);
                let slot = crate::format::slot_of(self.header.decoy->0);
                let carries = self.header.decoy is Some && carried is Some && 0 < slot.body_len
                    < max * 8 && carried->0.len() == slot.body_len;
                &&& s == (VaultView { manifest: s.manifest, shift: 0, ..self })
                &&& s.manifest.entries == self.manifest.entries
                &&& s.manifest.integrity_root == root
                &&& self.manifest.generation < u64::MAX ==> s.manifest.generation
                    == self.manifest.generation + 1
                &&& self.manifest.generation == u64::MAX ==> s.manifest.generation == u64::MAX
                &&& h == (HeaderView {
                    manifest_offset: self.data_end,
                    manifest_len: (40 + sealed.len()) as u64,
                    integrity_root: root,
                    decoy: h.decoy,
                    ..self.header
                })
                &&& !carries ==> h.decoy == self.header.decoy
                &&& !carries ==> s.saved_len(sealed, carried, max) == self.data_end + 40
                    + sealed.len()
                &&& carries ==> s.saved_len(sealed, carried, max) == self.data_end + 40
                    + sealed.len() + slot.body_len
            }),
    {
    }
}

/// A chunk is taken exactly if it is no larger than a chunk may be and there is
/// such a place in a file.
pub proof fn law_chunk_is_taken_exactly_when(im: ImportView, sealed: Seq<u8>, max: u32)
    ensures
        im.refusal(sealed, max) is None <==> sealed.len() <= max && im.cursor
            <= 0x7fff_ffff_ffff_ffff && im.total <= 0x7fff_ffff_ffff_ffff,
        sealed.len() > max ==> im.refusal(sealed, max) matches Some(ErrorView::LimitExceeded(_)),
{
}

/// What a chunk that is taken adds: itself at the end, where the last one
/// ended, with its sizes and its hash; its plain bytes to the total and its
/// sealed bytes to the place for the next. Another chunk is wanted exactly if
/// this one was full, however many came before.
pub proof fn law_chunk_adds_itself(im: ImportView, p: Piece)
    requires
        im.cursor + p.sealed.len() <= u64::MAX,
        im.total + p.plain_len <= u64::MAX,
        p.sealed.len() <= u32::MAX,
        p.plain_len <= 1048576,
    ensures
        ({
            let next = im.plus(p);
            let c = next.chunks[im.chunks.len() as int];
            &&& next.chunks.len() == im.chunks.len() + 1
            &&& forall|i: int|
                0 <= i < im.chunks.len() ==> #[trigger] next.chunks[i] == im.chunks[i]
            &&& c.offset == im.cursor
            &&& c.ciphertext_len == p.sealed.len()
            &&& c.plaintext_len == p.plain_len
            &&& c.hash == p.hash
            &&& next.total - im.total == p.plain_len
            &&& next.cursor - im.cursor == p.sealed.len()
            &&& next.more <==> p.plain_len == 1048576
            &&& next.object_id == im.object_id
            &&& next.path == im.path
            &&& next.region == im.region
        }),
{
}

/// The number of the first `n` bytes of a file that lie in its first `i`
/// pieces of a full chunk each.
spec fn up_to(i: int, n: int) -> int {
    if i * 1048576 < n {
        i * 1048576
    } else {
        n
    }
}

/// What the first pieces of a file hold.
proof fn lemma_pieces_add_up(ps: Seq<Piece>, n: int, i: int)
    requires
        0 <= n,
        ps.len() == (n + 1048575) / 1048576,
        forall|k: int|
            0 <= k < ps.len() ==> (#[trigger] ps[k]).plain_len == up_to(k + 1, n) - up_to(k, n),
        0 <= i <= ps.len(),
    ensures
        crate::vault::import_laws::plain_sum(ps.take(i)) == up_to(i, n),
    decreases i,
{
    if i > 0 {
        lemma_pieces_add_up(ps, n, i - 1);
        assert(ps.take(i).drop_last() =~= ps.take(i - 1));
        assert(ps.take(i).last() == ps[i - 1]);
    }
}

impl<K> VaultView<K> {
    /// The whole of a file is stored, whatever its length. Cut into pieces of
    /// a full chunk each, but for what is left at the end, every one of the
    /// pieces is wanted when it comes; a piece that is not full is the last
    /// that is wanted; and the entry is as long as the file.
    pub proof fn law_whole_file_is_stored(
        self,
        stored_path: Seq<char>,
        object_id: Seq<u8>,
        limits: Limits,
        file: Seq<u8>,
        ps: Seq<Piece>,
        mtime: i64,
        store: crate::suite::CompressSuite,
    )
        requires
            self.import(stored_path, object_id, limits).takes(ps, limits.max_chunk_ciphertext),
            ps.len() == (file.len() + 1048575) / 1048576,
            forall|k: int|
                0 <= k < ps.len() ==> (#[trigger] ps[k]).plain_len == if (k + 1) * 1048576
                    <= file.len() {
                    1048576int
                } else {
                    file.len() - k * 1048576
                },
        ensures
            ({
                let im = self.import(stored_path, object_id, limits);
                let e = self.imported(im.fed(ps), mtime, store).manifest.entries.last();
                &&& forall|k: int| 0 <= k < ps.len() ==> (#[trigger] im.fed(ps.take(k))).more
                &&& im.fed(ps).more <==> file.len() as int % 1048576 == 0
                &&& im.fed(ps).total == file.len()
                &&& e.size == file.len()
                &&& e.chunks.len() == ps.len()
                &&& e.path == stored_path
                &&& e.object_id == object_id
                &&& e.mtime == mtime
            }),
    {
        let im = self.import(stored_path, object_id, limits);
        let n = file.len() as int;
        let max = limits.max_chunk_ciphertext;
        crate::vault::import_laws::law_chunks_lie_back_to_back(im, ps, max);
        lemma_pieces_add_up(ps, n, ps.len() as int);
        assert(ps.take(ps.len() as int) =~= ps);
        assert forall|k: int| 0 <= k < ps.len() implies (#[trigger] im.fed(ps.take(k))).more by {
            if k > 0 {
                assert(ps.take(k).last() == ps[k - 1]);
                assert(k * 1048576 <= n);
            }
        }
        if ps.len() > 0 {
            assert(ps.last() == ps[ps.len() - 1]);
        }
    }

    /// An import leaves everything about the vault as it was but the list of
    /// files, which is longer by one, and the place for the next chunk.
    pub proof fn law_import_changes_only_this(
        self,
        im: ImportView,
        mtime: i64,
        store: crate::suite::CompressSuite,
    )
        ensures
            ({
                let v = self.imported(im, mtime, store);
                let e = v.manifest.entries[self.manifest.entries.len() as int];
                &&& v == (VaultView { manifest: v.manifest, data_end: im.cursor, ..self })
                &&& v.manifest.generation == self.manifest.generation
                &&& v.manifest.integrity_root == self.manifest.integrity_root
                &&& v.manifest.entries.len() == self.manifest.entries.len() + 1
                &&& forall|i: int|
                    0 <= i < self.manifest.entries.len() ==> #[trigger] v.manifest.entries[i]
                        == self.manifest.entries[i]
                &&& e.chunks == im.chunks
                &&& e.size == im.total
                &&& e.path == im.path
                &&& e.object_id == im.object_id
                &&& e.mtime == mtime
                &&& im.chunks.len() > 0 ==> e.compress_suite == self.header.compress_suite
                &&& im.chunks.len() == 0 ==> e.compress_suite == store
            }),
    {
    }
}

impl<K> VaultView<K> {
    /// Making a decoy ready changes the identifier it is bound to, to the real
    /// vault's, and where its chunks lie, each as much further on as the plan
    /// says; and nothing else.
    pub proof fn law_ready_decoy_differs_in_this(
        self,
        vault_id: Seq<u8>,
        shift: u64,
        e: int,
        k: int,
    )
        requires
            0 <= e < self.manifest.entries.len(),
            0 <= k < self.manifest.entries[e].chunks.len(),
            self.manifest.entries[e].chunks[k].offset + shift <= u64::MAX,
        ensures
            ({
                let v = self.rebased(vault_id, shift);
                let x = self.manifest.entries[e];
                let y = v.manifest.entries[e];
                &&& v.header == (HeaderView { vault_id, ..self.header })
                &&& v == (VaultView { header: v.header, manifest: v.manifest, ..self })
                &&& v.manifest.generation == self.manifest.generation
                &&& v.manifest.integrity_root == self.manifest.integrity_root
                &&& v.manifest.entries.len() == self.manifest.entries.len()
                &&& y == (EntryView { chunks: y.chunks, ..x })
                &&& y.chunks.len() == x.chunks.len()
                &&& y.chunks[k] == (ChunkView { offset: y.chunks[k].offset, ..x.chunks[k] })
                &&& y.chunks[k].offset - x.chunks[k].offset == shift
            }),
    {
    }

    /// A decoy can be made ready exactly if no chunk would come to lie beyond
    /// what can be counted.
    pub proof fn law_ready_exactly_when(self, shift: u64)
        ensures
            crate::vault::duress::can_shift(self.manifest, shift) <==> forall|e: int, k: int|
                0 <= e < self.manifest.entries.len() && 0 <= k
                    < self.manifest.entries[e].chunks.len() ==> (
                #[trigger] self.manifest.entries[e].chunks[k]).offset <= u64::MAX - shift,
    {
    }

    /// A chunk is there to be read exactly if the entry is there and has so
    /// many chunks; and the first question is for its bytes, where it lies,
    /// unless it is larger than a chunk may be.
    pub proof fn law_first_question_is_for_the_bytes(
        self,
        entry: int,
        chunk: int,
        store: crate::suite::CompressSuite,
        max: u32,
    )
        ensures
            ({
                let r = self.chunk_reader(entry, chunk, store);
                let c = self.manifest.entries[entry].chunks[chunk];
                &&& c.ciphertext_len <= max ==> r.first(max)->Ask_1
                    == (crate::vault::chunk::ChunkAskView::Bytes {
                    at: c.offset,
                    len: c.ciphertext_len,
                }) && r.first(max) is Ask
                &&& c.ciphertext_len > max ==> r.first(max) is Refused
            }),
    {
    }
}

impl FoldingView {
    /// A decoy is folded in exactly if its key was wrapped to 48 bytes, it
    /// holds something behind its header and block, the container has not
    /// changed since the plan was made, and its manifest has a place.
    pub proof fn law_folded_exactly_when(self, decoy: HeaderView, plan: DuressPlan, len: u64)
        ensures
            self.refusal(decoy, plan, len) is None <==> {
                &&& self.wrapped.len() == 48
                &&& self.scratch.len() > 512
                &&& len == plan.append_at
                &&& decoy.manifest_offset + plan.shift <= u64::MAX
            },
            self.wrapped.len() != 48 ==> self.refusal(decoy, plan, len) matches Some(
                ErrorView::Crypto(_),
            ),
            self.wrapped.len() == 48 && (self.scratch.len() <= 512 || len != plan.append_at)
                ==> self.refusal(decoy, plan, len) matches Some(ErrorView::Other(_)),
    {
    }

    /// The slot of a folded-in decoy: its key as it was wrapped, its salt, and
    /// its manifest and its body where they lie in the real container.
    pub proof fn law_slot_points_at_the_decoy(
        self,
        header: HeaderView,
        decoy: HeaderView,
        plan: DuressPlan,
        filler: Seq<u8>,
    )
        requires
            self.refusal(decoy, plan, plan.append_at) is None,
            self.nonce.len() == 24,
            decoy.kdf_salt.len() == 32,
            self.scratch.len() <= u64::MAX,
        ensures
            ({
                let h = self.folded(header, decoy, plan, filler);
                let s = h.slot()->0;
                &&& h == (HeaderView { decoy: h.decoy, ..header })
                &&& h.slot() is Some
                &&& s.key_nonce == self.nonce
                &&& s.wrapped_key == self.wrapped
                &&& s.kdf_salt == decoy.kdf_salt
                &&& s.manifest_offset - decoy.manifest_offset == plan.shift
                &&& s.manifest_len == decoy.manifest_len
                &&& s.body_offset == plan.append_at
                &&& s.body_len == self.scratch.len() - 512
            }),
    {
        crate::format::law_decoy_slot_round_trips(self.slot(decoy, plan), filler);
    }
}

impl<K> VaultView<K> {
    /// A locked vault holds no key, refuses whatever needs one, and is what it
    /// was otherwise.
    pub proof fn law_locked_vault_does_nothing(
        self,
        source: Seq<char>,
        is_file: bool,
        stored_path: Seq<char>,
        limits: Limits,
        index: usize,
    )
        ensures
            ({
                let v = self.locked();
                &&& v.master is None
                &&& v == (VaultView { master: v.master, ..self })
                &&& v.import_refusal(source, is_file, stored_path, limits) == Some(
                    ErrorView::Locked,
                )
                &&& v.export(index, limits.max_path_depth) is Err
                &&& v.enroll_refusal() is Some
            }),
    {
    }
}

} // verus!
