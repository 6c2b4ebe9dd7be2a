//! Names of files: those that lie beside a vault, and those that are stored
//! in it.

use crate::error::{Error, ErrorView};
use crate::text::{chars_of, join2, join3};
use vstd::prelude::*;

verus! {

/// The name of a vault's split bundle.
pub open spec fn split_of(vault: Seq<char>) -> Seq<char> {
    vault + ".split"@
}

/// The name of the file in which a vault's decoy is built.
pub open spec fn scratch_of(vault: Seq<char>) -> Seq<char> {
    vault + ".decoy-build"@
}

/// Where a vault's split bundle lives.
pub fn split_bundle_path(vault: &str) -> (r: String)
    ensures
        r@ == split_of(vault@),
        r@ == vault@ + ".split"@,
{
    join2(vault, ".split")
}

/// Where the decoy of a vault is built before it is folded in.
pub fn scratch_path(vault: &str) -> (r: String)
    ensures
        r@ == scratch_of(vault@),
        r@ == vault@ + ".decoy-build"@,
{
    join2(vault, ".decoy-build")
}

/// A file name with an extension: a dot behind its first character.
pub open spec fn has_extension(name: Seq<char>) -> bool {
    exists|i: int| 1 <= i < name.len() && #[trigger] name[i] == '.'
}

/// The name under which a file is written before it is complete: its
/// extension is lengthened, or one is added.
pub open spec fn part_name(path: Seq<char>) -> Seq<char> {
    if has_extension(components(path).last()) {
        path + ".zt-part"@
    } else {
        path + "..zt-part"@
    }
}

/// Where a file is written until every chunk of it has been authenticated.
pub fn part_path(path: &str) -> (r: String)
    ensures
        r@ == part_name(path@),
{
    let chars = chars_of(path);
    let n: usize = chars.len();
    let mut start: usize = 0;
    let mut dotted: bool = false;
    let mut i: usize = 0;
    let ghost cut = |c: char| is_slash(c);
    proof {
        assert(path@.take(0) =~= Seq::<char>::empty());
        assert(crate::text::pieces(path@.take(0), cut).last() =~= path@.subrange(0, 0));
    }
    while i < n
        invariant
            chars@ == path@,
            n == chars@.len(),
            start <= i <= n,
            crate::text::pieces(path@.take(i as int), cut).len() > 0,
            crate::text::pieces(path@.take(i as int), cut).last() == path@.subrange(
                start as int,
                i as int,
            ),
            dotted == has_extension(path@.subrange(start as int, i as int)),
            cut == (|c: char| is_slash(c)),
        decreases n - i,
    {
        proof {
            assert(path@.take(i + 1).drop_last() =~= path@.take(i as int));
        }
        if chars[i] == '/' || chars[i] == '\\' {
            start = i + 1;
            dotted = false;
            assert(crate::text::pieces(path@.take(i + 1), cut).last() =~= path@.subrange(
                i + 1,
                i + 1,
            ));
        } else {
            let ghost old_part = path@.subrange(start as int, i as int);
            let ghost new_part = path@.subrange(start as int, i + 1);
            proof {
                assert(new_part =~= old_part.push(path@[i as int]));
                if has_extension(old_part) {
                    let k = choose|k: int| 1 <= k < old_part.len() && #[trigger] old_part[k] == '.';
                    assert(new_part[k] == '.');
                }
                if has_extension(new_part) && !has_extension(old_part) {
                    let k = choose|k: int| 1 <= k < new_part.len() && #[trigger] new_part[k] == '.';
                    if k < old_part.len() {
                        assert(old_part[k] == '.');
                    }
                }
                if i > start && path@[i as int] == '.' {
                    assert(new_part[i - start] == '.');
                }
            }
            if i > start && chars[i] == '.' {
                dotted = true;
            }
        }
        i += 1;
    }
    proof {
        assert(path@.take(n as int) =~= path@);
    }
    if dotted {
        join2(path, ".zt-part")
    } else {
        join2(path, "..zt-part")
    }
}

/// A character that ends a component of a stored path.
pub open spec fn is_slash(c: char) -> bool {
    c == '/' || c == '\\'
}

/// The components of a stored path, empty ones included.
pub open spec fn components(p: Seq<char>) -> Seq<Seq<char>> {
    crate::text::pieces(p, |c: char| is_slash(c))
}

/// An ASCII letter.
pub open spec fn is_letter(c: char) -> bool {
    'a' <= c <= 'z' || 'A' <= c <= 'Z'
}

/// A path that begins with a drive, as in `C:`.
pub open spec fn has_drive(p: Seq<char>) -> bool {
    p.len() >= 2 && is_letter(p[0]) && p[1] == ':'
}

/// A component that names something, rather than nothing or the place it
/// stands in.
pub open spec fn names_something(s: Seq<char>) -> bool {
    s.len() > 0 && s != seq!['.']
}

/// A component that leads upward.
pub open spec fn leads_up(s: Seq<char>) -> bool {
    s == seq!['.', '.']
}

/// A path that could lead out of the directory it is put under: an absolute
/// one, one that comes to a drive, or one with a `..` in it.
pub open spec fn leads_out(p: Seq<char>) -> bool {
    ||| p.len() > 0 && is_slash(p[0])
    ||| has_drive(joined(named(p)))
    ||| exists|i: int| 0 <= i < components(p).len() && leads_up(#[trigger] components(p)[i])
}

/// The components of a path that name something.
pub open spec fn named(p: Seq<char>) -> Seq<Seq<char>> {
    components(p).filter(|s: Seq<char>| names_something(s))
}

/// Components put together again.
pub open spec fn joined(parts: Seq<Seq<char>>) -> Seq<char>
    decreases parts.len(),
{
    if parts.len() == 0 {
        Seq::empty()
    } else if parts.len() == 1 {
        parts[0]
    } else {
        joined(parts.drop_last()) + "/"@ + parts.last()
    }
}

/// What becomes of a stored path.
pub open spec fn sanitized(p: Seq<char>, max_depth: usize) -> Result<Seq<char>, ErrorView> {
    if leads_out(p) {
        Err(ErrorView::Format("unsafe path in vault: "@ + p))
    } else if named(p).len() == 0 {
        Err(ErrorView::Format("entry has an empty path"@))
    } else if named(p).len() > max_depth {
        Err(ErrorView::LimitExceeded("entry path is nested too deeply"@))
    } else {
        Ok(joined(named(p)))
    }
}

/// Rejects absolute paths, drive prefixes and `..`, so that a hostile manifest
/// cannot write outside the export directory.
pub fn sanitize_relative_path(p: &str, max_depth: usize) -> (r: Result<String, Error>)
    ensures
        match r {
            Ok(s) => sanitized(p@, max_depth) == Ok::<Seq<char>, ErrorView>(s@),
            Err(e) => sanitized(p@, max_depth) == Err::<Seq<char>, ErrorView>(e@),
        },
{
    let chars = chars_of(p);
    let n: usize = chars.len();
    if n > 0 && (chars[0] == '/' || chars[0] == '\\') {
        return Err(Error::Format(join2("unsafe path in vault: ", p)));
    }
    let mut out: String = "".to_owned();
    let mut depth: usize = 0;
    let mut start: usize = 0;
    let mut i: usize = 0;
    let ghost cut = |c: char| is_slash(c);
    let ghost names = |s: Seq<char>| names_something(s);
    proof {
        reveal_strlit("");
        assert(p@.take(0) =~= Seq::<char>::empty());
        assert(crate::text::pieces(p@.take(0), cut).last() =~= p@.subrange(0, 0));
        let none = crate::text::pieces(p@.take(0), cut).drop_last();
        assert(none =~= Seq::<Seq<char>>::empty());
        reveal(Seq::filter);
    }
    while i < n
        invariant
            chars@ == p@,
            n == chars@.len(),
            start <= i <= n,
            depth <= start,
            ({
                let done = crate::text::pieces(p@.take(i as int), cut);
                &&& done.len() > 0
                &&& done.last() == p@.subrange(start as int, i as int)
                &&& forall|k: int| 0 <= k < done.len() - 1 ==> !leads_up(#[trigger] done[k])
                &&& out@ == joined(done.drop_last().filter(names))
                &&& depth == done.drop_last().filter(names).len()
            }),
            cut == (|c: char| is_slash(c)),
            names == (|s: Seq<char>| names_something(s)),
        decreases n - i,
    {
        let ghost done = crate::text::pieces(p@.take(i as int), cut);
        let ghost part = p@.subrange(start as int, i as int);
        let ghost more = crate::text::pieces(p@.take(i + 1), cut);
        proof {
            assert(p@.take(i + 1).drop_last() =~= p@.take(i as int));
            assert(done.drop_last().push(part) =~= done);
            lemma_filter_push(done.drop_last(), part, names);
        }
        if chars[i] == '/' || chars[i] == '\\' {
            if !take_component(p, &chars, start, i, &mut out, &mut depth) {
                proof {
                    lemma_pieces_grow_from(p@, cut, i as int, n as int);
                    assert(p@.take(n as int) =~= p@);
                    assert(leads_up(components(p@)[done.len() - 1]));
                }
                return Err(Error::Format(join2("unsafe path in vault: ", p)));
            }
            proof {
                assert(more.drop_last() =~= done);
                assert(more.last() =~= p@.subrange(i + 1, i + 1));
                lemma_joined_push(done.drop_last().filter(names), part);
            }
            start = i + 1;
        } else {
            proof {
                assert(more.drop_last() =~= done.drop_last());
                assert(more.last() =~= p@.subrange(start as int, i + 1));
            }
        }
        i += 1;
    }
    proof {
        assert(p@.take(n as int) =~= p@);
        let done = components(p@);
        let part = p@.subrange(start as int, n as int);
        assert(done.drop_last().push(part) =~= done);
        lemma_filter_push(done.drop_last(), part, names);
        lemma_joined_push(done.drop_last().filter(names), part);
    }
    if !take_component(p, &chars, start, n, &mut out, &mut depth) {
        assert(leads_up(components(p@)[components(p@).len() - 1]));
        return Err(Error::Format(join2("unsafe path in vault: ", p)));
    }
    if begins_with_drive(out.as_str()) {
        return Err(Error::Format(join2("unsafe path in vault: ", p)));
    }
    if depth == 0 {
        return Err(Error::Format("entry has an empty path".to_owned()));
    }
    if depth > max_depth {
        return Err(Error::LimitExceeded("entry path is nested too deeply".to_owned()));
    }
    Ok(out)
}

/// Whether a path begins with a drive.
fn begins_with_drive(p: &str) -> (r: bool)
    ensures
        r == has_drive(p@),
{
    let c = chars_of(p);
    c.len() >= 2 && (('a' <= c[0] && c[0] <= 'z') || ('A' <= c[0] && c[0] <= 'Z')) && c[1] == ':'
}

/// Adds one component to a path, unless it leads upward.
fn take_component(
    p: &str,
    chars: &Vec<char>,
    start: usize,
    end: usize,
    out: &mut String,
    depth: &mut usize,
) -> (r: bool)
    requires
        chars@ == p@,
        start <= end <= chars@.len(),
        *old(depth) <= start,
    ensures
        ({
            let part = p@.subrange(start as int, end as int);
            &&& r == !leads_up(part)
            &&& if r && names_something(part) {
                &&& final(out)@ == if *old(depth) == 0 {
                    part
                } else {
                    old(out)@ + "/"@ + part
                }
                &&& *final(depth) == *old(depth) + 1
                &&& *final(depth) <= end
            } else {
                final(out)@ == old(out)@ && *final(depth) == *old(depth)
            }
        }),
{
    let ghost part = p@.subrange(start as int, end as int);
    let len: usize = end - start;
    proof {
        assert(part.len() == len);
        if len > 0 {
            assert(part[0] == chars@[start as int]);
        }
        if len > 1 {
            assert(part[1] == chars@[start + 1]);
        }
        assert(seq!['.', '.'].len() == 2 && seq!['.', '.'][0] == '.' && seq!['.', '.'][1] == '.');
        assert(seq!['.'].len() == 1 && seq!['.'][0] == '.');
        if len == 2 && part[0] == '.' && part[1] == '.' {
            assert(part =~= seq!['.', '.']);
        }
        if len == 1 && part[0] == '.' {
            assert(part =~= seq!['.']);
        }
    }
    if len == 2 && chars[start] == '.' && chars[start + 1] == '.' {
        return false;
    }
    if len == 0 || (len == 1 && chars[start] == '.') {
        return true;
    }
    let s: &str = p.substring_char(start, end);
    if *depth == 0 {
        *out = s.to_owned();
    } else {
        *out = join3(out.as_str(), "/", s);
    }
    *depth = *depth + 1;
    true
}

/// Putting one component more behind others.
proof fn lemma_joined_push(parts: Seq<Seq<char>>, x: Seq<char>)
    ensures
        joined(parts.push(x)) == if parts.len() == 0 {
            x
        } else {
            joined(parts) + "/"@ + x
        },
{
    assert(parts.push(x).drop_last() =~= parts);
}

/// Filtering one piece more.
proof fn lemma_filter_push(s: Seq<Seq<char>>, x: Seq<char>, keep: spec_fn(Seq<char>) -> bool)
    ensures
        s.push(x).filter(keep) == if keep(x) {
            s.filter(keep).push(x)
        } else {
            s.filter(keep)
        },
{
    reveal(Seq::filter);
    assert(s.push(x).drop_last() =~= s);
}

/// A piece that is complete stays what it is as more text follows.
proof fn lemma_pieces_grow_from(p: Seq<char>, cut: spec_fn(char) -> bool, i: int, n: int)
    requires
        0 <= i < n <= p.len(),
        cut(p[i]),
    ensures
        ({
            let a = crate::text::pieces(p.take(i), cut);
            let b = crate::text::pieces(p.take(n), cut);
            &&& a.len() < b.len()
            &&& forall|k: int| 0 <= k < a.len() ==> a[k] == #[trigger] b[k]
        }),
    decreases n,
{
    assert(p.take(n).drop_last() =~= p.take(n - 1));
    if n > i + 1 {
        lemma_pieces_grow_from(p, cut, i, n - 1);
    }
}

/// No component holds a slash.
proof fn lemma_components_hold_no_slash(p: Seq<char>)
    ensures
        components(p).len() > 0,
        forall|i: int, k: int|
            0 <= i < components(p).len() && 0 <= k < components(p)[i].len() ==> !is_slash(
                #[trigger] components(p)[i][k],
            ),
    decreases p.len(),
{
    if p.len() > 0 {
        lemma_components_hold_no_slash(p.drop_last());
    }
}

/// Text without a slash lengthens the last component.
pub proof fn lemma_components_extend(p: Seq<char>, s: Seq<char>)
    requires
        forall|k: int| 0 <= k < s.len() ==> !is_slash(#[trigger] s[k]),
    ensures
        components(p + s) == components(p).drop_last().push(components(p).last() + s),
    decreases s.len(),
{
    lemma_components_hold_no_slash(p);
    if s.len() == 0 {
        assert(p + s =~= p);
        assert(components(p).last() + s =~= components(p).last());
        assert(components(p) =~= components(p).drop_last().push(components(p).last()));
    } else {
        let t = s.drop_last();
        lemma_components_extend(p, t);
        assert((p + s).drop_last() =~= p + t);
        assert((p + s).last() == s.last());
        let a = components(p + t);
        assert(a.drop_last() =~= components(p).drop_last());
        assert((components(p).last() + t).push(s.last()) =~= components(p).last() + s);
        assert(!is_slash(s[s.len() - 1]));
        assert(components(p + s) =~= components(p).drop_last().push(components(p).last() + s));
    }
}

/// Components that were put together come apart again.
proof fn lemma_components_of_joined(parts: Seq<Seq<char>>)
    requires
        parts.len() > 0,
        forall|i: int, k: int|
            0 <= i < parts.len() && 0 <= k < parts[i].len() ==> !is_slash(#[trigger] parts[i][k]),
    ensures
        components(joined(parts)) == parts,
    decreases parts.len(),
{
    let none = Seq::<char>::empty();
    assert(components(none) =~= seq![none]);
    if parts.len() == 1 {
        lemma_components_extend(none, parts[0]);
        assert(none + parts[0] =~= parts[0]);
        assert(components(parts[0]) =~= parts);
    } else {
        let init = parts.drop_last();
        assert forall|i: int, k: int|
            0 <= i < init.len() && 0 <= k < init[i].len() implies !is_slash(
            #[trigger] init[i][k],
        ) by {
            assert(!is_slash(parts[i][k]));
        }
        lemma_components_of_joined(init);
        reveal_strlit("/");
        let a = joined(init) + "/"@;
        assert(a.drop_last() =~= joined(init));
        assert(a.last() == '/');
        assert(components(a) == init.push(none));
        assert forall|k: int| 0 <= k < parts.last().len() implies !is_slash(
            #[trigger] parts.last()[k],
        ) by {
            assert(!is_slash(parts[parts.len() - 1][k]));
        }
        lemma_components_extend(a, parts.last());
        assert(components(a).drop_last() =~= init);
        assert(none + parts.last() =~= parts.last());
        assert(components(joined(parts)) =~= parts);
    }
}

/// What remains of a path after sanitizing is a list of plain names: it is
/// neither absolute nor empty, holds no `..`, no `.`, no drive and no
/// backslash, and is no deeper than allowed. Sanitizing it again changes
/// nothing.
pub proof fn law_sanitized_stays_inside(p: Seq<char>, max_depth: usize)
    requires
        sanitized(p, max_depth) is Ok,
    ensures
        ({
            let r = sanitized(p, max_depth)->Ok_0;
            &&& r.len() > 0
            &&& !leads_out(r)
            &&& components(r) == named(p)
            &&& 0 < components(r).len() <= max_depth
            &&& forall|i: int|
                0 <= i < components(r).len() ==> names_something(#[trigger] components(r)[i])
                    && !leads_up(components(r)[i])
            &&& forall|k: int| 0 <= k < r.len() ==> r[k] != '\\'
            &&& sanitized(r, max_depth) == Ok::<Seq<char>, ErrorView>(r)
        }),
{
    let names = |s: Seq<char>| names_something(s);
    let parts = named(p);
    let r = joined(parts);
    lemma_components_hold_no_slash(p);
    assert forall|i: int| 0 <= i < parts.len() implies names_something(#[trigger] parts[i])
        && !leads_up(parts[i]) && components(p).contains(parts[i]) by {
        components(p).lemma_filter_contains_rev(names, parts[i]);
        let j = choose|j: int| 0 <= j < components(p).len() && components(p)[j] == parts[i];
        assert(!leads_up(components(p)[j]));
    }
    assert forall|i: int, k: int| 0 <= i < parts.len() && 0 <= k < parts[i].len() implies !is_slash(
        #[trigger] parts[i][k],
    ) by {
        assert(components(p).contains(parts[i]));
        let j = choose|j: int| 0 <= j < components(p).len() && components(p)[j] == parts[i];
        assert(!is_slash(components(p)[j][k]));
    }
    lemma_components_of_joined(parts);
    assert(named(r) == parts) by {
        lemma_filter_all(parts, names);
    }
    lemma_joined_letters(parts);
}

/// Filtering keeps everything when everything passes.
proof fn lemma_filter_all(s: Seq<Seq<char>>, keep: spec_fn(Seq<char>) -> bool)
    requires
        forall|i: int| 0 <= i < s.len() ==> keep(#[trigger] s[i]),
    ensures
        s.filter(keep) == s,
    decreases s.len(),
{
    reveal(Seq::filter);
    if s.len() > 0 {
        assert forall|i: int| 0 <= i < s.drop_last().len() implies keep(
            #[trigger] s.drop_last()[i],
        ) by {
            assert(keep(s[i]));
        }
        lemma_filter_all(s.drop_last(), keep);
        assert(keep(s[s.len() - 1]));
        assert(s.drop_last().push(s.last()) =~= s);
    }
}

/// Names put together begin with a character of the first name, and hold no
/// backslash.
proof fn lemma_joined_letters(parts: Seq<Seq<char>>)
    requires
        parts.len() > 0,
        forall|i: int| 0 <= i < parts.len() ==> (#[trigger] parts[i]).len() > 0,
        forall|i: int, k: int|
            0 <= i < parts.len() && 0 <= k < parts[i].len() ==> !is_slash(#[trigger] parts[i][k]),
    ensures
        joined(parts).len() > 0,
        joined(parts)[0] == parts[0][0],
        forall|k: int| 0 <= k < joined(parts).len() ==> joined(parts)[k] != '\\',
    decreases parts.len(),
{
    assert(parts[0].len() > 0);
    if parts.len() == 1 {
        assert forall|k: int| 0 <= k < joined(parts).len() implies joined(parts)[k] != '\\' by {
            assert(!is_slash(parts[0][k]));
        }
    } else {
        let init = parts.drop_last();
        assert forall|i: int| 0 <= i < init.len() implies (#[trigger] init[i]).len() > 0 by {
            assert(parts[i].len() > 0);
        }
        assert forall|i: int, k: int|
            0 <= i < init.len() && 0 <= k < init[i].len() implies !is_slash(
            #[trigger] init[i][k],
        ) by {
            assert(!is_slash(parts[i][k]));
        }
        lemma_joined_letters(init);
        reveal_strlit("/");
        let n = joined(init).len() as int;
        assert forall|k: int| 0 <= k < joined(parts).len() implies joined(parts)[k] != '\\' by {
            if k > n {
                assert(!is_slash(parts[parts.len() - 1][k - n - 1]));
            }
        }
    }
}

} // verus!
