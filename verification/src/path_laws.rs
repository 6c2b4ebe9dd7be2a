//! What becomes of a stored path, told from the names it is made of.

use crate::error::ErrorView;
use crate::paths::{components, joined, named, names_something, sanitized};
use vstd::prelude::*;

verus! {

/// Names put together, each two with a character between them.
pub open spec fn woven(names: Seq<Seq<char>>, between: Seq<char>) -> Seq<char>
    decreases names.len(),
{
    if names.len() == 0 {
        Seq::empty()
    } else if names.len() == 1 {
        names[0]
    } else {
        woven(names.drop_last(), between.drop_last()) + seq![between.last()] + names.last()
    }
}

/// Names, none of which holds a slash or a backslash, with slashes or
/// backslashes between them.
pub open spec fn is_weave(names: Seq<Seq<char>>, between: Seq<char>) -> bool {
    &&& names.len() > 0
    &&& between.len() == names.len() - 1
    &&& forall|i: int|
        0 <= i < between.len() ==> #[trigger] between[i] == '/' || between[i] == '\\'
    &&& forall|i: int, k: int|
        0 <= i < names.len() && 0 <= k < names[i].len() ==> #[trigger] names[i][k] != '/'
            && names[i][k] != '\\'
}

/// As many slashes as stand between names.
pub open spec fn slashes(names: Seq<Seq<char>>) -> Seq<char> {
    Seq::new((names.len() - 1) as nat, |i: int| '/')
}

/// A path comes apart into the names it was put together from.
proof fn lemma_weave_comes_apart(names: Seq<Seq<char>>, between: Seq<char>)
    requires
        is_weave(names, between),
    ensures
        components(woven(names, between)) == names,
        names.len() > 1 && names[0].len() == 0 ==> woven(names, between).len() > 0 && woven(
            names,
            between,
        )[0] == between[0],
        names[0].len() > 0 ==> woven(names, between).len() > 0 && woven(names, between)[0]
            == names[0][0],
        names.len() == 1 ==> woven(names, between) == names[0],
    decreases names.len(),
{
    let none = Seq::<char>::empty();
    assert(components(none) =~= seq![none]);
    if names.len() == 1 {
        crate::paths::lemma_components_extend(none, names[0]);
        assert(none + names[0] =~= names[0]);
        assert(components(names[0]) =~= names);
    } else {
        let init = names.drop_last();
        let seps = between.drop_last();
        assert forall|i: int, k: int|
            0 <= i < init.len() && 0 <= k < init[i].len() implies #[trigger] init[i][k] != '/'
            && init[i][k] != '\\' by {
            assert(names[i][k] != '/' && names[i][k] != '\\');
        }
        assert forall|i: int| 0 <= i < seps.len() implies #[trigger] seps[i] == '/' || seps[i]
            == '\\' by {
            assert(between[i] == '/' || between[i] == '\\');
        }
        lemma_weave_comes_apart(init, seps);
        let last = between[between.len() - 1];
        let a = woven(init, seps) + seq![last];
        assert(a.drop_last() =~= woven(init, seps));
        assert(a.last() == last);
        assert(components(a) == init.push(none));
        assert forall|k: int| 0 <= k < names.last().len() implies !crate::paths::is_slash(
            #[trigger] names.last()[k],
        ) by {
            assert(names[names.len() - 1][k] != '/' && names[names.len() - 1][k] != '\\');
        }
        crate::paths::lemma_components_extend(a, names.last());
        assert(components(a).drop_last() =~= init);
        assert(none + names.last() =~= names.last());
        assert(components(woven(names, between)) =~= names);
        assert(init[0] == names[0]);
        if init.len() > 1 {
            assert(seps[0] == between[0]);
        }
        if names[0].len() == 0 && init.len() == 1 {
            assert(woven(init, seps) =~= none);
        }
    }
}

/// Putting names together with slashes.
proof fn lemma_joined_is_woven(names: Seq<Seq<char>>)
    ensures
        joined(names) == woven(names, slashes(names)),
    decreases names.len(),
{
    reveal_strlit("/");
    if names.len() > 1 {
        lemma_joined_is_woven(names.drop_last());
        assert(slashes(names).drop_last() =~= slashes(names.drop_last()));
        assert("/"@ =~= seq![slashes(names).last()]);
    }
}

/// A stored path is safe exactly if it does not begin with a slash or a
/// backslash, none of its names is `..`, at least one and no more than allowed
/// of them says anything, being neither empty nor `.`, and what is left does
/// not begin with a letter and a colon. What becomes of a safe path is those of
/// its names that say anything, in order, with slashes between them.
pub proof fn law_safe_path_is_its_names(
    names: Seq<Seq<char>>,
    between: Seq<char>,
    max_depth: usize,
)
    requires
        is_weave(names, between),
    ensures
        ({
            let kept = names.filter(|s: Seq<char>| s.len() > 0 && s != seq!['.']);
            let r = woven(kept, slashes(kept));
            let out = sanitized(woven(names, between), max_depth);
            &&& out is Ok <==> {
                &&& names[0].len() > 0 || names.len() == 1
                &&& forall|i: int| 0 <= i < names.len() ==> #[trigger] names[i] != seq!['.', '.']
                &&& 0 < kept.len() <= max_depth
                &&& !(r.len() >= 2 && r[1] == ':' && ('a' <= r[0] <= 'z' || 'A' <= r[0] <= 'Z'))
            }
            &&& out is Ok ==> out == Ok::<Seq<char>, ErrorView>(r)
        }),
{
    let p = woven(names, between);
    lemma_weave_comes_apart(names, between);
    let f = |s: Seq<char>| s.len() > 0 && s != seq!['.'];
    let g = |s: Seq<char>| names_something(s);
    let kept = names.filter(f);
    assert(f =~= g);
    assert(named(p) == kept);
    lemma_joined_is_woven(kept);
    if names.len() > 1 && names[0].len() == 0 {
        assert(between[0] == '/' || between[0] == '\\');
    }
    if names[0].len() > 0 {
        assert(names[0][0] != '/' && names[0][0] != '\\');
    }
    if exists|i: int| 0 <= i < names.len() && #[trigger] names[i] == seq!['.', '.'] {
        let i = choose|i: int| 0 <= i < names.len() && #[trigger] names[i] == seq!['.', '.'];
        assert(crate::paths::leads_up(components(p)[i]));
    }
    if exists|i: int|
        0 <= i < components(p).len() && crate::paths::leads_up(#[trigger] components(p)[i]) {
        let i = choose|i: int|
            0 <= i < components(p).len() && crate::paths::leads_up(#[trigger] components(p)[i]);
        assert(names[i] == seq!['.', '.']);
    }
}

/// Why a path is refused: one that could lead out is a malformed one, as is an
/// empty one; one that is too deep is beyond a limit. A path that could lead
/// out is never said to be merely too deep.
pub proof fn law_refused_path_says_why(names: Seq<Seq<char>>, between: Seq<char>, max_depth: usize)
    requires
        is_weave(names, between),
    ensures
        ({
            let p = woven(names, between);
            let kept = names.filter(|s: Seq<char>| s.len() > 0 && s != seq!['.']);
            let out = sanitized(p, max_depth);
            let climbs = exists|i: int|
                0 <= i < names.len() && #[trigger] names[i] == seq!['.', '.'];
            let absolute = names[0].len() == 0 && names.len() > 1;
            &&& climbs || absolute ==> out == Err::<Seq<char>, ErrorView>(
                ErrorView::Format("unsafe path in vault: "@ + p),
            )
            &&& !climbs && !absolute && kept.len() == 0 ==> out is Err && out->Err_0 is Format
            &&& out is Err && out->Err_0 is LimitExceeded ==> kept.len() > max_depth
        }),
{
    let p = woven(names, between);
    lemma_weave_comes_apart(names, between);
    let f = |s: Seq<char>| s.len() > 0 && s != seq!['.'];
    let g = |s: Seq<char>| names_something(s);
    assert(f =~= g);
    assert(named(p) == names.filter(f));
    if names.len() > 1 && names[0].len() == 0 {
        assert(between[0] == '/' || between[0] == '\\');
    }
    if exists|i: int| 0 <= i < names.len() && #[trigger] names[i] == seq!['.', '.'] {
        let i = choose|i: int| 0 <= i < names.len() && #[trigger] names[i] == seq!['.', '.'];
        assert(crate::paths::leads_up(components(p)[i]));
    }
}

/// Until it is complete a file is written beside where it goes, under its own
/// name and an ending: one behind its extension, or an extension of its own
/// where it has none. A dot that begins a name begins no extension.
pub proof fn law_part_lies_beside_the_file(names: Seq<Seq<char>>, between: Seq<char>)
    requires
        is_weave(names, between),
    ensures
        ({
            let p = woven(names, between);
            let dotted = exists|i: int| 1 <= i < names.last().len() && #[trigger] names.last()[i]
                == '.';
            &&& dotted ==> crate::paths::part_name(p) == p + ".zt-part"@
            &&& !dotted ==> crate::paths::part_name(p) == p + "..zt-part"@
        }),
{
    lemma_weave_comes_apart(names, between);
}

/// The files that lie beside a vault are told apart by their endings alone, are
/// never the vault itself, and are removed with it.
pub proof fn law_files_beside_a_vault(vault: Seq<char>, other: Seq<char>)
    ensures
        crate::paths::split_of(vault) == vault + ".split"@,
        crate::paths::scratch_of(vault) == vault + ".decoy-build"@,
        crate::paths::split_of(vault) != vault,
        crate::paths::scratch_of(vault) != vault,
        crate::paths::split_of(vault) != crate::paths::scratch_of(vault),
        crate::paths::split_of(vault) == crate::paths::split_of(other) ==> vault == other,
        crate::paths::scratch_of(vault) == crate::paths::scratch_of(other) ==> vault == other,
        crate::vault::purge::targets(vault).contains(crate::paths::split_of(vault)),
        crate::vault::purge::targets(vault).contains(crate::paths::scratch_of(vault)),
{
    reveal_strlit(".split");
    reveal_strlit(".decoy-build");
    crate::vault::purge::law_purge_reaches_what_lies_beside(vault);
    let n = vault.len() as int;
    let m = other.len() as int;
    assert(".split"@.len() == 6);
    assert(".decoy-build"@.len() == 12);
    assert(crate::paths::split_of(vault).len() == n + 6);
    assert(crate::paths::scratch_of(vault).len() == n + 12);
    assert(crate::paths::scratch_of(other).len() == m + 12);
    if crate::paths::split_of(vault) == crate::paths::split_of(other) {
        assert(crate::paths::split_of(vault).take(n) =~= vault);
        assert(crate::paths::split_of(other).take(m) =~= other);
    }
    if crate::paths::scratch_of(vault) == crate::paths::scratch_of(other) {
        assert(crate::paths::scratch_of(vault).take(n) =~= vault);
        assert(crate::paths::scratch_of(other).take(m) =~= other);
    }
}

} // verus!
