//! Whether two passwords could be typed for one another.

use crate::text::chars_of;
use vstd::prelude::*;

verus! {

/// A shared opening of this many characters makes two passwords alike.
pub const SHARED_OPENING: usize = 8;

/// At most `k` single characters have to be changed, dropped or added to turn
/// one text into the other.
pub open spec fn within(x: Seq<char>, y: Seq<char>, k: nat) -> bool
    decreases x.len() + y.len(),
{
    if x.len() == 0 || y.len() == 0 {
        x.len() + y.len() <= k
    } else {
        ||| x.last() == y.last() && within(x.drop_last(), y.drop_last(), k)
        ||| k > 0 && {
            ||| within(x.drop_last(), y.drop_last(), (k - 1) as nat)
            ||| within(x.drop_last(), y, (k - 1) as nat)
            ||| within(x, y.drop_last(), (k - 1) as nat)
        }
    }
}

/// Both texts begin with the same `SHARED_OPENING` characters.
pub open spec fn shared_opening(x: Seq<char>, y: Seq<char>) -> bool {
    &&& x.len() >= SHARED_OPENING
    &&& y.len() >= SHARED_OPENING
    &&& x.take(SHARED_OPENING as int) == y.take(SHARED_OPENING as int)
}

/// How many characters two passwords may be apart and still be alike.
pub const SLIPS: usize = 2;

/// Close enough to be typed for one another: up to two characters changed,
/// dropped or added, or a long shared opening.
pub open spec fn alike(x: Seq<char>, y: Seq<char>) -> bool {
    &&& x.len() > 0
    &&& y.len() > 0
    &&& within(x, y, SLIPS as nat) || shared_opening(x, y)
}

/// Allowing one change more keeps two texts within reach.
proof fn lemma_within_grows(x: Seq<char>, y: Seq<char>, k: nat)
    requires
        within(x, y, k),
    ensures
        within(x, y, k + 1),
    decreases x.len() + y.len(),
{
    if x.len() > 0 && y.len() > 0 {
        let (p, q) = (x.drop_last(), y.drop_last());
        if x.last() == y.last() && within(p, q, k) {
            lemma_within_grows(p, q, k);
        } else if within(p, q, (k - 1) as nat) {
            lemma_within_grows(p, q, (k - 1) as nat);
        } else if within(p, y, (k - 1) as nat) {
            lemma_within_grows(p, y, (k - 1) as nat);
        } else {
            lemma_within_grows(x, q, (k - 1) as nat);
        }
    }
}

/// Counting changes does not depend on which text comes first.
proof fn lemma_within_symmetric(x: Seq<char>, y: Seq<char>, k: nat)
    requires
        within(x, y, k),
    ensures
        within(y, x, k),
    decreases x.len() + y.len(),
{
    if x.len() > 0 && y.len() > 0 {
        let (p, q) = (x.drop_last(), y.drop_last());
        if x.last() == y.last() && within(p, q, k) {
            lemma_within_symmetric(p, q, k);
        } else if within(p, q, (k - 1) as nat) {
            lemma_within_symmetric(p, q, (k - 1) as nat);
        } else if within(p, y, (k - 1) as nat) {
            lemma_within_symmetric(p, y, (k - 1) as nat);
        } else {
            lemma_within_symmetric(x, q, (k - 1) as nat);
        }
    }
}

/// Dropping the last character of a text costs one change at most.
proof fn lemma_within_drop_last(x: Seq<char>, y: Seq<char>, k: nat)
    requires
        y.len() > 0,
        within(x, y, k),
    ensures
        within(x, y.drop_last(), k + 1),
    decreases x.len() + y.len(),
{
    if x.len() > 0 {
        let (p, q) = (x.drop_last(), y.drop_last());
        if x.last() == y.last() && within(p, q, k) {
        } else if within(p, q, (k - 1) as nat) {
            lemma_within_grows(p, q, (k - 1) as nat);
        } else if within(p, y, (k - 1) as nat) {
            lemma_within_drop_last(p, y, (k - 1) as nat);
        } else {
            lemma_within_grows(x, q, (k - 1) as nat);
            lemma_within_grows(x, q, k);
        }
    }
}

/// Where both texts end in the same character, it can be left out of the
/// count.
proof fn lemma_within_same_end(x: Seq<char>, y: Seq<char>, k: nat)
    requires
        x.len() > 0,
        y.len() > 0,
        x.last() == y.last(),
    ensures
        within(x, y, k) == within(x.drop_last(), y.drop_last(), k),
{
    let (p, q) = (x.drop_last(), y.drop_last());
    if within(x, y, k) && !within(p, q, k) {
        if within(p, q, (k - 1) as nat) {
            lemma_within_grows(p, q, (k - 1) as nat);
        } else if within(p, y, (k - 1) as nat) {
            lemma_within_drop_last(p, y, (k - 1) as nat);
        } else {
            lemma_within_symmetric(x, q, (k - 1) as nat);
            lemma_within_drop_last(q, x, (k - 1) as nat);
            lemma_within_symmetric(q, p, k);
        }
    }
}

/// Whether the first `i` characters of one text and the first `j` of another
/// are at most `k` changes apart.
///
/// Equal ends are left out first, so that only `k` steps ever branch.
fn near(x: &Vec<char>, y: &Vec<char>, i: usize, j: usize, k: usize) -> (r: bool)
    requires
        i <= x@.len(),
        j <= y@.len(),
    ensures
        r == within(x@.take(i as int), y@.take(j as int), k as nat),
    decreases k,
{
    let mut a: usize = i;
    let mut b: usize = j;
    while a > 0 && b > 0 && x[a - 1] == y[b - 1]
        invariant
            a <= i <= x@.len(),
            b <= j <= y@.len(),
            within(x@.take(i as int), y@.take(j as int), k as nat) == within(
                x@.take(a as int),
                y@.take(b as int),
                k as nat,
            ),
        decreases a,
    {
        proof {
            lemma_within_same_end(x@.take(a as int), y@.take(b as int), k as nat);
            assert(x@.take(a as int).drop_last() =~= x@.take(a - 1));
            assert(y@.take(b as int).drop_last() =~= y@.take(b - 1));
        }
        a -= 1;
        b -= 1;
    }
    if a == 0 {
        return b <= k;
    }
    if b == 0 {
        return a <= k;
    }
    assert(x@.take(a as int).drop_last() =~= x@.take(a - 1));
    assert(y@.take(b as int).drop_last() =~= y@.take(b - 1));
    k > 0 && (near(x, y, a - 1, b - 1, k - 1) || near(x, y, a - 1, b, k - 1) || near(
        x,
        y,
        a,
        b - 1,
        k - 1,
    ))
}

/// How long the common opening of two texts is.
fn common_opening(x: &Vec<char>, y: &Vec<char>) -> (n: usize)
    ensures
        n <= x@.len(),
        n <= y@.len(),
        x@.take(n as int) == y@.take(n as int),
        n < x@.len() && n < y@.len() ==> x@[n as int] != y@[n as int],
{
    let mut n: usize = 0;
    while n < x.len() && n < y.len() && x[n] == y[n]
        invariant
            n <= x@.len(),
            n <= y@.len(),
            forall|j: int| 0 <= j < n ==> x@[j] == y@[j],
        decreases x@.len() - n,
    {
        n += 1;
    }
    assert(x@.take(n as int) =~= y@.take(n as int));
    n
}

/// Whether two passwords are close enough to be typed for one another.
///
/// A one or two character difference, or a long shared opening, is the shape
/// of a slip: the same phrase with a digit changed, or one character dropped.
/// Getting this wrong destroys a vault, so the check is deliberately blunt and
/// errs toward refusing.
pub fn too_similar(a: &str, b: &str) -> (r: bool)
    ensures
        r == alike(a@, b@),
{
    let x = chars_of(a);
    let y = chars_of(b);
    if x.len() == 0 || y.len() == 0 {
        return false;
    }
    assert(x@.take(x@.len() as int) =~= x@);
    assert(y@.take(y@.len() as int) =~= y@);
    if near(&x, &y, x.len(), y.len(), SLIPS) {
        return true;
    }
    let n: usize = common_opening(&x, &y);
    proof {
        let k = SHARED_OPENING as int;
        if n >= SHARED_OPENING {
            assert(x@.take(k) =~= x@.take(n as int).take(k));
            assert(y@.take(k) =~= y@.take(n as int).take(k));
        } else if shared_opening(x@, y@) {
            assert(x@.take(k)[n as int] == y@.take(k)[n as int]);
        }
    }
    n >= SHARED_OPENING
}

/// Likeness goes both ways: which of the two passwords is the real one does
/// not matter.
pub proof fn law_alike_symmetric(x: Seq<char>, y: Seq<char>)
    ensures
        alike(x, y) == alike(y, x),
{
    if within(x, y, SLIPS as nat) {
        lemma_within_symmetric(x, y, SLIPS as nat);
    }
    if within(y, x, SLIPS as nat) {
        lemma_within_symmetric(y, x, SLIPS as nat);
    }
}

/// No change turns a text into itself.
proof fn lemma_within_reflexive(x: Seq<char>)
    ensures
        within(x, x, 0),
    decreases x.len(),
{
    if x.len() > 0 {
        lemma_within_reflexive(x.drop_last());
    }
}

/// Every password is like itself, so the real password can never serve as the
/// duress password.
pub proof fn law_alike_reflexive(x: Seq<char>)
    requires
        x.len() > 0,
    ensures
        alike(x, x),
{
    lemma_within_reflexive(x);
    lemma_within_grows(x, x, 0);
    lemma_within_grows(x, x, 1);
}

/// Changing a character costs one change at most.
proof fn lemma_within_update(x: Seq<char>, y: Seq<char>, i: int, c: char, k: nat)
    requires
        0 <= i < y.len(),
        within(x, y, k),
    ensures
        within(x, y.update(i, c), k + 1),
    decreases x.len() + y.len(),
{
    let z = y.update(i, c);
    if x.len() > 0 {
        let (p, q) = (x.drop_last(), y.drop_last());
        if i == y.len() - 1 {
            assert(z.drop_last() =~= q);
            if x.last() == y.last() && within(p, q, k) {
            } else if within(p, q, (k - 1) as nat) {
                lemma_within_grows(p, q, (k - 1) as nat);
            } else if within(p, y, (k - 1) as nat) {
                lemma_within_update(p, y, i, c, (k - 1) as nat);
            } else {
                lemma_within_grows(x, q, (k - 1) as nat);
            }
        } else {
            assert(z.drop_last() =~= q.update(i, c));
            if x.last() == y.last() && within(p, q, k) {
                lemma_within_update(p, q, i, c, k);
            } else if within(p, q, (k - 1) as nat) {
                lemma_within_update(p, q, i, c, (k - 1) as nat);
            } else if within(p, y, (k - 1) as nat) {
                lemma_within_update(p, y, i, c, (k - 1) as nat);
            } else {
                lemma_within_update(x, q, i, c, (k - 1) as nat);
            }
        }
    }
}

/// Dropping a character costs one change at most.
proof fn lemma_within_remove(x: Seq<char>, y: Seq<char>, i: int, k: nat)
    requires
        0 <= i < y.len(),
        within(x, y, k),
    ensures
        within(x, y.remove(i), k + 1),
    decreases x.len() + y.len(),
{
    let z = y.remove(i);
    if i == y.len() - 1 {
        assert(z =~= y.drop_last());
        lemma_within_drop_last(x, y, k);
    } else if x.len() > 0 {
        let (p, q) = (x.drop_last(), y.drop_last());
        assert(z.drop_last() =~= q.remove(i));
        assert(z.last() == y.last());
        if x.last() == y.last() && within(p, q, k) {
            lemma_within_remove(p, q, i, k);
        } else if within(p, q, (k - 1) as nat) {
            lemma_within_remove(p, q, i, (k - 1) as nat);
        } else if within(p, y, (k - 1) as nat) {
            lemma_within_remove(p, y, i, (k - 1) as nat);
        } else {
            lemma_within_remove(x, q, i, (k - 1) as nat);
        }
    }
}

/// Adding a character costs one change at most.
proof fn lemma_within_insert(x: Seq<char>, y: Seq<char>, i: int, c: char, k: nat)
    requires
        0 <= i <= y.len(),
        within(x, y, k),
    ensures
        within(x, y.insert(i, c), k + 1),
    decreases x.len() + y.len(),
{
    let z = y.insert(i, c);
    if i == y.len() {
        assert(z.drop_last() =~= y);
    } else if x.len() > 0 {
        let (p, q) = (x.drop_last(), y.drop_last());
        assert(z.drop_last() =~= q.insert(i, c));
        assert(z.last() == y.last());
        if x.last() == y.last() && within(p, q, k) {
            lemma_within_insert(p, q, i, c, k);
        } else if within(p, q, (k - 1) as nat) {
            lemma_within_insert(p, q, i, c, (k - 1) as nat);
        } else if within(p, y, (k - 1) as nat) {
            lemma_within_insert(p, y, i, c, (k - 1) as nat);
        } else {
            lemma_within_insert(x, q, i, c, (k - 1) as nat);
        }
    }
}

/// A password with any one or two of its characters changed is too close to
/// the password itself.
pub proof fn law_two_changes_alike(x: Seq<char>, i: int, c: char, j: int, d: char)
    requires
        0 <= i < x.len(),
        0 <= j < x.len(),
    ensures
        alike(x, x.update(i, c)),
        alike(x, x.update(i, c).update(j, d)),
{
    lemma_within_reflexive(x);
    lemma_within_update(x, x, i, c, 0);
    lemma_within_grows(x, x.update(i, c), 1);
    lemma_within_update(x, x.update(i, c), j, d, 1);
}

/// A password with any one of its characters dropped, as long as something is
/// left, is too close to the password itself.
pub proof fn law_one_drop_alike(x: Seq<char>, i: int)
    requires
        0 <= i < x.len(),
        x.len() > 1,
    ensures
        alike(x, x.remove(i)),
        alike(x.remove(i), x),
{
    lemma_within_reflexive(x);
    lemma_within_remove(x, x, i, 0);
    lemma_within_grows(x, x.remove(i), 1);
    law_alike_symmetric(x, x.remove(i));
}

/// A password with any two of its characters dropped, as long as something is
/// left, is too close to the password itself.
pub proof fn law_two_drops_alike(x: Seq<char>, i: int, j: int)
    requires
        0 <= i < x.len(),
        0 <= j < x.len() - 1,
        x.len() > 2,
    ensures
        alike(x, x.remove(i).remove(j)),
        alike(x.remove(i).remove(j), x),
{
    lemma_within_reflexive(x);
    lemma_within_remove(x, x, i, 0);
    lemma_within_remove(x, x.remove(i), j, 1);
    law_alike_symmetric(x, x.remove(i).remove(j));
}

/// A password with one character dropped and another changed is too close to
/// the password itself.
pub proof fn law_drop_and_change_alike(x: Seq<char>, i: int, j: int, c: char)
    requires
        0 <= i < x.len(),
        0 <= j < x.len() - 1,
    ensures
        alike(x, x.remove(i).update(j, c)),
        alike(x.remove(i).update(j, c), x),
{
    lemma_within_reflexive(x);
    lemma_within_remove(x, x, i, 0);
    lemma_within_update(x, x.remove(i), j, c, 1);
    law_alike_symmetric(x, x.remove(i).update(j, c));
}

/// A password with one character taken out and one put in anywhere else is too
/// close to the password itself: two neighbours typed in the wrong order, for
/// one.
pub proof fn law_drop_and_add_alike(x: Seq<char>, i: int, j: int, c: char)
    requires
        0 <= i < x.len(),
        0 <= j < x.len(),
    ensures
        alike(x, x.remove(i).insert(j, c)),
        alike(x.remove(i).insert(j, c), x),
{
    lemma_within_reflexive(x);
    lemma_within_remove(x, x, i, 0);
    lemma_within_insert(x, x.remove(i), j, c, 1);
    law_alike_symmetric(x, x.remove(i).insert(j, c));
}

/// One slip of the fingers, or none. A place that is not there leaves the text
/// as it is.
pub enum Slip {
    Nothing,
    Change { at: int, to: char },
    Drop { at: int },
    Add { at: int, c: char },
}

impl Slip {
    /// The text with the slip in it.
    pub open spec fn on(self, x: Seq<char>) -> Seq<char> {
        match self {
            Slip::Nothing => x,
            Slip::Change { at, to } => if 0 <= at < x.len() {
                x.update(at, to)
            } else {
                x
            },
            Slip::Drop { at } => if 0 <= at < x.len() {
                x.remove(at)
            } else {
                x
            },
            Slip::Add { at, c } => if 0 <= at <= x.len() {
                x.insert(at, c)
            } else {
                x
            },
        }
    }

    /// The slip, made where there is room for it; none, where there is not.
    spec fn inside(self, x: Seq<char>) -> Slip {
        match self {
            Slip::Change { at, .. } => if 0 <= at < x.len() {
                self
            } else {
                Slip::Nothing
            },
            Slip::Drop { at } => if 0 <= at < x.len() {
                self
            } else {
                Slip::Nothing
            },
            Slip::Add { at, .. } => if 0 <= at <= x.len() {
                self
            } else {
                Slip::Nothing
            },
            Slip::Nothing => self,
        }
    }
}

/// Texts with slips in them, one behind the other.
spec fn slipped(x: Seq<char>, slips: Seq<Slip>) -> Seq<char>
    decreases slips.len(),
{
    if slips.len() == 0 {
        x
    } else {
        slipped(slips[0].on(x), slips.drop_first())
    }
}

/// Each slip costs one change at most.
proof fn lemma_within_slip(x: Seq<char>, y: Seq<char>, e: Slip, k: nat)
    requires
        within(x, y, k),
    ensures
        within(x, e.on(y), k + 1),
{
    lemma_within_grows(x, y, k);
    match e {
        Slip::Nothing => {},
        Slip::Change { at, to } => {
            if 0 <= at < y.len() {
                lemma_within_update(x, y, at, to, k);
            }
        },
        Slip::Drop { at } => {
            if 0 <= at < y.len() {
                lemma_within_remove(x, y, at, k);
            }
        },
        Slip::Add { at, c } => {
            if 0 <= at <= y.len() {
                lemma_within_insert(x, y, at, c, k);
            }
        },
    }
}

/// Slips made in a text can be made in a longer one.
proof fn lemma_slip_before_end(e: Slip, p: Seq<char>, a: char)
    ensures
        e.inside(p).on(p.push(a)) == e.on(p).push(a),
{
    assert(e.inside(p).on(p.push(a)) =~= e.on(p).push(a));
}

/// The slips that do to a longer text what some slips do to a shorter one.
proof fn lemma_slips_before_end(p: Seq<char>, slips: Seq<Slip>, a: char) -> (r: Seq<Slip>)
    ensures
        r.len() == slips.len(),
        slipped(p.push(a), r) == slipped(p, slips).push(a),
    decreases slips.len(),
{
    if slips.len() == 0 {
        slips
    } else {
        let e = slips[0];
        lemma_slip_before_end(e, p, a);
        let rest = lemma_slips_before_end(e.on(p), slips.drop_first(), a);
        let r = seq![e.inside(p)] + rest;
        assert(r.drop_first() =~= rest);
        r
    }
}

/// One slip before others.
proof fn lemma_slip_first(e: Slip, x: Seq<char>, rest: Seq<Slip>) -> (r: Seq<Slip>)
    ensures
        r.len() == rest.len() + 1,
        slipped(x, r) == slipped(e.on(x), rest),
{
    let r = seq![e] + rest;
    assert(r.drop_first() =~= rest);
    r
}

/// A character added at the end before other slips.
proof fn lemma_add_first(c: char, x: Seq<char>, rest: Seq<Slip>) -> (r: Seq<Slip>)
    ensures
        r.len() == rest.len() + 1,
        slipped(x, r) == slipped(x.push(c), rest),
{
    let e = Slip::Add { at: x.len() as int, c };
    assert(e.on(x) =~= x.push(c));
    lemma_slip_first(e, x, rest)
}

/// The last character changed before other slips.
proof fn lemma_change_first(c: char, x: Seq<char>, rest: Seq<Slip>) -> (r: Seq<Slip>)
    requires
        x.len() > 0,
    ensures
        r.len() == rest.len() + 1,
        slipped(x, r) == slipped(x.drop_last().push(c), rest),
{
    let e = Slip::Change { at: x.len() - 1, to: c };
    assert(e.on(x) =~= x.drop_last().push(c));
    lemma_slip_first(e, x, rest)
}

/// The last character dropped before other slips.
proof fn lemma_drop_first(x: Seq<char>, rest: Seq<Slip>) -> (r: Seq<Slip>)
    requires
        x.len() > 0,
    ensures
        r.len() == rest.len() + 1,
        slipped(x, r) == slipped(x.drop_last(), rest),
{
    let e = Slip::Drop { at: x.len() - 1 };
    assert(e.on(x) =~= x.drop_last());
    lemma_slip_first(e, x, rest)
}

/// Texts within reach of one another are so many slips apart.
proof fn lemma_within_by_slips(x: Seq<char>, y: Seq<char>, k: nat) -> (r: Seq<Slip>)
    requires
        within(x, y, k),
    ensures
        r.len() == k,
        slipped(x, r) == y,
    decreases x.len() + y.len(), k,
{
    let (p, q) = (x.drop_last(), y.drop_last());
    if x.len() == 0 && y.len() == 0 {
        assert(x =~= y);
        if k == 0 {
            Seq::empty()
        } else {
            let rest = lemma_within_by_slips(x, y, (k - 1) as nat);
            lemma_slip_first(Slip::Nothing, x, rest)
        }
    } else if x.len() == 0 {
        let rest = lemma_within_by_slips(x, q, (k - 1) as nat);
        assert(q.push(y.last()) =~= y);
        let more = lemma_slips_before_end(x, rest, y.last());
        lemma_add_first(y.last(), x, more)
    } else if y.len() == 0 {
        let rest = lemma_within_by_slips(p, y, (k - 1) as nat);
        lemma_drop_first(x, rest)
    } else {
        assert(p.push(x.last()) =~= x);
        assert(q.push(y.last()) =~= y);
        if x.last() == y.last() && within(p, q, k) {
            let rest = lemma_within_by_slips(p, q, k);
            lemma_slips_before_end(p, rest, x.last())
        } else if k > 0 && within(p, q, (k - 1) as nat) {
            let rest = lemma_within_by_slips(p, q, (k - 1) as nat);
            let more = lemma_slips_before_end(p, rest, y.last());
            lemma_change_first(y.last(), x, more)
        } else if k > 0 && within(p, y, (k - 1) as nat) {
            let rest = lemma_within_by_slips(p, y, (k - 1) as nat);
            lemma_drop_first(x, rest)
        } else {
            let rest = lemma_within_by_slips(x, q, (k - 1) as nat);
            let more = lemma_slips_before_end(x, rest, y.last());
            lemma_add_first(y.last(), x, more)
        }
    }
}

/// Two passwords are alike exactly if neither is empty and either one or two
/// slips, of any kind and at any place, turn the one into the other, or they
/// begin with the same eight characters. How long they are, and by how much
/// they differ in length, plays no other role.
pub proof fn law_alike_exactly_when(x: Seq<char>, y: Seq<char>)
    ensures
        alike(x, y) <==> x.len() > 0 && y.len() > 0 && {
            ||| exists|e: Slip, f: Slip| y == #[trigger] f.on(#[trigger] e.on(x))
            ||| x.len() >= 8 && y.len() >= 8 && forall|i: int| 0 <= i < 8 ==> x[i] == y[i]
        },
{
    if exists|e: Slip, f: Slip| y == #[trigger] f.on(#[trigger] e.on(x)) {
        let (e, f) = choose|e: Slip, f: Slip| y == #[trigger] f.on(#[trigger] e.on(x));
        lemma_within_reflexive(x);
        lemma_within_slip(x, x, e, 0);
        lemma_within_slip(x, e.on(x), f, 1);
    }
    if within(x, y, 2) {
        let r = lemma_within_by_slips(x, y, 2);
        let (e, f) = (r[0], r[1]);
        reveal_with_fuel(slipped, 3);
        assert(r.drop_first()[0] == f);
        assert(y == f.on(e.on(x)));
    }
    if x.len() >= 8 && y.len() >= 8 {
        if forall|i: int| 0 <= i < 8 ==> x[i] == y[i] {
            assert(x.take(8) =~= y.take(8));
        }
        if x.take(8) == y.take(8) {
            assert forall|i: int| 0 <= i < 8 implies x[i] == y[i] by {
                assert(x.take(8)[i] == y.take(8)[i]);
            }
        }
    }
}

/// Two passwords that begin with the same eight characters are too close,
/// whatever follows and however long it is.
pub proof fn law_shared_opening_alike(opening: Seq<char>, a: Seq<char>, b: Seq<char>)
    requires
        opening.len() >= 8,
    ensures
        alike(opening + a, opening + b),
{
    law_alike_exactly_when(opening + a, opening + b);
}

} // verus!
