//! A container as a run of bytes, and the writes that change it.

use vstd::prelude::*;

verus! {

/// One change to a container.
#[derive(Debug, PartialEq, Eq)]
pub enum Op {
    /// Writes bytes at a position.
    Write { at: u64, data: Vec<u8> },
    /// Cuts or extends the container to a length.
    SetLen(u64),
}

/// A change, with its bytes as a sequence.
pub enum OpView {
    Write { at: u64, data: Seq<u8> },
    SetLen(u64),
}

impl View for Op {
    type V = OpView;

    open spec fn view(&self) -> OpView {
        match self {
            Op::Write { at, data } => OpView::Write { at: *at, data: data@ },
            Op::SetLen(n) => OpView::SetLen(*n),
        }
    }
}

/// The views of changes.
pub open spec fn op_views(ops: Seq<Op>) -> Seq<OpView> {
    ops.map_values(|o: Op| o@)
}

/// A container after bytes were written at a position. What lies between the
/// old end and the position reads as zeroes.
pub open spec fn written(c: Seq<u8>, at: int, data: Seq<u8>) -> Seq<u8> {
    if data.len() == 0 {
        c
    } else {
        let len = if at + data.len() > c.len() {
            at + data.len()
        } else {
            c.len() as int
        };
        Seq::new(
            len as nat,
            |i: int|
                if at <= i < at + data.len() {
                    data[i - at]
                } else if i < c.len() {
                    c[i]
                } else {
                    0u8
                },
        )
    }
}

/// A container cut, or extended by zeroes, to a length.
pub open spec fn resized(c: Seq<u8>, len: int) -> Seq<u8> {
    Seq::new(
        len as nat,
        |i: int|
            if i < c.len() {
                c[i]
            } else {
                0u8
            },
    )
}

/// A container after one change.
pub open spec fn after(c: Seq<u8>, op: OpView) -> Seq<u8> {
    match op {
        OpView::Write { at, data } => written(c, at as int, data),
        OpView::SetLen(n) => resized(c, n as int),
    }
}

/// A container after changes, made in order.
pub open spec fn applied(c: Seq<u8>, ops: Seq<OpView>) -> Seq<u8>
    decreases ops.len(),
{
    if ops.len() == 0 {
        c
    } else {
        after(applied(c, ops.drop_last()), ops.last())
    }
}

/// The bytes that a read of up to `len` bytes at a position gives.
pub open spec fn read_at(c: Seq<u8>, at: int, len: int) -> Seq<u8> {
    if at >= c.len() {
        Seq::empty()
    } else if at + len > c.len() {
        c.subrange(at, c.len() as int)
    } else {
        c.subrange(at, at + len)
    }
}

/// Makes the changes to a container held in memory.
pub fn apply(c: Vec<u8>, ops: &Vec<Op>) -> (r: Vec<u8>)
    requires
        forall|i: int| 0 <= i < ops@.len() ==> fits(#[trigger] ops@[i]@),
    ensures
        r@ == applied(c@, op_views(ops@)),
{
    let ghost start = c@;
    let mut c = c;
    let mut k: usize = 0;
    while k < ops.len()
        invariant
            k <= ops@.len(),
            forall|i: int| 0 <= i < ops@.len() ==> fits(#[trigger] ops@[i]@),
            c@ == applied(start, op_views(ops@).take(k as int)),
        decreases ops@.len() - k,
    {
        proof {
            let views = op_views(ops@);
            assert(views.take(k + 1).drop_last() =~= views.take(k as int));
            assert(views.take(k + 1).last() == ops@[k as int]@);
            assert(fits(ops@[k as int]@));
        }
        match &ops[k] {
            Op::Write { at, data } => write_into(&mut c, *at as usize, data),
            Op::SetLen(n) => resize(&mut c, *n as usize),
        }
        k += 1;
    }
    proof {
        assert(op_views(ops@).take(k as int) =~= op_views(ops@));
    }
    c
}

/// The change reaches no further than memory can.
pub open spec fn fits(op: OpView) -> bool {
    match op {
        OpView::Write { at, data } => at + data.len() <= usize::MAX,
        OpView::SetLen(n) => n <= usize::MAX,
    }
}

/// Cuts or extends bytes to a length.
fn resize(c: &mut Vec<u8>, len: usize)
    ensures
        final(c)@ == resized(old(c)@, len as int),
{
    let ghost start = c@;
    if c.len() > len {
        c.truncate(len);
    }
    while c.len() < len
        invariant
            c@.len() <= len,
            c@.len() >= start.len() || c@.len() == len,
            c@ == resized(start, c@.len() as int),
        decreases len - c@.len(),
    {
        c.push(0);
        assert(c@ =~= resized(start, c@.len() as int));
    }
    assert(c@ =~= resized(start, len as int));
}

/// Writes bytes into bytes.
fn write_into(c: &mut Vec<u8>, at: usize, data: &Vec<u8>)
    requires
        at + data@.len() <= usize::MAX,
    ensures
        final(c)@ == written(old(c)@, at as int, data@),
{
    let ghost start = c@;
    if data.len() == 0 {
        return ;
    }
    if c.len() < at + data.len() {
        resize(c, at + data.len());
    }
    let ghost grown = c@;
    let mut i: usize = 0;
    while i < data.len()
        invariant
            i <= data@.len(),
            at + data@.len() <= c@.len() <= usize::MAX,
            c@.len() == grown.len(),
            forall|j: int|
                0 <= j < c@.len() ==> #[trigger] c@[j] == (if at <= j < at + i {
                    data@[j - at]
                } else {
                    grown[j]
                }),
        decreases data@.len() - i,
    {
        c.set(at + i, data[i]);
        i += 1;
    }
    assert(c@ =~= written(start, at as int, data@));
}

/// A write changes only the bytes it covers, and never shortens the container.
pub proof fn lemma_written(c: Seq<u8>, at: int, data: Seq<u8>)
    requires
        0 <= at,
    ensures
        written(c, at, data).len() >= c.len(),
        at <= c.len() ==> written(c, at, data).len() == if at + data.len() > c.len() {
            at + data.len()
        } else {
            c.len() as int
        },
        data.len() > 0 ==> written(c, at, data).subrange(at, at + data.len()) == data,
        forall|i: int|
            0 <= i < c.len() && !(at <= i < at + data.len()) ==> written(c, at, data)[i] == c[i],
{
    if data.len() > 0 {
        assert(written(c, at, data).subrange(at, at + data.len()) =~= data);
    }
}

/// What is written is what is read, byte for byte: a write puts its bytes at
/// its position, leaves every other byte, fills with zeroes what it reaches
/// across, and makes the container no longer than it has to.
pub proof fn law_write_then_read(c: Seq<u8>, at: int, data: Seq<u8>)
    requires
        0 <= at,
        data.len() > 0,
    ensures
        ({
            let d = written(c, at, data);
            &&& read_at(d, at, data.len() as int) == data
            &&& d.len() == c.len() || d.len() == at + data.len()
            &&& d.len() >= c.len()
            &&& d.len() >= at + data.len()
            &&& forall|i: int|
                0 <= i < c.len() && (i < at || at + data.len() <= i) ==> #[trigger] d[i] == c[i]
            &&& forall|i: int| c.len() <= i < at ==> #[trigger] d[i] == 0u8
        }),
{
    assert(read_at(written(c, at, data), at, data.len() as int) =~= data);
}

/// Writing nothing changes nothing; cutting keeps what is before the cut;
/// extending keeps everything and adds zeroes.
pub proof fn law_resizing_keeps_the_start(c: Seq<u8>, at: int, len: nat)
    ensures
        written(c, at, Seq::empty()) == c,
        resized(c, len as int).len() == len,
        forall|i: int|
            0 <= i < len && i < c.len() ==> #[trigger] resized(c, len as int)[i] == c[i],
        forall|i: int| c.len() <= i < len ==> #[trigger] resized(c, len as int)[i] == 0u8,
{
}

/// A read gives the bytes that are there, from its position on, as many as were
/// asked for or as there are.
pub proof fn law_read_gives_what_is_there(c: Seq<u8>, at: int, len: int)
    requires
        0 <= at,
        0 <= len,
    ensures
        ({
            let b = read_at(c, at, len);
            &&& at + len <= c.len() ==> b.len() == len
            &&& at <= c.len() < at + len ==> b.len() == c.len() - at
            &&& at > c.len() ==> b.len() == 0
            &&& forall|i: int| 0 <= i < b.len() ==> #[trigger] b[i] == c[at + i]
        }),
{
}

/// Changes are made one behind the other, in order.
pub proof fn law_changes_are_made_in_order(c: Seq<u8>, a: Seq<OpView>, b: Seq<OpView>)
    ensures
        applied(c, a + b) == applied(applied(c, a), b),
    decreases b.len(),
{
    if b.len() > 0 {
        law_changes_are_made_in_order(c, a, b.drop_last());
        assert((a + b).drop_last() =~= a + b.drop_last());
        assert((a + b).last() == b.last());
    } else {
        assert(a + b =~= a);
    }
}

} // verus!
