//! A depth-first, left-to-right walk over a table B-tree that hands out the
//! cells of its leaves in order.

use vstd::prelude::*;

use crate::error::{Result, SQLiteError};
use crate::model::{DbHeader, LeafTableCell, Page};
use crate::parser::{parse_page, CellView, PageView};
use crate::record::HeaderCache;
use crate::{spec_page_at, Reader};

verus! {

/// The pages still to visit after an interior page: its children, then its
/// rightmost child when that is not 0, stacked so that the first child is on top.
pub open spec fn pending_children(children: Seq<u32>, rightmost: u32) -> Seq<u32> {
    let all = if rightmost > 0 {
        children.push(rightmost)
    } else {
        children
    };
    Seq::new(all.len(), |i: int| all[all.len() - 1 - i])
}

/// The leaf cells met by walking the pages on `stack` (top at the end) depth
/// first, visiting at most `fuel` pages; and whether the walk ended without a
/// fault. A fault is a page that does not parse, an interior index page, or
/// running out of fuel, which only a page cycle can cause.
pub open spec fn walk(buf: Seq<u8>, h: DbHeader, stack: Seq<u32>, fuel: nat) -> (Seq<CellView>, bool)
    decreases fuel,
{
    if stack.len() == 0 {
        (Seq::empty(), true)
    } else if fuel == 0 {
        (Seq::empty(), false)
    } else {
        let rest = stack.drop_last();
        match spec_page_at(buf, h, stack.last() as int) {
            Some(PageView::LeafTable { cells }) => {
                let (r, ok) = walk(buf, h, rest, (fuel - 1) as nat);
                (cells + r, ok)
            },
            Some(PageView::LeafIndex) => walk(buf, h, rest, (fuel - 1) as nat),
            Some(PageView::InteriorTable { children, rightmost }) => walk(
                buf,
                h,
                rest + pending_children(children, rightmost),
                (fuel - 1) as nat,
            ),
            _ => (Seq::empty(), false),
        }
    }
}

/// Number of whole pages in a file of `len` bytes: the most pages a walk visits.
pub open spec fn page_count(len: nat, h: DbHeader) -> nat {
    len / h.page_size.spec_real_size()
}

/// The cells of `cells`, in reverse order, as mathematical objects.
pub open spec fn reversed_views<'a>(cells: Seq<LeafTableCell<'a>>) -> Seq<CellView> {
    Seq::new(cells.len(), |i: int| cells[cells.len() - 1 - i].view_cell())
}

/// The state of a walk: pages still to visit and the cells of the current leaf.
pub struct TableCursor<'a> {
    /// Pages still to visit; the next one is last.
    pub stack: Vec<u32>,
    /// Cells of the current leaf not yet handed out; the next one is last.
    pub leaf: Vec<LeafTableCell<'a>>,
    /// Pages that may still be visited.
    pub fuel: usize,
    /// Record shapes met so far on this walk.
    pub cache: HeaderCache,
}

/// `v` in reverse order.
fn reversed<'a>(v: Vec<LeafTableCell<'a>>) -> (r: Vec<LeafTableCell<'a>>)
    ensures
        r@.len() == v@.len(),
        forall|i: int| 0 <= i < v@.len() ==> r@[i] == v@[v@.len() - 1 - i],
{
    let mut v = v;
    let ghost orig = v@;
    let mut r: Vec<LeafTableCell<'a>> = Vec::new();
    while v.len() > 0
        invariant
            v@ == orig.subrange(0, orig.len() - r@.len()),
            r@.len() <= orig.len(),
            forall|i: int| 0 <= i < r@.len() ==> r@[i] == orig[orig.len() - 1 - i],
        decreases v@.len(),
    {
        let c = v.pop().unwrap();
        r.push(c);
    }
    r
}

impl<'a> TableCursor<'a> {
    /// The cells still to come, and whether the walk ends without a fault.
    pub open spec fn remaining(&self, buf: Seq<u8>, h: DbHeader) -> (Seq<CellView>, bool) {
        let w = walk(buf, h, self.stack@, self.fuel as nat);
        (reversed_views(self.leaf@) + w.0, w.1)
    }

    /// A walk of the table B-tree rooted at page `root` of `reader`.
    pub fn new(reader: &Reader<'a>, root: u32) -> (r: TableCursor<'a>)
        requires
            reader.wf(),
        ensures
            r.cache.wf(),
            r.remaining(reader.source(), reader.header) == walk(
                reader.source(),
                reader.header,
                seq![root],
                page_count(reader.source().len(), reader.header),
            ),
    {
        let mut stack: Vec<u32> = Vec::new();
        stack.push(root);
        let fuel = reader.buf.len() / reader.header.page_size.real_size();
        let r = TableCursor { stack, leaf: Vec::new(), fuel, cache: HeaderCache::new() };
        proof {
            assert(reversed_views(r.leaf@) + walk(reader.source(), reader.header, r.stack@, fuel as nat).0
                =~= walk(reader.source(), reader.header, r.stack@, fuel as nat).0);
            assert(r.stack@ =~= seq![root]);
        }
        r
    }

    /// Parses page `p`, taken off the stack with one unit of fuel spent on
    /// it, and puts its cells or its children in place.
    fn load_page(&mut self, reader: &Reader<'a>, p: u32) -> (r: Result<()>)
        requires
            reader.wf(),
            old(self).cache.wf(),
            old(self).leaf@.len() == 0,
            old(self).fuel < usize::MAX,
        ensures
            final(self).cache.wf(),
            final(self).fuel == old(self).fuel,
            match r {
                Ok(_) => final(self).remaining(reader.source(), reader.header) == walk(
                    reader.source(),
                    reader.header,
                    old(self).stack@.push(p),
                    (old(self).fuel + 1) as nat,
                ),
                Err(e) => walk(
                    reader.source(),
                    reader.header,
                    old(self).stack@.push(p),
                    (old(self).fuel + 1) as nat,
                ) == (Seq::<CellView>::empty(), false) && (e is ParsingError || e is Other),
            },
    {
        let ghost buf = reader.source();
        let ghost h = reader.header;
        let ghost stack0 = self.stack@.push(p);
        proof {
            assert(stack0.drop_last() =~= self.stack@);
        }
        let (w, off) = match reader.page_content(p) {
            Ok(x) => x,
            Err(e) => return Err(e),
        };
        let page = match parse_page(w, &reader.header, off, &mut self.cache) {
            Ok(page) => page,
            Err(e) => return Err(e),
        };
        match page {
            Page::LeafTable(l) => {
                let ghost cells = l.cells@;
                self.leaf = reversed(l.cells);
                proof {
                    assert(reversed_views(self.leaf@) =~= cells.map_values(
                        |c: LeafTableCell<'a>| c.view_cell(),
                    ));
                }
                Ok(())
            },
            Page::LeafIndex => {
                proof {
                    assert(reversed_views(self.leaf@) + walk(buf, h, self.stack@, self.fuel as nat).0
                        =~= walk(buf, h, self.stack@, self.fuel as nat).0);
                }
                Ok(())
            },
            Page::InteriorTable(t) => {
                push_children(&mut self.stack, &t);
                proof {
                    assert(reversed_views(self.leaf@) + walk(buf, h, self.stack@, self.fuel as nat).0
                        =~= walk(buf, h, self.stack@, self.fuel as nat).0);
                }
                Ok(())
            },
            Page::InteriorIndex => {
                Err(SQLiteError::Other("unsupported page type for streaming".to_owned()))
            },
        }
    }

    /// The next cell of the walk, or none at its end.
    #[verifier::rlimit(50)]
    pub fn next_row(&mut self, reader: &Reader<'a>) -> (r: Result<Option<LeafTableCell<'a>>>)
        requires
            reader.wf(),
            old(self).cache.wf(),
        ensures
            final(self).cache.wf(),
            match r {
                Ok(Some(c)) => {
                    &&& old(self).remaining(reader.source(), reader.header) == (
                        seq![c.view_cell()] + final(self).remaining(reader.source(), reader.header).0,
                        final(self).remaining(reader.source(), reader.header).1,
                    )
                    &&& (final(self).fuel < old(self).fuel || (final(self).fuel == old(self).fuel
                        && final(self).leaf@.len() < old(self).leaf@.len()))
                },
                Ok(None) => old(self).remaining(reader.source(), reader.header) == (
                    Seq::<CellView>::empty(),
                    true,
                ),
                Err(e) => old(self).remaining(reader.source(), reader.header) == (
                    Seq::<CellView>::empty(),
                    false,
                ) && (e is ParsingError || e is Other),
            },
    {
        let ghost buf = reader.source();
        let ghost h = reader.header;
        let ghost target = self.remaining(buf, h);
        let ghost fuel0 = self.fuel;
        let ghost leaf0 = self.leaf@.len();
        loop
            invariant
                reader.wf(),
                buf == reader.source(),
                h == reader.header,
                self.cache.wf(),
                target == old(self).remaining(buf, h),
                fuel0 == old(self).fuel,
                leaf0 == old(self).leaf@.len(),
                self.remaining(buf, h) == target,
                self.fuel <= fuel0,
                self.fuel == fuel0 ==> self.leaf@.len() <= leaf0,
            decreases self.fuel,
        {
            if self.leaf.len() > 0 {
                let ghost before = self.leaf@;
                let c = self.leaf.pop().unwrap();
                proof {
                    assert(reversed_views(before) =~= seq![c.view_cell()] + reversed_views(self.leaf@));
                    assert(target.0 =~= seq![c.view_cell()] + self.remaining(buf, h).0);
                }
                return Ok(Some(c));
            }
            proof {
                assert(reversed_views(self.leaf@) =~= Seq::<CellView>::empty());
                assert(self.remaining(buf, h).0 =~= walk(buf, h, self.stack@, self.fuel as nat).0);
            }
            let ghost stack0 = self.stack@;
            let p = match self.stack.pop() {
                None => {
                    return Ok(None);
                },
                Some(p) => p,
            };
            proof {
                assert(stack0 =~= self.stack@.push(p));
            }
            if self.fuel == 0 {
                return Err(SQLiteError::Other("page cycle in B-tree".to_owned()));
            }
            self.fuel = self.fuel - 1;
            match self.load_page(reader, p) {
                Ok(_) => {},
                Err(e) => return Err(e),
            }
        }
    }
}

/// Stacks the children of interior page `t` so that its first child is on top.
fn push_children(stack: &mut Vec<u32>, t: &crate::model::InteriorTablePage)
    ensures
        final(stack)@ == old(stack)@ + pending_children(
            t.cells@.map_values(|c: crate::model::InteriorCell| c.left_child_page_no),
            t.header.rightmost_pointer,
        ),
{
    let ghost rest = stack@;
    let ghost children = t.cells@.map_values(|c: crate::model::InteriorCell| c.left_child_page_no);
    let rightmost = t.header.rightmost_pointer;
    if rightmost > 0 {
        stack.push(rightmost);
    }
    let ghost base = stack@;
    let mut i: usize = t.cells.len();
    while i > 0
        invariant
            i <= t.cells@.len(),
            children == t.cells@.map_values(|c: crate::model::InteriorCell| c.left_child_page_no),
            stack@.len() == base.len() + (t.cells@.len() - i),
            forall|j: int| 0 <= j < base.len() ==> stack@[j] == base[j],
            forall|j: int|
                base.len() <= j < stack@.len() ==> stack@[j] == children[t.cells@.len() - 1 - (j
                    - base.len())],
        decreases i,
    {
        i = i - 1;
        stack.push(t.cells[i].left_child_page_no);
    }
    proof {
        let pend = pending_children(children, rightmost);
        assert(children.len() == t.cells@.len());
        if rightmost > 0 {
            assert(base == rest.push(rightmost));
            let all = children.push(rightmost);
            assert forall|j: int| 0 <= j < stack@.len() implies stack@[j] == (rest + pend)[j] by {
                if j < rest.len() {
                    assert(stack@[j] == base[j]);
                } else if j == rest.len() {
                    assert(stack@[j] == base[j]);
                    assert(pend[0] == all[children.len() as int]);
                } else {
                    let k = j - rest.len();
                    assert(pend[k] == all[all.len() - 1 - k]);
                    assert(all[children.len() - k] == children[children.len() - k]);
                }
            }
        } else {
            assert(base == rest);
        }
        assert(stack@ =~= rest + pend);
    }
}

} // verus!
