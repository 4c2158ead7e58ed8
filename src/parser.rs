//! The database header and B-tree pages.

use vstd::prelude::*;

use crate::bytes::{be_u64_varint, be_uint_at, be_value, read_be_u16, read_be_u32, varint_at};
use crate::error::{parsing_error, Result, SQLiteError};
use crate::model::{
    encoding_of_code, local_size, max_local, valid_page_size, values_view, DbHeader,
    InteriorCell, InteriorPageHeader, InteriorTablePage, LeafPageHeader, LeafTableCell,
    LeafTablePage, Page, PageSize, SerialType, TextEncoding, Value,
};
use crate::record::{lemma_varint_bounds, spec_record, table_cell_payload_cached, HeaderCache};

verus! {

pub const PAGE_TYPE_INTERIOR_INDEX: u8 = 0x02;

pub const PAGE_TYPE_INTERIOR_TABLE: u8 = 0x05;

pub const PAGE_TYPE_LEAF_INDEX: u8 = 0x0a;

pub const PAGE_TYPE_LEAF_TABLE: u8 = 0x0d;

/// The sixteen bytes that open every database file: "SQLite format 3" and a zero.
pub open spec fn magic() -> Seq<u8> {
    seq![
        0x53u8, 0x51, 0x4c, 0x69, 0x74, 0x65, 0x20, 0x66, 0x6f, 0x72, 0x6d, 0x61, 0x74, 0x20,
        0x33, 0x00,
    ]
}

/// The page size that the stored field value `v` stands for.
pub open spec fn page_size_of_field(v: nat) -> nat {
    if v == 1 {
        65536
    } else {
        v
    }
}

/// The header is long enough, has the magic string and a valid page size.
pub open spec fn header_frame_ok(s: Seq<u8>) -> bool {
    &&& s.len() >= 100
    &&& s.subrange(0, 16) == magic()
    &&& valid_page_size(page_size_of_field(be_value(s.subrange(16, 18))))
}

/// The text encoding code stored in the header.
pub open spec fn header_encoding_code(s: Seq<u8>) -> nat {
    be_value(s.subrange(56, 60))
}

/// Parses the 100-byte database header at the start of `input`.
pub fn db_header(input: &[u8]) -> (r: Result<DbHeader>)
    ensures
        match r {
            Ok(h) => {
                &&& header_frame_ok(input@)
                &&& h.wf()
                &&& h.page_size.0 == be_value(input@.subrange(16, 18))
                &&& h.reserved_size == input@[20]
                &&& encoding_of_code(header_encoding_code(input@) as u32) == Some(
                    h.db_text_encoding,
                )
            },
            Err(SQLiteError::UnknownTextEncodingError(c)) => {
                &&& header_frame_ok(input@)
                &&& c == header_encoding_code(input@)
                &&& encoding_of_code(c) is None
            },
            Err(e) => !header_frame_ok(input@) && e is ParsingError,
        },
{
    if input.len() < 100 {
        return Err(parsing_error("database header too short"));
    }
    let ok_magic = input[0] == 0x53 && input[1] == 0x51 && input[2] == 0x4c && input[3] == 0x69
        && input[4] == 0x74 && input[5] == 0x65 && input[6] == 0x20 && input[7] == 0x66
        && input[8] == 0x6f && input[9] == 0x72 && input[10] == 0x6d && input[11] == 0x61
        && input[12] == 0x74 && input[13] == 0x20 && input[14] == 0x33 && input[15] == 0x00;
    if !ok_magic {
        proof {
            if input@.subrange(0, 16) == magic() {
                assert(input@.subrange(0, 16)[0] == input@[0]);
                assert(input@.subrange(0, 16)[1] == input@[1]);
                assert(input@.subrange(0, 16)[2] == input@[2]);
                assert(input@.subrange(0, 16)[3] == input@[3]);
                assert(input@.subrange(0, 16)[4] == input@[4]);
                assert(input@.subrange(0, 16)[5] == input@[5]);
                assert(input@.subrange(0, 16)[6] == input@[6]);
                assert(input@.subrange(0, 16)[7] == input@[7]);
                assert(input@.subrange(0, 16)[8] == input@[8]);
                assert(input@.subrange(0, 16)[9] == input@[9]);
                assert(input@.subrange(0, 16)[10] == input@[10]);
                assert(input@.subrange(0, 16)[11] == input@[11]);
                assert(input@.subrange(0, 16)[12] == input@[12]);
                assert(input@.subrange(0, 16)[13] == input@[13]);
                assert(input@.subrange(0, 16)[14] == input@[14]);
                assert(input@.subrange(0, 16)[15] == input@[15]);
            }
        }
        return Err(parsing_error("bad magic string"));
    }
    proof {
        assert(input@.subrange(0, 16) =~= magic());
    }
    let raw_page_size = match read_be_u16(input, 16) {
        Some(v) => v,
        None => return Err(parsing_error("database header too short")),
    };
    let page_size = PageSize(raw_page_size);
    let size = page_size.real_size();
    if !(size == 512 || size == 1024 || size == 2048 || size == 4096 || size == 8192 || size
        == 16384 || size == 32768 || size == 65536) {
        return Err(parsing_error("invalid page size"));
    }
    let reserved_size = input[20];
    let code = match read_be_u32(input, 56) {
        Some(v) => v,
        None => return Err(parsing_error("database header too short")),
    };
    let db_text_encoding = match TextEncoding::try_from_code(code) {
        Ok(e) => e,
        Err(e) => return Err(e),
    };
    Ok(DbHeader { page_size, reserved_size, db_text_encoding })
}

/// A table leaf cell, as a mathematical object.
pub struct CellView {
    pub payload_size: int,
    pub rowid: int,
    pub types: Seq<SerialType>,
    pub values: Seq<Option<Value>>,
    pub overflow: Option<u32>,
    pub local: Seq<u8>,
}

/// A parsed page, as a mathematical object.
pub enum PageView {
    InteriorIndex,
    LeafIndex,
    InteriorTable { children: Seq<u32>, rightmost: u32 },
    LeafTable { cells: Seq<CellView> },
}

impl<'a> LeafTableCell<'a> {
    /// The cell as a mathematical object.
    pub open spec fn view_cell(&self) -> CellView {
        CellView {
            payload_size: self.payload_size as int,
            rowid: self.rowid as int,
            types: self.payload.column_types@,
            values: match self.column_values {
                Some(v) => values_view(v@),
                None => Seq::empty(),
            },
            overflow: self.overflow_page_no,
            local: self.local_payload@,
        }
    }
}

/// The table leaf cell at offset `c` of page window `w`, on pages of `usable` bytes.
pub open spec fn spec_leaf_cell(w: Seq<u8>, c: int, usable: int) -> Option<CellView> {
    match varint_at(w, c) {
        None => None,
        Some((ps, after_size)) => match varint_at(w, after_size) {
            None => None,
            Some((rowid, after_rowid)) => {
                let local = local_size(usable, ps);
                if after_rowid + local > w.len() {
                    None
                } else {
                    let rec = w.subrange(after_rowid, after_rowid + local);
                    let overflow: Option<Option<u32>> = if ps <= max_local(usable) {
                        Some(None)
                    } else {
                        match be_uint_at(w, after_rowid + local, 4) {
                            Some(n) => Some(Some(n as u32)),
                            None => None,
                        }
                    };
                    match (overflow, spec_record(rec)) {
                        (Some(o), Some((types, values))) => Some(
                            CellView {
                                payload_size: ps,
                                rowid,
                                types,
                                values,
                                overflow: o,
                                local: rec,
                            },
                        ),
                        _ => None,
                    }
                }
            },
        },
    }
}

/// Offset in the window of the cell that pointer `i` of the array at `base`
/// points to; pointers count from the start of the page, `off` bytes before the window.
pub open spec fn cell_offset(w: Seq<u8>, base: int, i: int, off: int) -> Option<int> {
    match be_uint_at(w, base + 2 * i, 2) {
        Some(ptr) => if ptr < off {
            None
        } else {
            Some(ptr - off)
        },
        None => None,
    }
}

/// The first `k` cells of a table leaf page.
pub open spec fn spec_leaf_cells(w: Seq<u8>, off: int, usable: int, k: int) -> Option<
    Seq<CellView>,
>
    decreases k,
{
    if k <= 0 {
        Some(Seq::empty())
    } else {
        match spec_leaf_cells(w, off, usable, k - 1) {
            None => None,
            Some(cs) => match cell_offset(w, 8, k - 1, off) {
                None => None,
                Some(c) => match spec_leaf_cell(w, c, usable) {
                    None => None,
                    Some(cell) => Some(cs.push(cell)),
                },
            },
        }
    }
}

/// The left children of the first `k` cells of an interior table page.
pub open spec fn spec_interior_children(w: Seq<u8>, off: int, k: int) -> Option<Seq<u32>>
    decreases k,
{
    if k <= 0 {
        Some(Seq::empty())
    } else {
        match spec_interior_children(w, off, k - 1) {
            None => None,
            Some(cs) => match cell_offset(w, 12, k - 1, off) {
                None => None,
                Some(c) => match (be_uint_at(w, c, 4), varint_at(w, c + 4)) {
                    (Some(child), Some(_)) => Some(cs.push(child as u32)),
                    _ => None,
                },
            },
        }
    }
}

/// An index cell at `c` is well framed: an interior one starts with a child
/// pointer; then a payload size and that many payload bytes.
pub open spec fn index_cell_ok(w: Seq<u8>, c: int, interior: bool) -> bool {
    let start = if interior {
        c + 4
    } else {
        c
    };
    &&& (interior ==> be_uint_at(w, c, 4) is Some)
    &&& match varint_at(w, start) {
        Some((size, p)) => p + size <= w.len(),
        None => false,
    }
}

/// The first `k` cells of an index page are well framed.
pub open spec fn index_cells_ok(w: Seq<u8>, off: int, interior: bool, k: int) -> bool
    decreases k,
{
    if k <= 0 {
        true
    } else {
        let base = if interior {
            12
        } else {
            8
        };
        &&& index_cells_ok(w, off, interior, k - 1)
        &&& match cell_offset(w, base, k - 1, off) {
            Some(c) => index_cell_ok(w, c, interior),
            None => false,
        }
    }
}

/// Number of cells that the page header at the start of `w` declares.
pub open spec fn header_cells(w: Seq<u8>) -> nat {
    be_value(w.subrange(3, 5))
}

/// The page whose content window is `w`; `off` is where the window starts
/// within its page (100 on page 1, else 0).
pub open spec fn spec_page(w: Seq<u8>, off: int, usable: int) -> Option<PageView> {
    if w.len() < 8 {
        None
    } else if w[0] == PAGE_TYPE_LEAF_TABLE {
        match spec_leaf_cells(w, off, usable, header_cells(w) as int) {
            Some(cells) => Some(PageView::LeafTable { cells }),
            None => None,
        }
    } else if w[0] == PAGE_TYPE_LEAF_INDEX {
        if index_cells_ok(w, off, false, header_cells(w) as int) {
            Some(PageView::LeafIndex)
        } else {
            None
        }
    } else if w[0] == PAGE_TYPE_INTERIOR_TABLE || w[0] == PAGE_TYPE_INTERIOR_INDEX {
        if w.len() < 12 {
            None
        } else if w[0] == PAGE_TYPE_INTERIOR_INDEX {
            if index_cells_ok(w, off, true, header_cells(w) as int) {
                Some(PageView::InteriorIndex)
            } else {
                None
            }
        } else {
            match spec_interior_children(w, off, header_cells(w) as int) {
                Some(children) => Some(
                    PageView::InteriorTable {
                        children,
                        rightmost: be_value(w.subrange(8, 12)) as u32,
                    },
                ),
                None => None,
            }
        }
    } else {
        None
    }
}

/// Reads cell pointer `i` of the array at `base` and turns it into an offset in the window.
fn cell_pointer(w: &[u8], base: usize, i: u16, off: usize) -> (r: Result<usize>)
    requires
        base == 8 || base == 12,
    ensures
        match r {
            Ok(c) => cell_offset(w@, base as int, i as int, off as int) == Some(c as int),
            Err(e) => cell_offset(w@, base as int, i as int, off as int) is None && e is ParsingError,
        },
{
    let ptr = match read_be_u16(w, base + 2 * (i as usize)) {
        Some(p) => p,
        None => return Err(parsing_error("cell pointer out of page")),
    };
    if (ptr as usize) < off {
        return Err(parsing_error("cell pointer before page content"));
    }
    Ok(ptr as usize - off)
}

/// Parses the table leaf cell at `c`, decoding its record through `cache`.
pub fn leaf_table_cell_with_overflow_cached<'a>(
    w: &'a [u8],
    c: usize,
    db_header: &DbHeader,
    page_header: &LeafPageHeader,
    cache: &mut HeaderCache,
) -> (r: Result<LeafTableCell<'a>>)
    requires
        db_header.wf(),
        old(cache).wf(),
    ensures
        final(cache).wf(),
        match r {
            Ok(cell) => spec_leaf_cell(w@, c as int, db_header.spec_usable_page_size() as int)
                == Some(cell.view_cell()) && cell.column_values is Some,
            Err(e) => spec_leaf_cell(w@, c as int, db_header.spec_usable_page_size() as int) is None
                && e is ParsingError,
        },
{
    let (payload_size, after_size) = match be_u64_varint(w, c) {
        Some(x) => x,
        None => return Err(parsing_error("bad cell payload size")),
    };
    proof {
        lemma_varint_bounds(w@, c as int);
        lemma_varint_bounds(w@, after_size as int);
    }
    let (rowid, after_rowid) = match be_u64_varint(w, after_size) {
        Some(x) => x,
        None => return Err(parsing_error("bad cell rowid")),
    };
    let (local, overflow_size) = page_header.local_and_overflow_size(db_header, payload_size);
    if local > w.len() - after_rowid {
        return Err(parsing_error("cell payload runs past its page"));
    }
    let rec = vstd::slice::slice_subrange(w, after_rowid, after_rowid + local);
    let overflow_page_no = if overflow_size.is_some() {
        match read_be_u32(w, after_rowid + local) {
            Some(n) => Some(n),
            None => return Err(parsing_error("missing overflow page number")),
        }
    } else {
        None
    };
    let (payload, values) = match table_cell_payload_cached(rec, cache) {
        Ok(x) => x,
        Err(e) => return Err(e),
    };
    Ok(
        LeafTableCell {
            payload_size,
            rowid,
            payload,
            overflow_page_no,
            column_values: Some(values),
            local_payload: rec,
        },
    )
}

/// Reads the cell count of a page header: the `u16` at offset 3.
fn header_cell_count(w: &[u8]) -> (r: u16)
    requires
        w@.len() >= 8,
    ensures
        r == header_cells(w@),
{
    proof {
        crate::bytes::lemma_be_value_bound(w@.subrange(3, 5));
        reveal_with_fuel(crate::bytes::pow256, 3);
    }
    match read_be_u16(w, 3) {
        Some(n) => n,
        None => 0,
    }
}

/// Parses the cells of the table leaf page whose window is `w`, decoding
/// their records through `cache`.
pub fn leaf_table_cells<'a>(
    w: &'a [u8],
    off: usize,
    db_header: &DbHeader,
    cache: &mut HeaderCache,
) -> (r: Result<Vec<LeafTableCell<'a>>>)
    requires
        db_header.wf(),
        old(cache).wf(),
        w@.len() >= 8,
    ensures
        final(cache).wf(),
        match r {
            Ok(cells) => spec_leaf_cells(
                w@,
                off as int,
                db_header.spec_usable_page_size() as int,
                header_cells(w@) as int,
            ) == Some(cells@.map_values(|c: LeafTableCell<'a>| c.view_cell())),
            Err(e) => spec_leaf_cells(
                w@,
                off as int,
                db_header.spec_usable_page_size() as int,
                header_cells(w@) as int,
            ) is None && e is ParsingError,
        },
{
    let no_cells = header_cell_count(w);
    let header = LeafPageHeader { no_cells };
    let ghost usable = db_header.spec_usable_page_size() as int;
    let mut cells: Vec<LeafTableCell<'a>> = Vec::new();
    let mut i: u16 = 0;
    while i < no_cells
        invariant
            db_header.wf(),
            cache.wf(),
            i <= no_cells,
            no_cells == header_cells(w@),
            usable == db_header.spec_usable_page_size() as int,
            spec_leaf_cells(w@, off as int, usable, i as int) == Some(
                cells@.map_values(|c: LeafTableCell<'a>| c.view_cell()),
            ),
        decreases no_cells - i,
    {
        let c = match cell_pointer(w, 8, i, off) {
            Ok(c) => c,
            Err(e) => {
                proof {
                    lemma_leaf_cells_stuck(w@, off as int, usable, i as int, header_cells(w@) as int);
                }
                return Err(e);
            },
        };
        let cell = match leaf_table_cell_with_overflow_cached(w, c, db_header, &header, cache) {
            Ok(cell) => cell,
            Err(e) => {
                proof {
                    lemma_leaf_cells_stuck(w@, off as int, usable, i as int, header_cells(w@) as int);
                }
                return Err(e);
            },
        };
        cells.push(cell);
        proof {
            assert(cells@.map_values(|c: LeafTableCell<'a>| c.view_cell()) =~= spec_leaf_cells(
                w@,
                off as int,
                usable,
                i as int,
            ).unwrap().push(cell.view_cell()));
        }
        i += 1;
    }
    Ok(cells)
}

/// Once the cells up to `i + 1` fail, so do those up to any later count.
proof fn lemma_leaf_cells_stuck(w: Seq<u8>, off: int, usable: int, i: int, k: int)
    requires
        0 <= i < k,
        spec_leaf_cells(w, off, usable, i + 1) is None,
    ensures
        spec_leaf_cells(w, off, usable, k) is None,
    decreases k,
{
    if k > i + 1 {
        lemma_leaf_cells_stuck(w, off, usable, i, k - 1);
    }
}

/// Once the children up to `i + 1` fail, so do those up to any later count.
proof fn lemma_children_stuck(w: Seq<u8>, off: int, i: int, k: int)
    requires
        0 <= i < k,
        spec_interior_children(w, off, i + 1) is None,
    ensures
        spec_interior_children(w, off, k) is None,
    decreases k,
{
    if k > i + 1 {
        lemma_children_stuck(w, off, i, k - 1);
    }
}

/// Once the index cells up to `i + 1` fail, so do those up to any later count.
proof fn lemma_index_stuck(w: Seq<u8>, off: int, interior: bool, i: int, k: int)
    requires
        0 <= i < k,
        !index_cells_ok(w, off, interior, i + 1),
    ensures
        !index_cells_ok(w, off, interior, k),
    decreases k,
{
    if k > i + 1 {
        lemma_index_stuck(w, off, interior, i, k - 1);
    }
}

/// Parses the interior table cell at `c`: its left child; the key is read and dropped.
fn interior_table_cell(w: &[u8], c: usize) -> (r: Result<InteriorCell>)
    ensures
        match r {
            Ok(cell) => be_uint_at(w@, c as int, 4) == Some(cell.left_child_page_no as nat)
                && varint_at(w@, c + 4) is Some,
            Err(e) => (be_uint_at(w@, c as int, 4) is None || varint_at(w@, c + 4) is None)
                && e is ParsingError,
        },
{
    let len = w.len();
    let left_child_page_no = match read_be_u32(w, c) {
        Some(n) => n,
        None => return Err(parsing_error("interior cell out of page")),
    };
    assert(c + 4 <= len);
    match be_u64_varint(w, c + 4) {
        Some(_) => Ok(InteriorCell { left_child_page_no }),
        None => Err(parsing_error("bad interior cell key")),
    }
}

/// Parses the interior table page whose window is `w`.
pub fn interior_table_b_tree_page(w: &[u8], page_start_offset: usize) -> (r: Result<
    InteriorTablePage,
>)
    requires
        w@.len() >= 12,
    ensures
        match r {
            Ok(p) => {
                &&& spec_interior_children(w@, page_start_offset as int, header_cells(w@) as int)
                    == Some(p.cells@.map_values(|c: InteriorCell| c.left_child_page_no))
                &&& p.header.rightmost_pointer == be_value(w@.subrange(8, 12))
                &&& p.header.no_cells == header_cells(w@)
            },
            Err(e) => spec_interior_children(
                w@,
                page_start_offset as int,
                header_cells(w@) as int,
            ) is None && e is ParsingError,
        },
{
    let no_cells = header_cell_count(w);
    let rightmost_pointer = match read_be_u32(w, 8) {
        Some(n) => n,
        None => 0,
    };
    let ghost off = page_start_offset as int;
    let mut cells: Vec<InteriorCell> = Vec::new();
    let mut i: u16 = 0;
    while i < no_cells
        invariant
            i <= no_cells,
            no_cells == header_cells(w@),
            off == page_start_offset,
            spec_interior_children(w@, off, i as int) == Some(
                cells@.map_values(|c: InteriorCell| c.left_child_page_no),
            ),
        decreases no_cells - i,
    {
        let c = match cell_pointer(w, 12, i, page_start_offset) {
            Ok(c) => c,
            Err(e) => {
                proof {
                    lemma_children_stuck(w@, off, i as int, header_cells(w@) as int);
                }
                return Err(e);
            },
        };
        let cell = match interior_table_cell(w, c) {
            Ok(cell) => cell,
            Err(e) => {
                proof {
                    lemma_children_stuck(w@, off, i as int, header_cells(w@) as int);
                }
                return Err(e);
            },
        };
        let ghost child = cell.left_child_page_no;
        cells.push(cell);
        proof {
            assert(cells@.map_values(|c: InteriorCell| c.left_child_page_no) =~= spec_interior_children(
                w@,
                off,
                i as int,
            ).unwrap().push(child));
        }
        i += 1;
    }
    Ok(InteriorTablePage { header: InteriorPageHeader { no_cells, rightmost_pointer }, cells })
}

/// Checks the framing of the index cell at `c`; its payload is skipped.
fn index_cell(w: &[u8], c: usize, interior: bool) -> (r: Result<()>)
    ensures
        match r {
            Ok(_) => index_cell_ok(w@, c as int, interior),
            Err(e) => !index_cell_ok(w@, c as int, interior) && e is ParsingError,
        },
{
    let len = w.len();
    let start = if interior {
        match read_be_u32(w, c) {
            Some(_) => {
                assert(c + 4 <= len);
                c + 4
            },
            None => return Err(parsing_error("index cell out of page")),
        }
    } else {
        c
    };
    proof {
        lemma_varint_bounds(w@, start as int);
    }
    match be_u64_varint(w, start) {
        Some((size, p)) => if size <= (w.len() - p) as u64 {
            Ok(())
        } else {
            Err(parsing_error("index payload runs past its page"))
        },
        None => Err(parsing_error("bad index payload size")),
    }
}

/// Checks the framing of every cell of the index page whose window is `w`.
pub fn index_b_tree_page(w: &[u8], page_start_offset: usize, interior: bool) -> (r: Result<()>)
    requires
        w@.len() >= 12 || (!interior && w@.len() >= 8),
    ensures
        match r {
            Ok(_) => index_cells_ok(w@, page_start_offset as int, interior, header_cells(w@) as int),
            Err(e) => !index_cells_ok(
                w@,
                page_start_offset as int,
                interior,
                header_cells(w@) as int,
            ) && e is ParsingError,
        },
{
    let no_cells = header_cell_count(w);
    let base: usize = if interior {
        12
    } else {
        8
    };
    let mut i: u16 = 0;
    while i < no_cells
        invariant
            i <= no_cells,
            no_cells == header_cells(w@),
            base == (if interior {
                12int
            } else {
                8int
            }),
            index_cells_ok(w@, page_start_offset as int, interior, i as int),
        decreases no_cells - i,
    {
        let c = match cell_pointer(w, base, i, page_start_offset) {
            Ok(c) => c,
            Err(e) => {
                proof {
                    lemma_index_stuck(w@, page_start_offset as int, interior, i as int, header_cells(w@) as int);
                }
                return Err(e);
            },
        };
        match index_cell(w, c, interior) {
            Ok(_) => {},
            Err(e) => {
                proof {
                    lemma_index_stuck(w@, page_start_offset as int, interior, i as int, header_cells(w@) as int);
                }
                return Err(e);
            },
        }
        i += 1;
    }
    Ok(())
}

/// The view of a parsed page.
pub open spec fn page_view<'a>(p: Page<'a>) -> PageView {
    match p {
        Page::InteriorIndex => PageView::InteriorIndex,
        Page::LeafIndex => PageView::LeafIndex,
        Page::InteriorTable(t) => PageView::InteriorTable {
            children: t.cells@.map_values(|c: InteriorCell| c.left_child_page_no),
            rightmost: t.header.rightmost_pointer,
        },
        Page::LeafTable(l) => PageView::LeafTable {
            cells: l.cells@.map_values(|c: LeafTableCell<'a>| c.view_cell()),
        },
    }
}

/// Parses the page whose content window is `w`, dispatching on its type byte.
/// Leaf records are decoded through `cache`.
pub fn parse_page<'a>(
    w: &'a [u8],
    db_header: &DbHeader,
    page_start_offset: usize,
    cache: &mut HeaderCache,
) -> (r: Result<Page<'a>>)
    requires
        db_header.wf(),
        old(cache).wf(),
    ensures
        final(cache).wf(),
        match r {
            Ok(p) => spec_page(w@, page_start_offset as int, db_header.spec_usable_page_size() as int)
                == Some(page_view(p)),
            Err(e) => spec_page(w@, page_start_offset as int, db_header.spec_usable_page_size() as int)
                is None && e is ParsingError,
        },
{
    if w.len() < 8 {
        return Err(parsing_error("page too short"));
    }
    let page_type = w[0];
    if page_type == PAGE_TYPE_LEAF_TABLE {
        match leaf_table_cells(w, page_start_offset, db_header, cache) {
            Ok(cells) => Ok(Page::LeafTable(LeafTablePage { cells })),
            Err(e) => Err(e),
        }
    } else if page_type == PAGE_TYPE_LEAF_INDEX {
        match index_b_tree_page(w, page_start_offset, false) {
            Ok(_) => Ok(Page::LeafIndex),
            Err(e) => Err(e),
        }
    } else if page_type == PAGE_TYPE_INTERIOR_TABLE || page_type == PAGE_TYPE_INTERIOR_INDEX {
        if w.len() < 12 {
            return Err(parsing_error("page too short"));
        }
        if page_type == PAGE_TYPE_INTERIOR_INDEX {
            match index_b_tree_page(w, page_start_offset, true) {
                Ok(_) => Ok(Page::InteriorIndex),
                Err(e) => Err(e),
            }
        } else {
            match interior_table_b_tree_page(w, page_start_offset) {
                Ok(p) => Ok(Page::InteriorTable(p)),
                Err(e) => Err(e),
            }
        }
    } else {
        Err(parsing_error("unknown page type"))
    }
}

/// Parses the page whose content window is `w`, with a record-shape cache of its own.
pub fn page_with_overflow<'a>(w: &'a [u8], db_header: &DbHeader, page_start_offset: usize) -> (r:
    Result<Page<'a>>)
    requires
        db_header.wf(),
    ensures
        match r {
            Ok(p) => spec_page(w@, page_start_offset as int, db_header.spec_usable_page_size() as int)
                == Some(page_view(p)),
            Err(e) => spec_page(w@, page_start_offset as int, db_header.spec_usable_page_size() as int)
                is None && e is ParsingError,
        },
{
    let mut cache = HeaderCache::new();
    parse_page(w, db_header, page_start_offset, &mut cache)
}

} // verus!
