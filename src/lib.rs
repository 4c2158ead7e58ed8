//! Read-only access to database files in the SQLite format: header, B-tree
//! pages, records, overflow chains, the schema table and a row cursor.

use vstd::prelude::*;

pub mod bytes;
pub mod csv;
pub mod cursor;
pub mod error;
pub mod export;
pub mod laws;
pub mod model;
pub mod parser;
pub mod record;
pub mod schema;
pub mod text;

use crate::bytes::{be_value, read_be_u32};
use crate::error::{parsing_error, Result, SQLiteError};
use crate::model::{DbHeader, LeafTableCell, Page, Payload};
use crate::parser::{db_header, page_view, page_with_overflow, spec_page, PageView};
use crate::cursor::{page_count, walk, TableCursor};
use crate::model::{values_view, TextEncoding, Value};
use crate::parser::CellView;
use crate::schema::{
    extract_tables_from_column_values, find_table_root_in_column_values, lemma_tables_from_concat,
    master_root, tables_from, TablesMap,
};

pub use crate::schema::SqlSchema;

verus! {

/// Bytes of the database header at the start of page 1.
pub const HEADER_SIZE: usize = 100;

/// Where the content window of page `p` starts within the page.
pub open spec fn page_start_offset(p: int) -> int {
    if p == 1 {
        HEADER_SIZE as int
    } else {
        0
    }
}

/// Start and end in the file of the content window of page `p`: its first
/// `usable` bytes, past the header on page 1.
pub open spec fn page_window(len: int, page_size: int, usable: int, p: int) -> Option<(int, int)> {
    if p < 1 || page_size * (p - 1) + usable > len {
        None
    } else {
        Some((page_size * (p - 1) + page_start_offset(p), page_size * (p - 1) + usable))
    }
}

/// Page `p` of `buf`, parsed, on a file whose header is `h`.
pub open spec fn spec_page_at(buf: Seq<u8>, h: DbHeader, p: int) -> Option<PageView> {
    match page_window(
        buf.len() as int,
        h.page_size.spec_real_size() as int,
        h.spec_usable_page_size() as int,
        p,
    ) {
        Some((s, e)) => spec_page(
            buf.subrange(s, e),
            page_start_offset(p),
            h.spec_usable_page_size() as int,
        ),
        None => None,
    }
}

/// Overflow page `p`: the next page number and the payload bytes it holds.
pub open spec fn overflow_page_at(buf: Seq<u8>, h: DbHeader, p: int) -> Option<(u32, Seq<u8>)> {
    let ps = h.page_size.spec_real_size() as int;
    let usable = h.spec_usable_page_size() as int;
    if p < 1 || ps * (p - 1) + usable > buf.len() {
        None
    } else {
        let base = ps * (p - 1);
        Some(
            (
                be_value(buf.subrange(base, base + 4)) as u32,
                buf.subrange(base + 4, base + usable),
            ),
        )
    }
}

/// The first `want` bytes of the overflow chain that starts at page `p`,
/// or fewer where the chain ends early with a next page of 0.
pub open spec fn overflow_chain(buf: Seq<u8>, h: DbHeader, p: int, want: nat) -> Option<Seq<u8>>
    decreases want,
{
    if want == 0 {
        Some(Seq::empty())
    } else {
        match overflow_page_at(buf, h, p) {
            None => None,
            Some((next, data)) => {
                let take: nat = if want < data.len() {
                    want
                } else {
                    data.len()
                };
                if next == 0 || take == want || take == 0 {
                    Some(data.subrange(0, take as int))
                } else {
                    match overflow_chain(buf, h, next as int, (want - take) as nat) {
                        Some(rest) => Some(data.subrange(0, take as int) + rest),
                        None => None,
                    }
                }
            },
        }
    }
}

/// The column values of each cell.
pub open spec fn cell_rows(cells: Seq<CellView>) -> Seq<Seq<Option<Value>>> {
    cells.map_values(|c: CellView| c.values)
}

/// The schema rows on the pages `pages`, in order, up to the first page that
/// fails to parse; pages other than table leaves give none.
pub open spec fn child_rows(buf: Seq<u8>, h: DbHeader, pages: Seq<u32>) -> Seq<Seq<Option<Value>>>
    decreases pages.len(),
{
    if pages.len() == 0 {
        Seq::empty()
    } else {
        match spec_page_at(buf, h, pages[0] as int) {
            None => Seq::empty(),
            Some(PageView::LeafTable { cells }) => cell_rows(cells) + child_rows(
                buf,
                h,
                pages.drop_first(),
            ),
            Some(_) => child_rows(buf, h, pages.drop_first()),
        }
    }
}

/// The children of an interior page in visiting order: the left children, then
/// the rightmost child when it is not 0.
pub open spec fn visit_order(children: Seq<u32>, rightmost: u32) -> Seq<u32> {
    if rightmost > 0 {
        children.push(rightmost)
    } else {
        children
    }
}

/// The tables that the schema table describes: the rows of page 1 when it is a
/// leaf, else those of its children, one level down only. None where page 1
/// does not parse.
pub open spec fn master_tables(buf: Seq<u8>, h: DbHeader) -> Option<
    Map<Seq<char>, Option<Seq<Seq<char>>>>,
> {
    match spec_page_at(buf, h, 1) {
        None => None,
        Some(PageView::LeafTable { cells }) => Some(
            tables_from(Map::empty(), cell_rows(cells), h.db_text_encoding),
        ),
        Some(PageView::InteriorTable { children, rightmost }) => Some(
            tables_from(
                Map::empty(),
                child_rows(buf, h, visit_order(children, rightmost)),
                h.db_text_encoding,
            ),
        ),
        Some(_) => Some(Map::empty()),
    }
}

/// The root page that the first schema row among `cells` naming table `name` gives.
pub open spec fn first_root(cells: Seq<CellView>, enc: TextEncoding, name: Seq<char>) -> Option<u32>
    decreases cells.len(),
{
    if cells.len() == 0 {
        None
    } else {
        match master_root(cells[0].values, enc, name) {
            Some(r) => Some(r),
            None => first_root(cells.drop_first(), enc, name),
        }
    }
}

/// The walk over the schema table, from page 1.
pub open spec fn master_walk(buf: Seq<u8>, h: DbHeader) -> (Seq<CellView>, bool) {
    walk(buf, h, seq![1u32], page_count(buf.len(), h))
}

/// The column values of a cell: none where they were not decoded.
pub fn get_table_cell_values<'b, 'c>(cell: &'b LeafTableCell<'c>) -> (r: &'b [Option<Payload<'c>>])
    ensures
        values_view(r@) == cell.view_cell().values,
{
    match &cell.column_values {
        Some(v) => v.as_slice(),
        None => {
            proof {
                assert(values_view(Seq::<Option<Payload<'c>>>::empty()) =~= Seq::<Option<Value>>::empty());
            }
            &[]
        },
    }
}

/// A consumer of the rows of a table.
pub trait RowSink {
    /// The rows taken so far, the last one included when it failed. A sink
    /// verified against `row` gives its own; the default is for sinks outside
    /// verification, whose `row` nothing checks.
    closed spec fn rows(&self) -> Seq<CellView> {
        Seq::empty()
    }

    /// The failure of the last row taken, if it failed.
    closed spec fn failure(&self) -> Option<SQLiteError> {
        None
    }

    /// Takes one row: its cell and its column values. A failure stops the walk
    /// and is handed back unchanged.
    fn row<'c>(&mut self, cell: &LeafTableCell<'c>, column_values: &[Option<Payload<'c>>]) -> (r:
        Result<()>)
        requires
            values_view(column_values@) == cell.view_cell().values,
        ensures
            final(self).rows() == old(self).rows().push(cell.view_cell()),
            r matches Err(e) ==> final(self).failure() == Some(e),
    ;
}

/// A sink that counts the rows it takes.
pub struct RowCounter {
    pub count: usize,
    pub seen: Ghost<Seq<CellView>>,
    pub failed: Ghost<Option<SQLiteError>>,
}

impl RowCounter {
    pub fn new() -> (r: RowCounter)
        ensures
            r.count == 0,
            r.rows() == Seq::<CellView>::empty(),
    {
        RowCounter { count: 0, seen: Ghost(Seq::empty()), failed: Ghost(None) }
    }
}

impl RowSink for RowCounter {
    open spec fn rows(&self) -> Seq<CellView> {
        self.seen@
    }

    open spec fn failure(&self) -> Option<SQLiteError> {
        self.failed@
    }

    /// Counts the row; fails only when the count would pass `usize::MAX`.
    fn row<'c>(&mut self, cell: &LeafTableCell<'c>, column_values: &[Option<Payload<'c>>]) -> (r:
        Result<()>)
    {
        self.seen = Ghost(self.seen@.push(cell.view_cell()));
        if self.count == usize::MAX {
            let e = SQLiteError::Other("too many rows".to_owned());
            self.failed = Ghost(Some(e));
            return Err(e);
        }
        self.count = self.count + 1;
        Ok(())
    }
}

/// The rows `now` of a sink that held `before` are those plus the first of `cells`.
pub open spec fn took_prefix(before: Seq<CellView>, now: Seq<CellView>, cells: Seq<CellView>) -> bool {
    &&& before.len() <= now.len() <= before.len() + cells.len()
    &&& now == before + cells.take(now.len() - before.len())
}

proof fn lemma_push_moves(d: Seq<CellView>, c: CellView, rest: Seq<CellView>)
    ensures
        d + (seq![c] + rest) == d.push(c) + rest,
{
    assert(d + (seq![c] + rest) =~= d.push(c) + rest);
}

proof fn lemma_took(before: Seq<CellView>, d: Seq<CellView>, rest: Seq<CellView>)
    ensures
        took_prefix(before, before + d, d + rest),
{
    assert((d + rest).take(d.len() as int) =~= d);
}

/// The whole payload of a cell: its local bytes and the overflow chain up to
/// the payload size; none when the cell does not spill or the chain does not read.
pub open spec fn full_payload<'c>(buf: Seq<u8>, h: DbHeader, cell: &LeafTableCell<'c>) -> Option<Seq<u8>> {
    match cell.overflow_page_no {
        Some(first) => if cell.local_payload@.len() <= cell.payload_size {
            match overflow_chain(
                buf,
                h,
                first as int,
                (cell.payload_size - cell.local_payload@.len()) as nat,
            ) {
                Some(tail) => Some(cell.local_payload@ + tail),
                None => None,
            }
        } else {
            None
        },
        None => None,
    }
}

/// A database file, read from a byte image of the whole file.
pub struct Reader<'a> {
    pub buf: &'a [u8],
    pub header: DbHeader,
    /// The table map, once it has been read.
    pub tables: Option<TablesMap>,
}

impl<'a> Reader<'a> {
    /// The bytes of the file.
    pub open spec fn source(&self) -> Seq<u8> {
        self.buf@
    }

    /// The header is valid and any table map held is the one the file describes.
    pub open spec fn wf(&self) -> bool {
        &&& self.header.wf()
        &&& self.tables matches Some(t) ==> t.wf() && master_tables(self.source(), self.header)
            == Some(t.view())
    }

    /// Opens the byte image `buf` of a database file, reading its header.
    pub fn from_source(buf: &'a [u8]) -> (r: Result<Reader<'a>>)
        ensures
            match r {
                Ok(reader) => {
                    &&& reader.wf()
                    &&& reader.source() == buf@
                    &&& parser::header_frame_ok(buf@)
                    &&& reader.header.page_size.0 == be_value(buf@.subrange(16, 18))
                    &&& reader.header.reserved_size == buf@[20]
                    &&& model::encoding_of_code(parser::header_encoding_code(buf@) as u32) == Some(
                        reader.header.db_text_encoding,
                    )
                },
                Err(SQLiteError::UnknownTextEncodingError(c)) => {
                    &&& parser::header_frame_ok(buf@)
                    &&& c == parser::header_encoding_code(buf@)
                    &&& model::encoding_of_code(c) is None
                },
                Err(e) => !parser::header_frame_ok(buf@) && e is ParsingError,
            },
    {
        let header = match db_header(buf) {
            Ok(h) => h,
            Err(e) => return Err(e),
        };
        Ok(Reader { buf, header, tables: None })
    }

    /// The content window of page `pageno` and where it starts within its page.
    pub fn page_content(&self, pageno: u32) -> (r: Result<(&'a [u8], usize)>)
        requires
            self.wf(),
        ensures
            match r {
                Ok((w, off)) => {
                    &&& page_window(
                        self.source().len() as int,
                        self.header.page_size.spec_real_size() as int,
                        self.header.spec_usable_page_size() as int,
                        pageno as int,
                    ) matches Some((s, e))
                    &&& w@ == self.source().subrange(s, e)
                    &&& off == page_start_offset(pageno as int)
                },
                Err(e) => page_window(
                    self.source().len() as int,
                    self.header.page_size.spec_real_size() as int,
                    self.header.spec_usable_page_size() as int,
                    pageno as int,
                ) is None && e is ParsingError,
            },
    {
        let page_size = self.header.page_size.real_size() as u64;
        let usable = self.header.usable_page_size() as u64;
        if pageno == 0 {
            return Err(parsing_error("page number 0"));
        }
        let base: u64 = page_size * (pageno as u64 - 1);
        if base + usable > self.buf.len() as u64 {
            return Err(parsing_error("page past the end of the file"));
        }
        let off: usize = if pageno == 1 {
            HEADER_SIZE
        } else {
            0
        };
        let start = base as usize + off;
        let end = (base + usable) as usize;
        Ok((vstd::slice::slice_subrange(self.buf, start, end), off))
    }

    /// Parses page `pageno`, with a record-shape cache of its own.
    pub fn get_page(&self, pageno: u32) -> (r: Result<Page<'a>>)
        requires
            self.wf(),
        ensures
            match r {
                Ok(p) => spec_page_at(self.source(), self.header, pageno as int) == Some(page_view(p)),
                Err(e) => spec_page_at(self.source(), self.header, pageno as int) is None
                    && e is ParsingError,
            },
    {
        let (w, off) = match self.page_content(pageno) {
            Ok(x) => x,
            Err(e) => return Err(e),
        };
        page_with_overflow(w, &self.header, off)
    }

    /// Overflow page `pageno`: its next page, or none where it is 0, and its payload bytes.
    pub fn get_overflow_page(&self, pageno: u32) -> (r: Result<(Option<u32>, &'a [u8])>)
        requires
            self.wf(),
        ensures
            match r {
                Ok((next, data)) => overflow_page_at(self.source(), self.header, pageno as int)
                    matches Some((n, d)) && d == data@ && next == (if n == 0 {
                    None
                } else {
                    Some(n)
                }),
                Err(e) => overflow_page_at(self.source(), self.header, pageno as int) is None
                    && e is ParsingError,
            },
    {
        let page_size = self.header.page_size.real_size() as u64;
        let usable = self.header.usable_page_size() as u64;
        if pageno == 0 {
            return Err(parsing_error("page number 0"));
        }
        let base: u64 = page_size * (pageno as u64 - 1);
        if base + usable > self.buf.len() as u64 {
            return Err(parsing_error("page past the end of the file"));
        }
        let base = base as usize;
        let next = match read_be_u32(self.buf, base) {
            Some(n) => n,
            None => return Err(parsing_error("page past the end of the file")),
        };
        let data = vstd::slice::slice_subrange(self.buf, base + 4, base + usable as usize);
        let next_page_no = if next == 0 {
            None
        } else {
            Some(next)
        };
        Ok((next_page_no, data))
    }

    /// Adds to `tables` the tables that the schema rows `cells` describe.
    fn extract_tables_from_leaf<'c>(&self, cells: &Vec<LeafTableCell<'c>>, tables: &mut TablesMap)
        requires
            old(tables).wf(),
        ensures
            final(tables).wf(),
            final(tables).view() == tables_from(
                old(tables).view(),
                cell_rows(cells@.map_values(|c: LeafTableCell<'c>| c.view_cell())),
                self.header.db_text_encoding,
            ),
    {
        let ghost rows = cell_rows(cells@.map_values(|c: LeafTableCell<'c>| c.view_cell()));
        let ghost enc = self.header.db_text_encoding;
        let ghost target = tables_from(tables.view(), rows, enc);
        proof {
            assert(rows.subrange(0, rows.len() as int) =~= rows);
        }
        let mut i: usize = 0;
        while i < cells.len()
            invariant
                i <= cells@.len(),
                rows == cell_rows(cells@.map_values(|c: LeafTableCell<'c>| c.view_cell())),
                enc == self.header.db_text_encoding,
                tables.wf(),
                target == tables_from(tables.view(), rows.subrange(i as int, rows.len() as int), enc),
            decreases cells@.len() - i,
        {
            let column_values = get_table_cell_values(&cells[i]);
            proof {
                assert(rows.subrange(i as int, rows.len() as int).drop_first() =~= rows.subrange(
                    i + 1,
                    rows.len() as int,
                ));
            }
            extract_tables_from_column_values(column_values, self.header.db_text_encoding, tables);
            i += 1;
        }
        proof {
            assert(rows.subrange(i as int, rows.len() as int) =~= Seq::<Seq<Option<Value>>>::empty());
        }
    }

    /// Reads the tables of the schema table, descending one level from page 1.
    fn load_tables(&self) -> (r: Result<TablesMap>)
        requires
            self.wf(),
        ensures
            match r {
                Ok(t) => t.wf() && master_tables(self.source(), self.header) == Some(t.view()),
                Err(e) => master_tables(self.source(), self.header) is None,
            },
    {
        let root = match self.get_page(1) {
            Ok(p) => p,
            Err(e) => return Err(e),
        };
        let mut tables = TablesMap::new();
        match root {
            Page::LeafTable(p) => {
                self.extract_tables_from_leaf(&p.cells, &mut tables);
            },
            Page::InteriorTable(p) => {
                let mut pages: Vec<u32> = Vec::new();
                let mut j: usize = 0;
                while j < p.cells.len()
                    invariant
                        j <= p.cells@.len(),
                        pages@ =~= p.cells@.map_values(|c: crate::model::InteriorCell| c.left_child_page_no).subrange(0, j as int),
                    decreases p.cells@.len() - j,
                {
                    pages.push(p.cells[j].left_child_page_no);
                    j += 1;
                }
                if p.header.rightmost_pointer > 0 {
                    pages.push(p.header.rightmost_pointer);
                }
                let ghost all = pages@;
                let ghost enc = self.header.db_text_encoding;
                let ghost target = tables_from(Map::empty(), child_rows(self.source(), self.header, all), enc);
                proof {
                    assert(all =~= visit_order(
                        p.cells@.map_values(|c: crate::model::InteriorCell| c.left_child_page_no),
                        p.header.rightmost_pointer,
                    ));
                    assert(all.subrange(0, all.len() as int) =~= all);
                }
                let mut i: usize = 0;
                while i < pages.len()
                    invariant
                        self.wf(),
                        pages@ == all,
                        master_tables(self.source(), self.header) == Some(target),
                        i <= all.len(),
                        enc == self.header.db_text_encoding,
                        tables.wf(),
                        target == tables_from(
                            tables.view(),
                            child_rows(self.source(), self.header, all.subrange(i as int, all.len() as int)),
                            enc,
                        ),
                    decreases all.len() - i,
                {
                    let ghost tail = all.subrange(i as int, all.len() as int);
                    proof {
                        assert(tail.drop_first() =~= all.subrange(i + 1, all.len() as int));
                        assert(tail[0] == pages@[i as int]);
                    }
                    match self.get_page(pages[i]) {
                        Ok(Page::LeafTable(leaf)) => {
                            let ghost before = tables.view();
                            self.extract_tables_from_leaf(&leaf.cells, &mut tables);
                            proof {
                                lemma_tables_from_concat(
                                    before,
                                    cell_rows(leaf.cells@.map_values(|c: LeafTableCell<'a>| c.view_cell())),
                                    child_rows(self.source(), self.header, tail.drop_first()),
                                    enc,
                                );
                            }
                        },
                        Ok(_) => {},
                        Err(_) => {
                            proof {
                                assert(child_rows(self.source(), self.header, tail) =~= Seq::<Seq<Option<Value>>>::empty());
                            }
                            return Ok(tables);
                        },
                    }
                    i += 1;
                }
                proof {
                    assert(all.subrange(i as int, all.len() as int) =~= Seq::<u32>::empty());
                }
            },
            _ => {},
        }
        Ok(tables)
    }

    /// The tables of the file with their declared columns, read from the
    /// schema table on first use and kept.
    pub fn get_tables_map(&mut self) -> (r: Result<&TablesMap>)
        requires
            old(self).wf(),
        ensures
            final(self).wf(),
            final(self).buf == old(self).buf,
            final(self).header == old(self).header,
            match r {
                Ok(t) => t.wf() && master_tables(old(self).source(), old(self).header) == Some(t.view()),
                Err(e) => master_tables(old(self).source(), old(self).header) is None,
            },
    {
        if self.tables.is_none() {
            let t = match self.load_tables() {
                Ok(t) => t,
                Err(e) => return Err(e),
            };
            self.tables = Some(t);
        }
        match &self.tables {
            Some(t) => Ok(t),
            None => Err(parsing_error("tables not loaded")),
        }
    }

    /// The root page of the table named `table_name`, found by walking the
    /// schema table depth first.
    pub fn find_table_root(&self, table_name: &str) -> (r: Result<u32>)
        requires
            self.wf(),
        ensures
            match r {
                Ok(root) => first_root(
                    master_walk(self.source(), self.header).0,
                    self.header.db_text_encoding,
                    table_name@,
                ) == Some(root),
                Err(SQLiteError::TableNotFound(n)) => n@ == table_name@ && first_root(
                    master_walk(self.source(), self.header).0,
                    self.header.db_text_encoding,
                    table_name@,
                ) is None && master_walk(self.source(), self.header).1,
                Err(e) => first_root(
                    master_walk(self.source(), self.header).0,
                    self.header.db_text_encoding,
                    table_name@,
                ) is None && !master_walk(self.source(), self.header).1 && (e is ParsingError
                    || e is Other),
            },
    {
        let mut cursor = TableCursor::new(self, 1);
        let ghost all = master_walk(self.source(), self.header);
        let ghost enc = self.header.db_text_encoding;
        loop
            invariant
                self.wf(),
                cursor.cache.wf(),
                enc == self.header.db_text_encoding,
                all == master_walk(self.source(), self.header),
                first_root(all.0, enc, table_name@) == first_root(
                    cursor.remaining(self.source(), self.header).0,
                    enc,
                    table_name@,
                ),
                all.1 == cursor.remaining(self.source(), self.header).1,
            decreases cursor.fuel, cursor.leaf@.len(),
        {
            let ghost rem = cursor.remaining(self.source(), self.header);
            match cursor.next_row(self) {
                Ok(Some(cell)) => {
                    proof {
                        let rest = cursor.remaining(self.source(), self.header).0;
                        assert((seq![cell.view_cell()] + rest).drop_first() =~= rest);
                    }
                    let values = get_table_cell_values(&cell);
                    match find_table_root_in_column_values(values, self.header.db_text_encoding, table_name) {
                        Some(root) => return Ok(root),
                        None => {},
                    }
                },
                Ok(None) => return Err(SQLiteError::TableNotFound(table_name.to_owned())),
                Err(e) => return Err(e),
            }
        }
    }

    /// Hands every row of the table named `table_name` to `sink`, walking its
    /// B-tree depth first, left to right, with one record-shape cache for the
    /// whole walk. A failure of `sink` ends the walk and is handed back unchanged.
    #[verifier::rlimit(100)]
    pub fn stream_table_rows_sequential<S: RowSink>(&self, table_name: &str, sink: &mut S) -> (r:
        Result<()>)
        requires
            self.wf(),
        ensures
            ({
                let mw = master_walk(self.source(), self.header);
                match first_root(mw.0, self.header.db_text_encoding, table_name@) {
                    None => {
                        &&& final(sink).rows() == old(sink).rows()
                        &&& if mw.1 {
                            r matches Err(SQLiteError::TableNotFound(n)) && n@ == table_name@
                        } else {
                            r matches Err(e) && (e is ParsingError || e is Other)
                        }
                    },
                    Some(root) => {
                        let w = walk(
                            self.source(),
                            self.header,
                            seq![root],
                            page_count(self.source().len(), self.header),
                        );
                        let taken = final(sink).rows().len() - old(sink).rows().len();
                        &&& took_prefix(old(sink).rows(), final(sink).rows(), w.0)
                        &&& match r {
                            Ok(_) => w.1 && taken == w.0.len(),
                            Err(e) => (w.1 == false && taken == w.0.len() && (e is ParsingError
                                || e is Other)) || (taken >= 1 && final(sink).failure() == Some(e)),
                        }
                    },
                }
            }),
    {
        let root = match self.find_table_root(table_name) {
            Ok(root) => root,
            Err(e) => return Err(e),
        };
        let ghost before = sink.rows();
        let ghost w = walk(self.source(), self.header, seq![root], page_count(self.source().len(), self.header));
        let ghost mut delivered: Seq<CellView> = Seq::empty();
        let mut cursor = TableCursor::new(self, root);
        proof {
            assert(sink.rows() =~= before + delivered);
            assert(w.0 =~= delivered + cursor.remaining(self.source(), self.header).0);
        }
        loop
            invariant
                self.wf(),
                cursor.cache.wf(),
                first_root(
                    master_walk(self.source(), self.header).0,
                    self.header.db_text_encoding,
                    table_name@,
                ) == Some(root),
                w == walk(self.source(), self.header, seq![root], page_count(self.source().len(), self.header)),
                w.1 == cursor.remaining(self.source(), self.header).1,
                before == old(sink).rows(),
                sink.rows() == before + delivered,
                w.0 == delivered + cursor.remaining(self.source(), self.header).0,
            decreases cursor.fuel, cursor.leaf@.len(),
        {
            let ghost rem = cursor.remaining(self.source(), self.header).0;
            match cursor.next_row(self) {
                Ok(Some(cell)) => {
                    let values = get_table_cell_values(&cell);
                    let res = sink.row(&cell, values);
                    proof {
                        let rest = cursor.remaining(self.source(), self.header).0;
                        lemma_push_moves(delivered, cell.view_cell(), rest);
                        assert(sink.rows() =~= before + delivered.push(cell.view_cell()));
                        delivered = delivered.push(cell.view_cell());
                        lemma_took(before, delivered, rest);
                    }
                    match res {
                        Ok(_) => {},
                        Err(e) => return Err(e),
                    }
                },
                Ok(None) => {
                    proof {
                        lemma_took(before, delivered, Seq::empty());
                        assert(delivered + Seq::<CellView>::empty() =~= delivered);
                    }
                    return Ok(());
                },
                Err(e) => {
                    proof {
                        lemma_took(before, delivered, Seq::empty());
                        assert(delivered + Seq::<CellView>::empty() =~= delivered);
                    }
                    return Err(e);
                },
            }
        }
    }

    /// Appends the CSV line of row `row` with values `column_values` to
    /// `output`: a leading absent value is skipped, the float at written
    /// position `i` is `float_texts[i]`, and a spilled cell whose last written
    /// value is absent has its whole payload, in hex, in that field.
    pub fn write_row_to_csv<'c>(
        &self,
        row: &LeafTableCell<'c>,
        column_values: &[Option<Payload<'c>>],
        float_texts: &[String],
        output: &mut Vec<u8>,
    ) -> (r: Result<()>)
        requires
            self.wf(),
            float_texts@.len() == csv::output_values(column_values@).len(),
        ensures
            ({
                let vs = csv::output_values(column_values@);
                let ovf = if row.overflow_page_no is Some && vs.len() > 0 && vs.last() is None {
                    full_payload(self.source(), self.header, row)
                } else {
                    None
                };
                match csv::csv_line(
                    row.rowid as int,
                    values_view(vs),
                    self.header.db_text_encoding,
                    ovf,
                    csv::texts(float_texts@),
                ) {
                    Some(l) => r is Ok && final(output)@ == old(output)@ + l,
                    None => r is Err && final(output)@ == old(output)@,
                }
            }),
    {
        let values = csv::values_to_output(column_values);
        let n = values.len();
        let overflow_data = if row.overflow_page_no.is_some() && n > 0 && values[n - 1].is_none() {
            match self.reconstruct_full_payload(row) {
                Ok(v) => Some(v),
                Err(_) => None,
            }
        } else {
            None
        };
        csv::write_csv_line(row.rowid, values, self.header.db_text_encoding, &overflow_data, float_texts, output)
    }

    /// The whole payload of `cell`: its local bytes, then the bytes of its
    /// overflow chain up to the payload size. Only for a cell that spills.
    pub fn reconstruct_full_payload(&self, cell: &LeafTableCell<'_>) -> (r: Result<Vec<u8>>)
        requires
            self.wf(),
        ensures
            match r {
                Ok(v) => full_payload(self.source(), self.header, cell) == Some(v@),
                Err(e) => full_payload(self.source(), self.header, cell) is None,
            },
    {
        let first = match cell.overflow_page_no {
            Some(n) => n,
            None => return Err(SQLiteError::Other("cell has no overflow".to_owned())),
        };
        if cell.local_payload.len() as u64 > cell.payload_size {
            return Err(parsing_error("local payload longer than the payload"));
        }
        let tail = match self.read_overflow_chain(first, cell.payload_size - cell.local_payload.len() as u64) {
            Ok(t) => t,
            Err(e) => return Err(e),
        };
        let mut full: Vec<u8> = vstd::slice::slice_to_vec(cell.local_payload);
        let ghost local = full@;
        let mut i: usize = 0;
        while i < tail.len()
            invariant
                i <= tail@.len(),
                full@ == local + tail@.subrange(0, i as int),
            decreases tail@.len() - i,
        {
            full.push(tail[i]);
            proof {
                assert(tail@.subrange(0, i + 1) =~= tail@.subrange(0, i as int).push(tail@[i as int]));
            }
            i += 1;
        }
        proof {
            assert(tail@.subrange(0, i as int) =~= tail@);
        }
        Ok(full)
    }

    /// Reads up to `total_size` bytes along the overflow chain from `first_page`,
    /// stopping early where a page's next page number is 0.
    pub fn read_overflow_chain(&self, first_page: u32, total_size: u64) -> (r: Result<Vec<u8>>)
        requires
            self.wf(),
        ensures
            match r {
                Ok(v) => overflow_chain(self.source(), self.header, first_page as int, total_size as nat)
                    == Some(v@),
                Err(e) => overflow_chain(
                    self.source(),
                    self.header,
                    first_page as int,
                    total_size as nat,
                ) is None && e is ParsingError,
            },
    {
        let mut buffer: Vec<u8> = Vec::new();
        let mut next_page: u32 = first_page;
        let mut remaining: u64 = total_size;
        let ghost src = self.source();
        let ghost h = self.header;
        while remaining > 0
            invariant
                self.wf(),
                src == self.source(),
                h == self.header,
                overflow_chain(src, h, first_page as int, total_size as nat) == match overflow_chain(
                    src,
                    h,
                    next_page as int,
                    remaining as nat,
                ) {
                    Some(rest) => Some(buffer@ + rest),
                    None => None,
                },
            decreases remaining,
        {
            let (next_page_no, payload) = match self.get_overflow_page(next_page) {
                Ok(x) => x,
                Err(e) => return Err(e),
            };
            let take: usize = if remaining < payload.len() as u64 {
                remaining as usize
            } else {
                payload.len()
            };
            let ghost before = buffer@;
            let mut i: usize = 0;
            while i < take
                invariant
                    take <= payload@.len(),
                    i <= take,
                    buffer@ == before + payload@.subrange(0, i as int),
                decreases take - i,
            {
                buffer.push(payload[i]);
                proof {
                    assert(payload@.subrange(0, i + 1) =~= payload@.subrange(0, i as int).push(
                        payload@[i as int],
                    ));
                }
                i += 1;
            }
            match next_page_no {
                Some(n) if (take as u64) < remaining && take > 0 => {
                    proof {
                        assert(buffer@ + overflow_chain(src, h, n as int, (remaining - take) as nat).unwrap_or(Seq::empty())
                            =~= before + (payload@.subrange(0, take as int) + overflow_chain(src, h, n as int, (remaining - take) as nat).unwrap_or(Seq::empty())));
                    }
                    next_page = n;
                    remaining = remaining - take as u64;
                },
                _ => {
                    return Ok(buffer);
                },
            }
        }
        proof {
            assert(buffer@ + Seq::<u8>::empty() =~= buffer@);
        }
        Ok(buffer)
    }
}

} // verus!
