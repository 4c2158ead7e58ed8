use sqlite3_dump::cursor::TableCursor;
use sqlite3_dump::error::SQLiteError;
use sqlite3_dump::model::{LeafTableCell, Payload, SerialType, TextEncoding};
use sqlite3_dump::{Reader, RowCounter, RowSink};

enum V<'a> {
    Null,
    Int(i64),
    Text(&'a [u8]),
    Blob(&'a [u8]),
}

fn varint(v: u64) -> Vec<u8> {
    if v > 0x00ff_ffff_ffff_ffff {
        let mut out = vec![0u8; 9];
        out[8] = v as u8;
        let mut x = v >> 8;
        for i in (0..8).rev() {
            out[i] = ((x & 0x7f) as u8) | 0x80;
            x >>= 7;
        }
        return out;
    }
    let mut groups = Vec::new();
    let mut x = v;
    loop {
        groups.push((x & 0x7f) as u8);
        x >>= 7;
        if x == 0 {
            break;
        }
    }
    groups.reverse();
    let n = groups.len();
    for g in groups.iter_mut().take(n - 1) {
        *g |= 0x80;
    }
    groups
}

fn record(vals: &[V]) -> Vec<u8> {
    let mut types = Vec::new();
    let mut body = Vec::new();
    for v in vals {
        match v {
            V::Null => types.extend(varint(0)),
            V::Int(i) => {
                if (-128..128).contains(i) {
                    types.extend(varint(1));
                    body.push(*i as i8 as u8);
                } else {
                    types.extend(varint(6));
                    body.extend_from_slice(&i.to_be_bytes());
                }
            }
            V::Text(b) => {
                types.extend(varint(13 + 2 * b.len() as u64));
                body.extend_from_slice(b);
            }
            V::Blob(b) => {
                types.extend(varint(12 + 2 * b.len() as u64));
                body.extend_from_slice(b);
            }
        }
    }
    let mut out = varint(types.len() as u64 + 1);
    out.extend(types);
    out.extend(body);
    out
}

fn leaf_cell(rowid: u64, payload: &[u8]) -> Vec<u8> {
    let mut c = varint(payload.len() as u64);
    c.extend(varint(rowid));
    c.extend_from_slice(payload);
    c
}

fn place_cells(page: &mut [u8], hdr: usize, base: usize, cells: &[Vec<u8>]) {
    let mut end = page.len();
    for (i, c) in cells.iter().enumerate() {
        end -= c.len();
        page[end..end + c.len()].copy_from_slice(c);
        let ptr = hdr + base + 2 * i;
        page[ptr..ptr + 2].copy_from_slice(&(end as u16).to_be_bytes());
    }
    page[hdr + 3..hdr + 5].copy_from_slice(&(cells.len() as u16).to_be_bytes());
    page[hdr + 5..hdr + 7].copy_from_slice(&(end as u16).to_be_bytes());
}

fn leaf_page(page_size: usize, first: bool, cells: &[Vec<u8>]) -> Vec<u8> {
    let mut page = vec![0u8; page_size];
    let hdr = if first { 100 } else { 0 };
    page[hdr] = 0x0d;
    place_cells(&mut page, hdr, 8, cells);
    page
}

fn interior_page(page_size: usize, first: bool, children: &[(u32, u64)], rightmost: u32) -> Vec<u8> {
    let mut page = vec![0u8; page_size];
    let hdr = if first { 100 } else { 0 };
    page[hdr] = 0x05;
    page[hdr + 8..hdr + 12].copy_from_slice(&rightmost.to_be_bytes());
    let cells: Vec<Vec<u8>> = children
        .iter()
        .map(|(child, key)| {
            let mut c = child.to_be_bytes().to_vec();
            c.extend(varint(*key));
            c
        })
        .collect();
    place_cells(&mut page, hdr, 12, &cells);
    page
}

fn header(page_size: u16, reserved: u8, encoding: u32) -> Vec<u8> {
    let mut h = vec![0u8; 100];
    h[..16].copy_from_slice(b"SQLite format 3\0");
    h[16..18].copy_from_slice(&page_size.to_be_bytes());
    h[20] = reserved;
    h[56..60].copy_from_slice(&encoding.to_be_bytes());
    h
}

fn first_page(page: Vec<u8>, page_size: u16, encoding: u32) -> Vec<u8> {
    let mut p = page;
    p[..100].copy_from_slice(&header(page_size, 0, encoding));
    p
}

fn master_row(name: &str, root: i64, sql: &str) -> Vec<u8> {
    record(&[
        V::Text(b"table"),
        V::Text(name.as_bytes()),
        V::Text(name.as_bytes()),
        V::Int(root),
        V::Text(sql.as_bytes()),
    ])
}

/// One table `t` at page 2 holding the given records under rowids 1, 2, ...
fn one_table_db(sql: &str, rows: &[Vec<u8>]) -> Vec<u8> {
    let ps = 1024usize;
    let master = leaf_page(ps, true, &[leaf_cell(1, &master_row("t", 2, sql))]);
    let mut db = first_page(master, ps as u16, 1);
    let cells: Vec<Vec<u8>> = rows
        .iter()
        .enumerate()
        .map(|(i, r)| leaf_cell(i as u64 + 1, r))
        .collect();
    db.extend(leaf_page(ps, false, &cells));
    db
}

fn show(p: &Option<Payload>) -> String {
    match p {
        None => "NULL".to_string(),
        Some(Payload::I64(v)) => format!("I64({v})"),
        Some(Payload::F64(b)) => format!("F64({})", f64::from_bits(*b)),
        Some(Payload::Text(t)) => format!("Text({})", String::from_utf8_lossy(t.as_bytes())),
        Some(Payload::Blob(b)) => format!("Blob({})", b.len()),
    }
}

#[derive(Default)]
struct Collect {
    rows: Vec<(u64, Vec<String>, Option<u32>)>,
}

impl RowSink for Collect {
    fn row<'c>(
        &mut self,
        cell: &LeafTableCell<'c>,
        column_values: &[Option<Payload<'c>>],
    ) -> sqlite3_dump::error::Result<()> {
        self.rows.push((
            cell.rowid,
            column_values.iter().map(show).collect(),
            cell.overflow_page_no,
        ));
        Ok(())
    }
}

fn csv_line(reader: &Reader, cell: &LeafTableCell, values: &[Option<Payload>]) -> String {
    let floats = vec![String::new(); sqlite3_dump::csv::values_to_output(values).len()];
    let mut out = Vec::new();
    reader.write_row_to_csv(cell, values, &floats, &mut out).unwrap();
    String::from_utf8(out).unwrap()
}

#[test]
fn empty_database_has_no_tables() {
    let db = first_page(leaf_page(512, true, &[]), 512, 1);
    let mut reader = Reader::from_source(&db).unwrap();
    assert!(reader.get_tables_map().unwrap().is_empty());
    let mut sink = Collect::default();
    match reader.stream_table_rows_sequential("anything", &mut sink) {
        Err(SQLiteError::TableNotFound(n)) => assert_eq!(n, "anything"),
        other => panic!("unexpected {:?}", other.err()),
    }
    assert!(sink.rows.is_empty());
}

#[test]
fn single_row_table_streams_once() {
    let db = one_table_db(
        "CREATE TABLE t(a INTEGER, b TEXT)",
        &[record(&[V::Int(42), V::Text(b"hi")])],
    );
    let mut reader = Reader::from_source(&db).unwrap();
    let tables = reader.get_tables_map().unwrap();
    assert_eq!(tables.len(), 1);
    let entry = tables.get("t").unwrap();
    assert_eq!(entry.schema.as_ref().unwrap().get_column_names(), vec!["a", "b"]);
    let mut sink = Collect::default();
    reader.stream_table_rows_sequential("t", &mut sink).unwrap();
    assert_eq!(
        sink.rows,
        vec![(1, vec!["I64(42)".to_string(), "Text(hi)".to_string()], None)]
    );
    let root = reader.find_table_root("t").unwrap();
    let mut cursor = TableCursor::new(&reader, root);
    let cell = cursor.next_row(&reader).unwrap().unwrap();
    let values = sqlite3_dump::get_table_cell_values(&cell);
    assert_eq!(csv_line(&reader, &cell, values), "1,42,hi\n");
    assert!(cursor.next_row(&reader).unwrap().is_none());
}

#[test]
fn integer_primary_key_column_is_dropped() {
    let db = one_table_db(
        "CREATE TABLE t(id INTEGER PRIMARY KEY, x INTEGER)",
        &[record(&[V::Null, V::Int(5)])],
    );
    let reader = Reader::from_source(&db).unwrap();
    let mut cursor = TableCursor::new(&reader, 2);
    let cell = cursor.next_row(&reader).unwrap().unwrap();
    let values = sqlite3_dump::get_table_cell_values(&cell);
    assert!(values[0].is_none());
    assert_eq!(csv_line(&reader, &cell, values), "1,5\n");
    let fields = sqlite3_dump::export::build_arrow_schema_from_row(
        &cell.payload.column_types,
        Some(&vec!["x".to_string()]),
    );
    assert_eq!(fields.len(), 1);
    assert_eq!(fields[0].name, "x");
    assert_eq!(fields[0].kind, sqlite3_dump::export::ColumnKind::Int64);
}

#[test]
fn bad_sql_keeps_table_without_columns() {
    let db = one_table_db("CREATE TABLE t(a INTEGER,", &[record(&[V::Int(7), V::Int(8)])]);
    let mut reader = Reader::from_source(&db).unwrap();
    let tables = reader.get_tables_map().unwrap();
    assert!(tables.contains_key("t"));
    assert!(tables.get("t").unwrap().schema.is_none());
    let mut sink = Collect::default();
    reader.stream_table_rows_sequential("t", &mut sink).unwrap();
    assert_eq!(sink.rows.len(), 1);
    let fields = sqlite3_dump::export::build_arrow_schema_from_row(
        &[SerialType::I8, SerialType::I8],
        None,
    );
    let names: Vec<String> = fields.into_iter().map(|f| f.name).collect();
    assert_eq!(names, vec!["col_0", "col_1"]);
}

#[test]
fn second_row_reuses_record_shape() {
    let db = one_table_db(
        "CREATE TABLE t(a, b, c)",
        &[
            record(&[V::Int(1), V::Text(b"x"), V::Int(2)]),
            record(&[V::Int(3), V::Text(b"y"), V::Int(4)]),
        ],
    );
    let reader = Reader::from_source(&db).unwrap();
    let mut cursor = TableCursor::new(&reader, 2);
    let a = cursor.next_row(&reader).unwrap().unwrap();
    let b = cursor.next_row(&reader).unwrap().unwrap();
    assert_eq!(cursor.cache.len(), 1);
    assert!(std::sync::Arc::ptr_eq(&a.payload.column_types, &b.payload.column_types));
    assert_eq!(a.payload.column_types.len(), 3);
    assert_eq!(a.column_values.as_ref().unwrap().len(), a.payload.column_types.len());
}

#[test]
fn nested_btree_is_walked_left_to_right() {
    let ps = 512usize;
    let master = leaf_page(ps, true, &[leaf_cell(1, &master_row("t", 2, "CREATE TABLE t(a)"))]);
    let mut db = first_page(master, ps as u16, 1);
    // page 2: root, children 3 then rightmost 4
    db.extend(interior_page(ps, false, &[(3, 4)], 4));
    // page 3: interior, children 5 then rightmost 6
    db.extend(interior_page(ps, false, &[(5, 2)], 6));
    // page 4: interior, children 7 then rightmost 8
    db.extend(interior_page(ps, false, &[(7, 6)], 8));
    for first in [1u64, 3, 5, 7] {
        let cells = vec![
            leaf_cell(first, &record(&[V::Int(first as i64)])),
            leaf_cell(first + 1, &record(&[V::Int(first as i64 + 1)])),
        ];
        db.extend(leaf_page(ps, false, &cells));
    }
    let reader = Reader::from_source(&db).unwrap();
    let mut sink = Collect::default();
    reader.stream_table_rows_sequential("t", &mut sink).unwrap();
    let rowids: Vec<u64> = sink.rows.iter().map(|r| r.0).collect();
    assert_eq!(rowids, vec![1, 2, 3, 4, 5, 6, 7, 8]);
}

#[test]
fn utf16le_text_is_decoded() {
    let ps = 1024usize;
    let le = |s: &str| -> Vec<u8> { s.encode_utf16().flat_map(|u| u.to_le_bytes()).collect() };
    let (t, name, sql, hello) = (le("table"), le("t"), le("CREATE TABLE t(s TEXT)"), le("héllo"));
    let row = record(&[V::Text(&t), V::Text(&name), V::Text(&name), V::Int(2), V::Text(&sql)]);
    let master = leaf_page(ps, true, &[leaf_cell(1, &row)]);
    let mut db = first_page(master, ps as u16, 2);
    db.extend(leaf_page(ps, false, &[leaf_cell(1, &record(&[V::Text(&hello)]))]));
    let mut reader = Reader::from_source(&db).unwrap();
    assert_eq!(reader.header.db_text_encoding, TextEncoding::Utf16Le);
    let tables = reader.get_tables_map().unwrap();
    assert_eq!(tables.get("t").unwrap().schema.as_ref().unwrap().get_column_names(), vec!["s"]);
    let mut cursor = TableCursor::new(&reader, 2);
    let cell = cursor.next_row(&reader).unwrap().unwrap();
    let values = sqlite3_dump::get_table_cell_values(&cell);
    match &values[0] {
        Some(Payload::Text(t)) => assert_eq!(t.decode(TextEncoding::Utf16Le).unwrap(), "héllo"),
        _ => panic!("expected text"),
    }
    assert_eq!(csv_line(&reader, &cell, values), "1,héllo\n");
}

#[test]
fn large_blob_spills_to_overflow_pages() {
    let ps = 4096usize;
    let blob: Vec<u8> = (0..10240u32).map(|i| (i % 251) as u8).collect();
    let payload = record(&[V::Blob(&blob)]);
    assert_eq!(payload.len(), 10244);
    let master = leaf_page(ps, true, &[leaf_cell(1, &master_row("t", 2, "CREATE TABLE t(b BLOB)"))]);
    let mut db = first_page(master, ps as u16, 1);
    let local = 2060;
    let mut cell = varint(payload.len() as u64);
    cell.extend(varint(1));
    cell.extend_from_slice(&payload[..local]);
    cell.extend_from_slice(&3u32.to_be_bytes());
    db.extend(leaf_page(ps, false, &[cell]));
    let mut p3 = 4u32.to_be_bytes().to_vec();
    p3.extend_from_slice(&payload[local..local + 4092]);
    db.extend(p3);
    let mut p4 = 0u32.to_be_bytes().to_vec();
    p4.extend_from_slice(&payload[local + 4092..]);
    db.extend(p4);
    let reader = Reader::from_source(&db).unwrap();
    let mut cursor = TableCursor::new(&reader, 2);
    let cell = cursor.next_row(&reader).unwrap().unwrap();
    assert_eq!(cell.payload_size, 10244);
    assert_eq!(cell.overflow_page_no, Some(3));
    assert_eq!(cell.local_payload.len(), local);
    let values = sqlite3_dump::get_table_cell_values(&cell);
    assert_eq!(values.len(), 1);
    assert!(values[0].is_none());
    let full = reader.reconstruct_full_payload(&cell).unwrap();
    assert_eq!(full, payload);
    assert_eq!(&full[4..], &blob[..]);
    let mut line = Vec::new();
    reader.write_row_to_csv(&cell, values, &[], &mut line).unwrap();
    assert_eq!(line, b"1\n");
    let mut sink = Collect::default();
    reader.stream_table_rows_sequential("t", &mut sink).unwrap();
    assert_eq!(sink.rows, vec![(1, vec!["NULL".to_string()], Some(3))]);
}

#[test]
fn overflow_chain_of_one_page_stops_at_zero() {
    let ps = 512usize;
    let master = leaf_page(ps, true, &[]);
    let mut db = first_page(master, ps as u16, 1);
    let mut p2 = 0u32.to_be_bytes().to_vec();
    p2.extend((0..508u32).map(|i| i as u8));
    db.extend(p2);
    let reader = Reader::from_source(&db).unwrap();
    assert_eq!(reader.read_overflow_chain(2, 10).unwrap(), (0..10u8).collect::<Vec<_>>());
    let all = reader.read_overflow_chain(2, 2000).unwrap();
    assert_eq!(all.len(), 508);
    assert!(matches!(reader.read_overflow_chain(3, 10), Err(SQLiteError::ParsingError(_))));
}

#[test]
fn header_errors() {
    let mut db = first_page(leaf_page(512, true, &[]), 512, 1);
    db[0] = b'X';
    assert!(matches!(Reader::from_source(&db), Err(SQLiteError::ParsingError(_))));
    let db = first_page(leaf_page(512, true, &[]), 512, 7);
    assert!(matches!(
        Reader::from_source(&db),
        Err(SQLiteError::UnknownTextEncodingError(7))
    ));
    assert!(matches!(Reader::from_source(&db[..50]), Err(SQLiteError::ParsingError(_))));
    let db = first_page(leaf_page(512, true, &[]), 500, 1);
    assert!(matches!(Reader::from_source(&db), Err(SQLiteError::ParsingError(_))));
}

#[test]
fn page_size_one_means_65536() {
    let h = header(1, 0, 1);
    let parsed = sqlite3_dump::parser::db_header(&h).unwrap();
    assert_eq!(parsed.page_size.real_size(), 65536);
    assert_eq!(parsed.usable_page_size(), 65536);
    assert_eq!(sqlite3_dump::model::PageSize(1).real_size(), 65536);
    assert_eq!(sqlite3_dump::model::PageSize(4096).real_size(), 4096);
}

#[test]
fn unknown_page_type_is_a_format_error() {
    let mut db = one_table_db("CREATE TABLE t(a)", &[record(&[V::Int(1)])]);
    db[1024] = 0x07;
    let reader = Reader::from_source(&db).unwrap();
    let mut sink = Collect::default();
    assert!(matches!(
        reader.stream_table_rows_sequential("t", &mut sink),
        Err(SQLiteError::ParsingError(_))
    ));
}

#[test]
fn reserved_serial_type_is_a_format_error() {
    let mut rec = record(&[V::Int(1)]);
    rec[1] = 10;
    let db = one_table_db("CREATE TABLE t(a)", &[rec]);
    let reader = Reader::from_source(&db).unwrap();
    let mut sink = Collect::default();
    assert!(matches!(
        reader.stream_table_rows_sequential("t", &mut sink),
        Err(SQLiteError::ParsingError(_))
    ));
}

struct Stop {
    calls: usize,
}

impl RowSink for Stop {
    fn row<'c>(
        &mut self,
        _cell: &LeafTableCell<'c>,
        _column_values: &[Option<Payload<'c>>],
    ) -> sqlite3_dump::error::Result<()> {
        self.calls += 1;
        if self.calls == 2 {
            Err(SQLiteError::TableNotFound("from the sink".to_string()))
        } else {
            Ok(())
        }
    }
}

#[test]
fn sink_failure_is_handed_back() {
    let rows: Vec<Vec<u8>> = (1..=3).map(|i| record(&[V::Int(i)])).collect();
    let db = one_table_db("CREATE TABLE t(a)", &rows);
    let reader = Reader::from_source(&db).unwrap();
    let mut stop = Stop { calls: 0 };
    match reader.stream_table_rows_sequential("t", &mut stop) {
        Err(SQLiteError::TableNotFound(m)) => assert_eq!(m, "from the sink"),
        other => panic!("unexpected {:?}", other.err()),
    }
    assert_eq!(stop.calls, 2);
}

#[test]
fn row_counter_counts_every_row() {
    let rows: Vec<Vec<u8>> = (1..=5).map(|i| record(&[V::Int(i), V::Null])).collect();
    let db = one_table_db("CREATE TABLE t(a, b)", &rows);
    let reader = Reader::from_source(&db).unwrap();
    let mut counter = RowCounter::new();
    reader.stream_table_rows_sequential("t", &mut counter).unwrap();
    assert_eq!(counter.count, 5);
    let empty = one_table_db("CREATE TABLE t(a)", &[]);
    let reader = Reader::from_source(&empty).unwrap();
    let mut counter = RowCounter::new();
    reader.stream_table_rows_sequential("t", &mut counter).unwrap();
    assert_eq!(counter.count, 0);
}

#[test]
fn empty_text_and_blob_are_values() {
    let db = one_table_db("CREATE TABLE t(a, b, c)", &[record(&[V::Text(b""), V::Blob(b""), V::Null])]);
    let reader = Reader::from_source(&db).unwrap();
    let mut sink = Collect::default();
    reader.stream_table_rows_sequential("t", &mut sink).unwrap();
    assert_eq!(sink.rows[0].1, vec!["Text()".to_string(), "Blob(0)".to_string(), "NULL".to_string()]);
    let mut cursor = TableCursor::new(&reader, 2);
    let cell = cursor.next_row(&reader).unwrap().unwrap();
    let values = sqlite3_dump::get_table_cell_values(&cell);
    assert_eq!(csv_line(&reader, &cell, values), "1,,,\n");
}

#[test]
fn floats_take_the_given_text() {
    let mut rec = vec![3u8, 7, 1];
    rec.extend_from_slice(&2.5f64.to_be_bytes());
    rec.push(4);
    let db = one_table_db("CREATE TABLE t(x REAL, y)", &[rec]);
    let reader = Reader::from_source(&db).unwrap();
    let mut cursor = TableCursor::new(&reader, 2);
    let cell = cursor.next_row(&reader).unwrap().unwrap();
    let values = sqlite3_dump::get_table_cell_values(&cell);
    let mut out = Vec::new();
    reader
        .write_row_to_csv(&cell, values, &["2.5".to_string(), String::new()], &mut out)
        .unwrap();
    assert_eq!(String::from_utf8(out).unwrap(), "1,2.5,4\n");
}

#[test]
fn page_cycle_is_a_fault() {
    let ps = 512usize;
    let master = leaf_page(ps, true, &[leaf_cell(1, &master_row("t", 2, "CREATE TABLE t(a)"))]);
    let mut db = first_page(master, ps as u16, 1);
    db.extend(interior_page(ps, false, &[(2, 1)], 2));
    let reader = Reader::from_source(&db).unwrap();
    let mut sink = Collect::default();
    assert!(reader.stream_table_rows_sequential("t", &mut sink).is_err());
}

#[test]
fn content_window_of_later_pages() {
    let db = one_table_db("CREATE TABLE t(a)", &[record(&[V::Int(1)])]);
    let reader = Reader::from_source(&db).unwrap();
    let (w, off) = reader.page_content(2).unwrap();
    assert_eq!(off, 0);
    assert_eq!(w, &db[1024..2048]);
    let (w1, off1) = reader.page_content(1).unwrap();
    assert_eq!(off1, 100);
    assert_eq!(w1, &db[100..1024]);
    assert!(reader.page_content(3).is_err());
    assert!(reader.page_content(0).is_err());
}
