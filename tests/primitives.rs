use sqlite3_dump::bytes::{be_i48, be_u64_varint, read_be_int, read_be_u16, read_be_u32};
use sqlite3_dump::csv::{format_i64, write_csv_text, write_hex, write_value_to_csv};
use sqlite3_dump::export::{
    get_db_name, process_row_values, serial_type_to_arrow, CellAction, ColumnKind,
};
use sqlite3_dump::model::{
    DbHeader, LeafPageHeader, PageSize, Payload, RawText, SerialType, TextEncoding,
};
use sqlite3_dump::record::{parse_single_column, table_cell_payload_cached, HeaderCache};
use sqlite3_dump::schema::SqlSchema;

fn header_of(page_size: u16, reserved: u8) -> DbHeader {
    DbHeader {
        page_size: PageSize(page_size),
        reserved_size: reserved,
        db_text_encoding: TextEncoding::Utf8,
    }
}

#[test]
fn varint_one_to_nine_bytes() {
    assert_eq!(be_u64_varint(&[0x00], 0), Some((0, 1)));
    assert_eq!(be_u64_varint(&[0x7f], 0), Some((127, 1)));
    assert_eq!(be_u64_varint(&[0x81, 0x00], 0), Some((128, 2)));
    assert_eq!(be_u64_varint(&[0x00, 0x82, 0x2c], 1), Some((300, 3)));
    assert_eq!(be_u64_varint(&[0xff; 9], 0), Some((u64::MAX, 9)));
    assert_eq!(be_u64_varint(&[0x81, 0x80], 0), None);
    assert_eq!(be_u64_varint(&[], 0), None);
}

#[test]
fn big_endian_integers() {
    assert_eq!(read_be_u16(&[0x12, 0x34], 0), Some(0x1234));
    assert_eq!(read_be_u32(&[0, 0, 1, 0], 0), Some(256));
    assert_eq!(read_be_u32(&[0, 0, 1], 0), None);
    assert_eq!(read_be_int(&[0xff], 0, 1), Some(-1));
    assert_eq!(read_be_int(&[0x80, 0x00], 0, 2), Some(-32768));
    assert_eq!(read_be_int(&[0x7f, 0xff, 0xff], 0, 3), Some(8_388_607));
    assert_eq!(read_be_int(&[0xff; 8], 0, 8), Some(-1));
}

#[test]
fn i48_sign_extension() {
    assert_eq!(be_i48(&[0xff; 6], 0), Some(-1));
    assert_eq!(be_i48(&[0x80, 0, 0, 0, 0, 0], 0), Some(-(1i64 << 47)));
    assert_eq!(be_i48(&[0x7f, 0xff, 0xff, 0xff, 0xff, 0xff], 0), Some((1i64 << 47) - 1));
    let x: i64 = -123_456_789_012;
    let bytes = &x.to_be_bytes()[2..];
    assert_eq!(be_i48(bytes, 0), Some(x));
    assert_eq!(be_i48(&[0; 5], 0), None);
}

#[test]
fn local_size_at_the_boundary() {
    let h = header_of(4096, 0);
    let ph = LeafPageHeader { no_cells: 0 };
    let max_local = 4096 - 35;
    assert_eq!(ph.local_and_overflow_size(&h, max_local as u64), (max_local, None));
    let (local, overflow) = ph.local_and_overflow_size(&h, max_local as u64 + 1);
    assert!(overflow.unwrap() >= 1);
    assert_eq!(local as u64 + overflow.unwrap(), max_local as u64 + 1);
    assert_eq!(ph.local_and_overflow_size(&h, 10243), (2059, Some(8184)));
    assert_eq!(ph.local_and_overflow_size(&h, 100), (100, None));
}

#[test]
fn usable_page_size_subtracts_reserved() {
    assert_eq!(header_of(1024, 24).usable_page_size(), 1000);
    assert_eq!(header_of(1, 0).usable_page_size(), 65536);
}

#[test]
fn serial_type_codes_and_sizes() {
    assert_eq!(SerialType::from_code(0), SerialType::Null);
    assert_eq!(SerialType::from_code(5), SerialType::I48);
    assert_eq!(SerialType::from_code(11), SerialType::Reserved);
    assert_eq!(SerialType::from_code(12), SerialType::Blob(12));
    assert_eq!(SerialType::from_code(13), SerialType::Text(13));
    assert_eq!(SerialType::from_code(5).size(), 6);
    assert_eq!(SerialType::from_code(7).size(), 8);
    assert_eq!(SerialType::from_code(9).size(), 0);
    assert_eq!(SerialType::Blob(20).size(), 4);
    assert_eq!(SerialType::Text(23).size(), 5);
    assert_eq!(SerialType::Text(65535).size(), 32761);
}

#[test]
fn column_values_decode() {
    assert_eq!(parse_single_column(&SerialType::I8, &[0xfe]).unwrap(), Some(Payload::I64(-2)));
    assert_eq!(parse_single_column(&SerialType::Const1, &[]).unwrap(), Some(Payload::I64(1)));
    assert_eq!(
        parse_single_column(&SerialType::F64, &1.5f64.to_be_bytes()).unwrap(),
        Some(Payload::F64(1.5f64.to_bits()))
    );
    assert_eq!(
        parse_single_column(&SerialType::Text(13), &[]).unwrap(),
        Some(Payload::Text(RawText::new(&[])))
    );
    assert_eq!(parse_single_column(&SerialType::Blob(12), &[]).unwrap(), Some(Payload::Blob(&[])));
    assert_eq!(
        parse_single_column(&SerialType::Blob(16), &[1, 2]).unwrap(),
        Some(Payload::Blob(&[1, 2]))
    );
    assert_eq!(parse_single_column(&SerialType::Null, &[]).unwrap(), None);
    assert!(matches!(
        parse_single_column(&SerialType::Reserved, &[]),
        Err(sqlite3_dump::error::SQLiteError::ParsingError(_))
    ));
}

#[test]
fn record_columns_past_local_bytes_are_absent() {
    // header: size 4, I8, blob of 10 bytes, I8; body holds only the first column
    let rec = [4u8, 1, 32, 1, 9];
    let mut cache = HeaderCache::new();
    let (payload, values) = table_cell_payload_cached(&rec, &mut cache).unwrap();
    assert_eq!(payload.column_types.len(), 3);
    assert_eq!(values, vec![Some(Payload::I64(9)), None, None]);
    assert_eq!(cache.len(), 1);
    let (_, again) = table_cell_payload_cached(&[4u8, 1, 32, 1, 3], &mut cache).unwrap();
    assert_eq!(again[0], Some(Payload::I64(3)));
    assert_eq!(cache.len(), 1);
    assert!(table_cell_payload_cached(&[9u8, 1], &mut cache).is_err());
    let (empty, none) = table_cell_payload_cached(&[1u8], &mut cache).unwrap();
    assert!(empty.column_types.is_empty() && none.is_empty());
}

#[test]
fn utf8_text_round_trip() {
    let s = "héllo, wörld";
    assert_eq!(RawText::new(s.as_bytes()).decode(TextEncoding::Utf8).unwrap(), s);
    let long = "ünïcode ".repeat(20);
    assert!(long.len() >= 64);
    assert_eq!(RawText::new(long.as_bytes()).decode(TextEncoding::Utf8).unwrap(), long);
    assert!(RawText::new(&[0xff, 0xfe]).decode(TextEncoding::Utf8).is_err());
    assert!(RawText::new(&[0xc3; 70]).decode(TextEncoding::Utf8).is_err());
}

#[test]
fn utf16_text_decodes() {
    let be: Vec<u8> = "héllo".encode_utf16().flat_map(|u| u.to_be_bytes()).collect();
    assert_eq!(RawText::new(&be).decode(TextEncoding::Utf16Be).unwrap(), "héllo");
    assert!(RawText::new(&[0x00, 0xd8]).decode(TextEncoding::Utf16Le).is_err());
}

#[test]
fn text_encoding_codes() {
    assert_eq!(TextEncoding::try_from_code(1).unwrap(), TextEncoding::Utf8);
    assert_eq!(TextEncoding::try_from_code(3).unwrap(), TextEncoding::Utf16Be);
    assert!(matches!(
        TextEncoding::try_from_code(4),
        Err(sqlite3_dump::error::SQLiteError::UnknownTextEncodingError(4))
    ));
}

#[test]
fn csv_text_quoting() {
    let mut out = Vec::new();
    write_csv_text("plain text", &mut out);
    assert_eq!(out, b"plain text");
    let mut out = Vec::new();
    write_csv_text("a,\"b\"\n\tc\\", &mut out);
    assert_eq!(String::from_utf8(out).unwrap(), "\"a,\"\"b\"\"\\n\\tc\\\\\"");
    let mut out = Vec::new();
    write_csv_text("tab\tonly", &mut out);
    assert_eq!(out, b"tab\tonly");
}

#[test]
fn csv_values() {
    let mut out = Vec::new();
    write_value_to_csv(&Some(Payload::I64(-42)), TextEncoding::Utf8, &None, &mut out).unwrap();
    out.push(b',');
    write_value_to_csv(&Some(Payload::Blob(&[0x0a, 0xff])), TextEncoding::Utf8, &None, &mut out)
        .unwrap();
    out.push(b',');
    write_value_to_csv(&None, TextEncoding::Utf8, &None, &mut out).unwrap();
    out.push(b',');
    write_value_to_csv(&None, TextEncoding::Utf8, &Some(vec![1, 2]), &mut out).unwrap();
    assert_eq!(String::from_utf8(out).unwrap(), "-42,0aff,,0102");
    assert_eq!(format_i64(i64::MIN), "-9223372036854775808");
    let mut hex = Vec::new();
    write_hex(&[0xde, 0xad], &mut hex);
    assert_eq!(hex, b"dead");
}

#[test]
fn sql_column_names() {
    let s = SqlSchema::from_sql("CREATE TABLE x(\"first col\" TEXT, b INTEGER PRIMARY KEY)").unwrap();
    assert_eq!(s.get_column_names(), vec!["first col", "b"]);
    assert!(SqlSchema::from_sql("CREATE VIEW v AS SELECT 1").is_err());
    assert!(matches!(
        SqlSchema::from_sql("CREATE TABLE"),
        Err(sqlite3_dump::error::SQLiteError::SqlQueryErr(_))
    ));
}

#[test]
fn export_column_kinds() {
    assert_eq!(serial_type_to_arrow(&SerialType::Const0), ColumnKind::Int64);
    assert_eq!(serial_type_to_arrow(&SerialType::F64), ColumnKind::Float64);
    assert_eq!(serial_type_to_arrow(&SerialType::Text(15)), ColumnKind::Utf8);
    assert_eq!(serial_type_to_arrow(&SerialType::Null), ColumnKind::Binary);
    assert_eq!(serial_type_to_arrow(&SerialType::Reserved), ColumnKind::Binary);
}

#[test]
fn export_row_actions() {
    let full = vec![7u8, 8];
    let values = [
        None,
        Some(Payload::F64(2.5f64.to_bits())),
        Some(Payload::I64(3)),
        Some(Payload::Text(RawText::new(b"hi"))),
        None,
    ];
    let kinds = [
        ColumnKind::Int64,
        ColumnKind::Float64,
        ColumnKind::Utf8,
        ColumnKind::Binary,
        ColumnKind::Int64,
    ];
    let actions = process_row_values(&values, &kinds, TextEncoding::Utf8, Some(&full)).unwrap();
    assert_eq!(actions.len(), 5);
    assert!(matches!(actions[0], CellAction::IntFromFloat(b) if b == 2.5f64.to_bits()));
    assert!(matches!(actions[1], CellAction::FloatFromInt(3)));
    assert!(matches!(actions[2], CellAction::Text(ref s) if s == "hi"));
    assert!(matches!(actions[3], CellAction::Binary(b) if b == &[7u8, 8][..]));
    assert!(matches!(actions[4], CellAction::Null));
}

#[test]
fn database_name_from_path() {
    assert_eq!(get_db_name("/data/shop.sqlite"), "shop");
    assert_eq!(get_db_name("plain"), "plain");
    assert_eq!(get_db_name("/"), "database");
}
