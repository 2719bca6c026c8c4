use oracle_exp_reader::cli::{
    ddl_output, hexdump_range, info_counts, parse_offset, record_line, EventFilter, FilterAction,
    OffsetError,
};
use oracle_exp_reader::output::{
    csv_escape, hex_dump, json_event_fields, CsvWriter, JsonLinesWriter, JsonValue, SqlInsertWriter,
};
use oracle_exp_reader::parser::{
    charset_to_encoding, decode_column_value, decode_oracle_date, decode_oracle_number,
    decode_oracle_timestamp, encoding_for_upper_name, find_records_start, parse_header_record,
    parse_row_data, read_len1_string, read_len2_string, read_nul_string,
    version_slice_would_overrun, NlsEncoding, RecordIter,
};
use oracle_exp_reader::number::number_digits_ok;
use oracle_exp_reader::reader::{DumpEvent, DumpReader};
use oracle_exp_reader::{DumpError, OracleType, RawRecord, RecordType};

// ─────────────────────────────────────────────────────────────
// A small dump built by hand
// ─────────────────────────────────────────────────────────────

fn frame(code: u16, data: &[u8]) -> Vec<u8> {
    let mut v = code.to_be_bytes().to_vec();
    v.extend_from_slice(&(data.len() as u16).to_be_bytes());
    v.extend_from_slice(data);
    v
}

/// The version ends at a line feed, so records start right after it:
/// FileHeader@18, SchemaInfo@65, Ddl@75, TableDataStart@108, RowData@116,
/// RowData@129, TableDataEnd@139, EndOfFile@143; 147 bytes in all.
fn sample_dump() -> Vec<u8> {
    let mut d = b"\x03EXPORT:V11.02.00\n".to_vec();
    d.extend(frame(1, b"EXPORT:V11.02.00\x00NLS_CHARACTERSET=AL32UTF8\x00"));
    d.extend(frame(11, b"SCOTT\x00"));
    d.extend(frame(6, b"CREATE TABLE EMP (ID NUMBER);"));
    d.extend(frame(7, b"EMP\x00"));
    d.extend(frame(8, &[2, 0xC1, 2, 0xFF, 0, 3, b'a', b'b', b'c']));
    d.extend(frame(8, b"\x05a,\"bc"));
    d.extend(frame(9, b""));
    d.extend(frame(14, b""));
    d
}

fn sample_events() -> Vec<DumpEvent> {
    let bytes = sample_dump();
    let reader = DumpReader::from_bytes(&bytes).unwrap();
    let mut it = reader.events();
    let mut out = Vec::new();
    while let Some(ev) = it.next() {
        out.push(ev.unwrap());
    }
    out
}

#[test]
fn lib_records_start_and_version() {
    let d = sample_dump();
    let (start, version) = find_records_start(&d).unwrap();
    assert_eq!(start, 18);
    assert_eq!(version, "EXPORT:V11.02.00");
}

#[test]
fn lib_nul_padding_then_first_plausible_type() {
    let mut d = b"\x03EXPORT:V11.02.00".to_vec();
    d.extend_from_slice(&[0, 0, 0, 0, 0x05, 0x00, 0x00, 0x07, 0, 0, 0, 0]);
    let (start, version) = find_records_start(&d).unwrap();
    assert_eq!(start, 20);
    assert_eq!(version, "EXPORT:V11.02.00");
}

#[test]
fn lib_first_record_after_padding() {
    let mut data = vec![0x03u8, 0x62, 0x00];
    data.extend_from_slice(b"EXPORT:V10.02.01");
    data.push(0x00);
    while data.len() < 30 {
        data.push(0x00);
    }
    data.extend_from_slice(&[0x00, 0x01, 0x00, 0x04, b'T', b'E', b'S', b'T']);
    let (offset, version) = find_records_start(&data).unwrap();
    assert_eq!(offset, 30);
    assert_eq!(version, "EXPORT:V10.02.01");
}

#[test]
fn lib_invalid_magic_when_short_or_absent() {
    assert!(matches!(find_records_start(&[0u8; 10]), Err(DumpError::InvalidMagic)));
    assert!(matches!(find_records_start(&[b'A'; 100]), Err(DumpError::InvalidMagic)));
}

#[test]
fn lib_no_first_record_is_parse_error() {
    // Only NUL padding and bytes that never form a type in 1..=28.
    let mut d = b"EXPORT:V10.02.01\x00".to_vec();
    d.extend_from_slice(&[0xAA; 10]);
    match find_records_start(&d) {
        Err(DumpError::ParseError { offset, message }) => {
            assert_eq!(offset, 16);
            assert_eq!(message, "Could not find first record");
        }
        other => panic!("unexpected {:?}", other),
    }
}

#[test]
fn lib_version_slice_overrun_detected() {
    // The version runs to the end of the data, less than 20 bytes after the magic.
    let mut d = vec![b'x'; 40];
    d.extend_from_slice(b"EXPORT:V11");
    assert!(version_slice_would_overrun(&d));
    assert!(!version_slice_would_overrun(&sample_dump()));
}

#[test]
fn lib_record_iter_reads_frames_in_order() {
    let d = sample_dump();
    let mut it = RecordIter::new(&d, 18);
    let r = it.next().unwrap().unwrap();
    assert_eq!(r.record_type, RecordType::FileHeader);
    assert_eq!(r.offset, 18);
    assert_eq!(r.data.len(), 43);
    assert_eq!(it.offset(), 65);
    let mut kinds = Vec::new();
    while let Some(r) = it.next() {
        kinds.push(r.unwrap().record_type);
    }
    assert_eq!(
        kinds,
        vec![
            RecordType::SchemaInfo,
            RecordType::DdlStatement,
            RecordType::TableDataStart,
            RecordType::RowData,
            RecordType::RowData,
            RecordType::TableDataEnd,
            RecordType::EndOfFile,
        ]
    );
    assert_eq!(it.offset(), 147);
}

#[test]
fn lib_record_roundtrip_long_frame() {
    let payload: Vec<u8> = (0..70000u32).map(|i| (i % 251) as u8).collect();
    let mut d = vec![0xAB, 0xCD];
    d.extend_from_slice(&[0x00, 0x08, 0xFF, 0xFF]);
    d.extend_from_slice(&(payload.len() as u32).to_be_bytes());
    d.extend_from_slice(&payload);
    d.extend_from_slice(&[0x01, 0x02]);
    let mut it = RecordIter::new(&d, 2);
    let r = it.next().unwrap().unwrap();
    assert_eq!(r.record_type, RecordType::RowData);
    assert_eq!(r.offset, 2);
    assert_eq!(r.data, &payload[..]);
    assert_eq!(it.offset(), 10 + payload.len());
}

#[test]
fn lib_record_iter_truncated_errors() {
    let d = [0x00u8, 0x08, 0x00, 0x05, 0x01, 0x02];
    let mut it = RecordIter::new(&d, 0);
    assert!(matches!(it.next(), Some(Err(DumpError::UnexpectedEof { offset: 4 }))));
    let d = [0x00u8, 0x08, 0x00];
    let mut it = RecordIter::new(&d, 0);
    assert!(matches!(it.next(), Some(Err(DumpError::UnexpectedEof { offset: 2 }))));
    let d = [0x00u8, 0x08, 0xFF, 0xFF, 0x00, 0x00];
    let mut it = RecordIter::new(&d, 0);
    assert!(matches!(it.next(), Some(Err(DumpError::UnexpectedEof { offset: 4 }))));
    let mut it = RecordIter::new(&d, 6);
    assert!(it.next().is_none());
}

#[test]
fn lib_reader_header_and_size() {
    let bytes = sample_dump();
    let reader = DumpReader::from_bytes(&bytes).unwrap();
    assert_eq!(reader.file_size(), 147);
    assert_eq!(reader.header().export_version, "EXPORT:V11.02.00");
    assert_eq!(reader.header().charset, "AL32UTF8");
    assert_eq!(reader.header().ncharset, "");
    let mut raw = reader.raw_records();
    assert_eq!(raw.next().unwrap().unwrap().offset, 18);
}

#[test]
fn lib_reader_charset_record_sets_charset() {
    let mut d = b"\x03EXPORT:V09.02.00\n".to_vec();
    d.extend(frame(2, b"WE8MSWIN1252\x00"));
    d.extend(frame(14, b""));
    let reader = DumpReader::from_bytes(&d).unwrap();
    assert_eq!(reader.header().export_version, "EXPORT:V09.02.00");
    assert_eq!(reader.header().charset, "WE8MSWIN1252");
}

#[test]
fn lib_event_sequence() {
    let evs = sample_events();
    assert_eq!(evs.len(), 7);
    match &evs[0] {
        DumpEvent::Header(h) => {
            assert_eq!(h.export_version, "EXPORT:V11.02.00");
            assert_eq!(h.charset, "AL32UTF8");
        }
        other => panic!("unexpected {:?}", other),
    }
    match &evs[1] {
        DumpEvent::DdlStatement { sql, byte_offset } => {
            assert_eq!(sql, "CREATE TABLE EMP (ID NUMBER);");
            assert_eq!(*byte_offset, 75);
        }
        other => panic!("unexpected {:?}", other),
    }
    match &evs[2] {
        DumpEvent::TableStart { owner, table_name } => {
            assert_eq!(owner, "SCOTT");
            assert_eq!(table_name, "EMP");
        }
        other => panic!("unexpected {:?}", other),
    }
    match &evs[3] {
        DumpEvent::Row { table, owner, row_index, raw_values, byte_offset } => {
            assert_eq!(table, "EMP");
            assert_eq!(owner, "SCOTT");
            assert_eq!(*row_index, 0);
            assert_eq!(*byte_offset, 116);
            assert_eq!(
                raw_values,
                &vec![Some(vec![0xC1, 0x02]), None, Some(vec![]), Some(b"abc".to_vec())]
            );
        }
        other => panic!("unexpected {:?}", other),
    }
    match &evs[4] {
        DumpEvent::Row { row_index, raw_values, .. } => {
            assert_eq!(*row_index, 1);
            assert_eq!(raw_values, &vec![Some(b"a,\"bc".to_vec())]);
        }
        other => panic!("unexpected {:?}", other),
    }
    match &evs[5] {
        DumpEvent::TableEnd { table, rows_written } => {
            assert_eq!(table, "EMP");
            assert_eq!(*rows_written, 2);
        }
        other => panic!("unexpected {:?}", other),
    }
    assert!(matches!(evs[6], DumpEvent::EndOfFile));
}

#[test]
fn lib_unknown_record_and_blank_ddl() {
    let mut d = b"\x03EXPORT:V11.02.00\n".to_vec();
    d.extend(frame(6, b"   \n"));
    d.extend(frame(3, b"params"));
    d.extend(frame(200, b"xyz"));
    d.extend(frame(8, &[5, b'a']));
    let reader = DumpReader::from_bytes(&d).unwrap();
    let mut it = reader.events();
    match it.next() {
        Some(Ok(DumpEvent::Unknown { record_type, byte_offset, length })) => {
            assert_eq!(record_type, 200);
            assert_eq!(byte_offset, 36);
            assert_eq!(length, 3);
        }
        other => panic!("unexpected {:?}", other),
    }
    assert!(matches!(it.next(), Some(Err(DumpError::UnexpectedEof { offset: 1 }))));
    assert!(it.next().is_none());
}

#[test]
fn lib_row_counting_restarts_per_table() {
    let mut d = b"\x03EXPORT:V11.02.00\n".to_vec();
    d.extend(frame(7, b"A\x00"));
    d.extend(frame(8, &[0xFF]));
    d.extend(frame(8, &[0xFF]));
    d.extend(frame(9, b""));
    d.extend(frame(7, b"B"));
    d.extend(frame(8, &[0xFF]));
    d.extend(frame(9, b""));
    let reader = DumpReader::from_bytes(&d).unwrap();
    let mut it = reader.events();
    let mut seen = Vec::new();
    while let Some(ev) = it.next() {
        match ev.unwrap() {
            DumpEvent::Row { table, row_index, .. } => seen.push(format!("{}:{}", table, row_index)),
            DumpEvent::TableEnd { table, rows_written } => seen.push(format!("{}={}", table, rows_written)),
            DumpEvent::TableStart { table_name, .. } => seen.push(format!("<{}", table_name)),
            _ => {}
        }
    }
    assert_eq!(seen, vec!["<A", "A:0", "A:1", "A=2", "<B", "B:0", "B=1"]);
}

#[test]
fn lib_info_counts() {
    let bytes = sample_dump();
    let reader = DumpReader::from_bytes(&bytes).unwrap();
    assert_eq!(info_counts(&reader).unwrap(), (1, 2, 1));
}

// ─────────────────────────────────────────────────────────────
// Row data and strings
// ─────────────────────────────────────────────────────────────

#[test]
fn lib_row_roundtrip_all_kinds() {
    let long: Vec<u8> = vec![7u8; 300];
    let mut enc = vec![0xFF, 0x00, 0x02, b'h', b'i', 0xFE];
    enc.extend_from_slice(&(long.len() as u32).to_be_bytes());
    enc.extend_from_slice(&long);
    let cols = parse_row_data(&enc).unwrap();
    assert_eq!(cols.len(), 4);
    assert_eq!(cols[0], None);
    assert_eq!(cols[1], Some(&b""[..]));
    assert_eq!(cols[2], Some(&b"hi"[..]));
    assert_eq!(cols[3], Some(&long[..]));
}

#[test]
fn lib_row_truncated_offsets() {
    assert!(matches!(parse_row_data(&[0x03, b'a']), Err(DumpError::UnexpectedEof { offset: 1 })));
    assert!(matches!(parse_row_data(&[0xFE, 0, 0]), Err(DumpError::UnexpectedEof { offset: 1 })));
    assert!(matches!(
        parse_row_data(&[0xFE, 0, 0, 0, 9, 1]),
        Err(DumpError::UnexpectedEof { offset: 5 })
    ));
    assert_eq!(parse_row_data(&[]).unwrap().len(), 0);
}

#[test]
fn lib_read_strings() {
    assert_eq!(read_nul_string(b"abc\x00def", 0), ("abc".to_string(), 4));
    assert_eq!(read_nul_string(b"abc", 1), ("bc".to_string(), 4));
    assert_eq!(read_len1_string(&[3, b'a', b'b', b'c', 9], 0).unwrap(), ("abc".to_string(), 4));
    assert!(matches!(read_len1_string(&[5, b'a'], 0), Err(DumpError::UnexpectedEof { offset: 0 })));
    assert!(matches!(read_len1_string(&[], 0), Err(DumpError::UnexpectedEof { offset: 0 })));
    assert_eq!(read_len2_string(&[9, 0, 2, b'h', b'i'], 1).unwrap(), ("hi".to_string(), 5));
    assert!(matches!(read_len2_string(&[0], 0), Err(DumpError::UnexpectedEof { offset: 0 })));
    assert!(matches!(read_len2_string(&[0, 3, b'x'], 0), Err(DumpError::UnexpectedEof { offset: 0 })));
}

#[test]
fn lib_header_record_fields() {
    let data = b"EXPORT:V10.02.01  \x00NLS_NCHAR_CHARACTERSET=AL16UTF16\x0012/31/2023 10:00\x00WE8MSWIN1252\x00";
    let rec = RawRecord { record_type: RecordType::FileHeader, offset: 0, data: &data[..] };
    let h = parse_header_record(&rec);
    assert_eq!(h.export_version, "EXPORT:V10.02.01");
    assert_eq!(h.ncharset, "AL16UTF16");
    assert_eq!(h.export_date, "12/31/2023 10:00");
    assert_eq!(h.charset, "WE8MSWIN1252");
    assert_eq!(h.platform, "");
}

// ─────────────────────────────────────────────────────────────
// Decoders
// ─────────────────────────────────────────────────────────────

#[test]
fn lib_date_and_timestamp() {
    assert_eq!(decode_oracle_date(&[120, 124, 3, 15, 1, 1, 1]), "2024-03-15");
    assert_eq!(decode_oracle_date(&[120, 124, 3, 15, 11, 31, 46]), "2024-03-15 10:30:45");
    assert_eq!(decode_oracle_date(&[0x01, 0xAB]), "DATE(01AB)");
    assert_eq!(decode_oracle_timestamp(&[120, 124, 3, 15, 11, 31, 46]), "2024-03-15 10:30:45");
    assert_eq!(
        decode_oracle_timestamp(&[120, 124, 3, 15, 11, 31, 46, 0, 0, 0, 5]),
        "2024-03-15 10:30:45.000000005"
    );
    assert_eq!(decode_oracle_timestamp(&[120, 124, 3, 15, 1, 1, 1, 0, 0, 0, 0]), "2024-03-15");
    assert_eq!(
        decode_oracle_timestamp(&[120, 124, 1, 15, 1, 1, 1, 0, 0, 0, 5]),
        "2024-01-15 00:00:00.000000005"
    );
    assert_eq!(decode_oracle_timestamp(&[0xAB]), "TIMESTAMP(AB)");
}

#[test]
fn lib_timestamp_extends_date() {
    let d = [119u8, 199, 12, 31, 24, 60, 60, 0x3B, 0x9A, 0xC9, 0xFF];
    let date = decode_oracle_date(&d[..7]);
    let ts = decode_oracle_timestamp(&d);
    assert!(ts.starts_with(&date));
    assert_eq!(ts, format!("{}.999999999", date));
    assert_eq!(date, "1999-12-31 23:59:59");
}

#[test]
fn lib_number_values() {
    assert_eq!(decode_oracle_number(&[]), "NULL");
    assert_eq!(decode_oracle_number(&[0x80, 5]), "0");
    assert_eq!(decode_oracle_number(&[0xC1]), "0");
    assert_eq!(decode_oracle_number(&[0x3E]), "-0");
    assert_eq!(decode_oracle_number(&[0x3E, 0x66]), "-0");
    assert_eq!(decode_oracle_number(&[0xC1, 0x02]), "1");
    assert_eq!(decode_oracle_number(&[0xC1, 0x0B]), "10");
    assert_eq!(decode_oracle_number(&[0xC2, 0x02]), "100");
    assert_eq!(decode_oracle_number(&[0x3E, 0x64]), "-1");
    assert_eq!(decode_oracle_number(&[0x3E, 100, 0x66]), "-1");
    assert_eq!(decode_oracle_number(&[0xC0, 0x33]), "0.5");
    assert_eq!(decode_oracle_number(&[0xC2, 0x0C, 0x23]), "1134");
    assert_eq!(decode_oracle_number(&[0xC1, 0x04, 0x0F]), "3.14");
    assert_eq!(decode_oracle_number(&[0xBF, 0x02]), "0.0001");
    assert_eq!(decode_oracle_number(&[0xC3, 0x02]), "10000");
    assert_eq!(decode_oracle_number(&[0x3D, 90, 67, 0x66]), "-1134");
    assert_eq!(decode_oracle_number(&[0x3F, 51, 0x66]), "-0.5");
    assert_eq!(decode_oracle_number(&[0xC1, 0x01, 0x01]), "0");
}

#[test]
fn lib_column_values() {
    let enc = charset_to_encoding("ja16sjis");
    assert_eq!(enc, Some(NlsEncoding::ShiftJis));
    let v = decode_column_value(&[0x82, 0xA0], &OracleType::Varchar2, enc);
    assert_eq!(v.to_string(), "\u{3042}");
    let v = decode_column_value(&[0x82, 0xA0], &OracleType::Clob, None);
    assert_eq!(v.to_string(), "\u{FFFD}\u{FFFD}");
    let v = decode_column_value(&[0xDE, 0xAD], &OracleType::Raw, None);
    assert_eq!(v.to_string(), "0xDEAD");
    let v = decode_column_value(&[0x80], &OracleType::Number, None);
    assert_eq!(v.to_string(), "0");
    let v = decode_column_value(&[120, 124, 3, 15, 1, 1, 1], &OracleType::Date, None);
    assert_eq!(v.to_string(), "2024-03-15");
    let v = decode_column_value(&[], &OracleType::Number, None);
    assert_eq!(v.to_string(), "");
    let v = decode_column_value(&[1, 2], &OracleType::Other(77), None);
    assert_eq!(v.to_string(), "0x0102");
}

#[test]
fn lib_charset_names() {
    assert_eq!(charset_to_encoding("AL32UTF8"), Some(NlsEncoding::Utf8));
    assert_eq!(charset_to_encoding("we8mswin1252"), Some(NlsEncoding::Windows1252));
    assert_eq!(charset_to_encoding("Zhs16Gbk"), Some(NlsEncoding::Gbk));
    assert_eq!(charset_to_encoding("US7ASCII"), None);
    assert_eq!(encoding_for_upper_name("al16utf16"), None);
    assert_eq!(encoding_for_upper_name("AL16UTF16"), Some(NlsEncoding::Utf16Be));
}

#[test]
fn lib_type_names() {
    assert_eq!(RecordType::from(6u16).to_string(), "DdlStatement");
    assert_eq!(RecordType::from(4u16).to_string(), "Unknown(4)");
    assert_eq!(RecordType::from(28u16), RecordType::AuditSettings);
    assert_eq!(OracleType::from(101u8), OracleType::Float);
    assert_eq!(OracleType::from(181u8).to_string(), "TIMESTAMP WITH TIME ZONE");
    assert_eq!(OracleType::from(9u8).to_string(), "UNKNOWN(9)");
}

// ─────────────────────────────────────────────────────────────
// Writers
// ─────────────────────────────────────────────────────────────

#[test]
fn lib_csv_output() {
    let evs = sample_events();
    let mut w = CsvWriter::new();
    let text: String = evs.iter().map(|e| w.handle_event(e)).collect();
    assert_eq!(
        text,
        "-- DDL: CREATE TABLE EMP (ID NUMBER);\n\
         -- Table: SCOTT.EMP\n\
         \u{FFFD}\u{2},,,abc\n\
         \"a,\"\"bc\"\n\
         -- End of EMP: 2 rows\n"
    );
    let mut w = CsvWriter::new().with_delimiter(b';');
    let row = DumpEvent::Row {
        table: "T".to_string(),
        owner: String::new(),
        row_index: 0,
        raw_values: vec![Some(b"x".to_vec()), None, Some(b"line\nbreak".to_vec())],
        byte_offset: 0,
    };
    assert_eq!(w.handle_event(&row), "");
    w.handle_event(&DumpEvent::TableStart { owner: "O".to_string(), table_name: "T".to_string() });
    assert_eq!(w.handle_event(&row), "x;;\"line\nbreak\"\n");
    let ddl = DumpEvent::DdlStatement { sql: "CREATE X\r\nMORE".to_string(), byte_offset: 0 };
    assert_eq!(w.handle_event(&ddl), "-- DDL: CREATE X\n");
}

#[test]
fn lib_sql_output() {
    let evs = sample_events();
    let mut w = SqlInsertWriter::new(1000);
    let text: String = evs.iter().map(|e| w.handle_event(e)).collect();
    assert_eq!(
        text,
        "CREATE TABLE EMP (ID NUMBER);\n\n\
         -- Loading table SCOTT.EMP\n\
         INSERT INTO SCOTT.EMP VALUES (HEXTORAW('C102'), NULL, '', 'abc');\n\
         INSERT INTO SCOTT.EMP VALUES ('a,\"bc');\n\
         -- End EMP: 2 rows\n\
         COMMIT;\n\n"
    );
    assert_eq!(w.total_rows(), 2);
}

#[test]
fn lib_sql_batches_and_literals() {
    let mut w = SqlInsertWriter::new(0);
    let row = DumpEvent::Row {
        table: "T".to_string(),
        owner: String::new(),
        row_index: 0,
        raw_values: vec![Some(b"-12.5".to_vec()), Some(b"O'Brien".to_vec())],
        byte_offset: 0,
    };
    assert_eq!(w.handle_event(&row), "INSERT INTO T VALUES (-12.5, 'O''Brien');\n");
    let mut w = SqlInsertWriter::new(2);
    assert_eq!(w.handle_event(&row), "");
    assert_eq!(
        w.handle_event(&row),
        "INSERT INTO T VALUES (-12.5, 'O''Brien');\nINSERT INTO T VALUES (-12.5, 'O''Brien');\n"
    );
    assert_eq!(w.handle_event(&row), "");
    let end = DumpEvent::TableEnd { table: "T".to_string(), rows_written: 3 };
    assert_eq!(
        w.handle_event(&end),
        "INSERT INTO T VALUES (-12.5, 'O''Brien');\n-- End T: 3 rows\nCOMMIT;\n\n"
    );
    assert_eq!(w.total_rows(), 3);
}

#[test]
fn lib_json_output() {
    let evs = sample_events();
    let mut w = JsonLinesWriter::new();
    let lines: Vec<String> = evs.iter().map(|e| w.handle_event(e)).collect();
    assert_eq!(lines[0], "");
    assert_eq!(lines[1], "{\"offset\":75,\"sql\":\"CREATE TABLE EMP (ID NUMBER);\",\"type\":\"ddl\"}\n");
    assert_eq!(lines[2], "{\"owner\":\"SCOTT\",\"table\":\"EMP\",\"type\":\"table_start\"}\n");
    assert_eq!(
        lines[3],
        "{\"offset\":116,\"owner\":\"SCOTT\",\"row\":0,\"table\":\"EMP\",\"type\":\"row\",\"values\":[\"0xC102\",null,\"\",\"abc\"]}\n"
    );
    assert_eq!(
        lines[4],
        "{\"offset\":129,\"owner\":\"SCOTT\",\"row\":1,\"table\":\"EMP\",\"type\":\"row\",\"values\":[\"a,\\\"bc\"]}\n"
    );
    assert_eq!(lines[5], "{\"rows\":2,\"table\":\"EMP\",\"type\":\"table_end\"}\n");
    assert_eq!(lines[6], "{\"type\":\"eof\"}\n");
}

#[test]
fn lib_hex_dump_lines() {
    let text = hex_dump(b"ABCDEFGHIJKLMNOPQ", 0x10);
    let expected = format!(
        "00000010  41 42 43 44 45 46 47 48  49 4A 4B 4C 4D 4E 4F 50  |ABCDEFGHIJKLMNOP|\n00000020  51 {} |Q|\n",
        " ".repeat(46)
    );
    assert_eq!(text, expected);
    assert_eq!(hex_dump(b"", 0), "");
    assert_eq!(
        hex_dump(&[0x00, 0x7F, 0x20], 0),
        format!("00000000  00 7F 20 {} |.. |\n", " ".repeat(40))
    );
}

// ─────────────────────────────────────────────────────────────
// Command helpers
// ─────────────────────────────────────────────────────────────

#[test]
fn lib_record_listing_line() {
    let data = b"EXPORT:V11\x01";
    let rec = RawRecord { record_type: RecordType::FileHeader, offset: 0, data: &data[..] };
    assert_eq!(
        record_line(&rec),
        format!("{:>10}  {:>25}  {:>10}  {}\n", 0, "FileHeader", 11, "EXPORT:V11.")
    );
    let long = [b'z'; 50];
    let rec = RawRecord { record_type: RecordType::Unknown(99), offset: 1234, data: &long[..] };
    assert_eq!(
        record_line(&rec),
        format!("{:>10}  {:>25}  {:>10}  {}\n", 1234, "Unknown(99)", 50, "z".repeat(40))
    );
}

#[test]
fn lib_ddl_output_text() {
    assert_eq!(ddl_output("  CREATE TABLE T (A NUMBER);;  \n"), "CREATE TABLE T (A NUMBER);\n\n");
    assert_eq!(ddl_output("GRANT SELECT ON T TO U"), "GRANT SELECT ON T TO U;\n\n");
    assert_eq!(ddl_output(" \t\n"), "");
}

#[test]
fn lib_offsets() {
    assert_eq!(parse_offset("0x800"), Ok(2048));
    assert_eq!(parse_offset("0XfF"), Ok(255));
    assert_eq!(parse_offset("256"), Ok(256));
    assert_eq!(parse_offset("+12"), Ok(12));
    assert_eq!(parse_offset("0x+a"), Ok(10));
    assert_eq!(parse_offset(""), Err(OffsetError::Empty));
    assert_eq!(parse_offset("0x"), Err(OffsetError::Empty));
    assert_eq!(parse_offset("-1"), Err(OffsetError::InvalidDigit));
    assert_eq!(parse_offset("+"), Err(OffsetError::InvalidDigit));
    assert_eq!(parse_offset("12a"), Err(OffsetError::InvalidDigit));
    assert_eq!(parse_offset("99999999999999999999999"), Err(OffsetError::PosOverflow));
}

#[test]
fn lib_export_filter_by_table_and_limit() {
    let mut f = EventFilter::new(Some("em"), 1);
    let start = DumpEvent::TableStart { owner: "S".to_string(), table_name: "Emp".to_string() };
    let row = DumpEvent::Row {
        table: "Emp".to_string(),
        owner: "S".to_string(),
        row_index: 0,
        raw_values: vec![],
        byte_offset: 0,
    };
    let end = DumpEvent::TableEnd { table: "Emp".to_string(), rows_written: 2 };
    let ddl = DumpEvent::DdlStatement { sql: "X".to_string(), byte_offset: 0 };
    assert_eq!(f.decide(&ddl), FilterAction::Skip);
    assert_eq!(f.decide(&start), FilterAction::Handle);
    assert_eq!(f.decide(&row), FilterAction::Handle);
    assert_eq!(f.decide(&row), FilterAction::Skip);
    assert_eq!(f.rows_in_table(), 1);
    assert_eq!(f.decide(&end), FilterAction::Handle);
    let other = DumpEvent::TableStart { owner: "S".to_string(), table_name: "DEPT".to_string() };
    assert_eq!(f.decide(&other), FilterAction::Skip);
    assert_eq!(f.decide(&row), FilterAction::Skip);
    assert_eq!(f.decide(&end), FilterAction::Skip);
    assert_eq!(f.decide(&DumpEvent::EndOfFile), FilterAction::HandleThenStop);
}

#[test]
fn lib_export_filter_without_table() {
    let mut f = EventFilter::new(None, 0);
    let ddl = DumpEvent::DdlStatement { sql: "X".to_string(), byte_offset: 0 };
    let unknown = DumpEvent::Unknown { record_type: 99, byte_offset: 0, length: 0 };
    assert_eq!(f.decide(&ddl), FilterAction::Handle);
    assert_eq!(f.decide(&unknown), FilterAction::Handle);
    let start = DumpEvent::TableStart { owner: String::new(), table_name: "ANY".to_string() };
    assert_eq!(f.decide(&start), FilterAction::Handle);
    let row = DumpEvent::Row {
        table: "ANY".to_string(),
        owner: String::new(),
        row_index: 0,
        raw_values: vec![],
        byte_offset: 0,
    };
    for _ in 0..5 {
        assert_eq!(f.decide(&row), FilterAction::Handle);
    }
    assert_eq!(f.rows_in_table(), 5);
}

#[test]
fn lib_hexdump_range() {
    assert_eq!(hexdump_range(0x800, 256, 0x1000), Some((0x800, 0x900)));
    assert_eq!(hexdump_range(10, 256, 100), Some((10, 100)));
    assert_eq!(hexdump_range(100, 1, 100), None);
}

#[test]
fn lib_json_fields_of_a_row() {
    let row = DumpEvent::Row {
        table: "T".to_string(),
        owner: "O".to_string(),
        row_index: 7,
        raw_values: vec![Some(vec![0xFF, 0x01]), None, Some("\u{e9}".as_bytes().to_vec())],
        byte_offset: 42,
    };
    let fields = json_event_fields(&row).unwrap();
    let keys: Vec<&str> = fields.iter().map(|(k, _)| k.as_str()).collect();
    assert_eq!(keys, vec!["type", "table", "owner", "row", "offset", "values"]);
    assert!(matches!(&fields[3].1, JsonValue::UInt(7)));
    assert!(matches!(&fields[4].1, JsonValue::UInt(42)));
    match &fields[5].1 {
        JsonValue::StrList(v) => {
            assert_eq!(v, &vec![Some("0xFF01".to_string()), None, Some("\u{e9}".to_string())]);
        }
        other => panic!("unexpected {:?}", other),
    }
    let ddl = DumpEvent::DdlStatement { sql: "  GRANT X \n".to_string(), byte_offset: 3 };
    let fields = json_event_fields(&ddl).unwrap();
    assert!(matches!(&fields[2].1, JsonValue::Str(s) if s == "GRANT X"));
    assert!(json_event_fields(&DumpEvent::Unknown { record_type: 5, byte_offset: 0, length: 0 }).is_none());
    let mut w = JsonLinesWriter::new();
    assert_eq!(
        w.handle_event(&row),
        "{\"offset\":42,\"owner\":\"O\",\"row\":7,\"table\":\"T\",\"type\":\"row\",\"values\":[\"0xFF01\",null,\"\u{e9}\"]}\n"
    );
}

#[test]
fn lib_csv_escape_cases() {
    let esc = |s: &str| csv_escape(&s.chars().collect::<Vec<char>>()).into_iter().collect::<String>();
    assert_eq!(esc("plain"), "plain");
    assert_eq!(esc("a,b"), "\"a,b\"");
    assert_eq!(esc("say \"hi\""), "\"say \"\"hi\"\"\"");
    assert_eq!(esc("two\nlines"), "\"two\nlines\"");
    assert_eq!(esc("semi;colon"), "semi;colon");
    assert_eq!(esc(""), "");
}

/// Splits one CSV record as RFC 4180 reads it.
fn rfc4180_fields(line: &str) -> Vec<String> {
    let chars: Vec<char> = line.chars().collect();
    let mut fields = Vec::new();
    let mut i = 0;
    loop {
        let mut f = String::new();
        if i < chars.len() && chars[i] == '"' {
            i += 1;
            while i < chars.len() {
                if chars[i] == '"' {
                    if i + 1 < chars.len() && chars[i + 1] == '"' {
                        f.push('"');
                        i += 2;
                    } else {
                        i += 1;
                        break;
                    }
                } else {
                    f.push(chars[i]);
                    i += 1;
                }
            }
        } else {
            while i < chars.len() && chars[i] != ',' {
                f.push(chars[i]);
                i += 1;
            }
        }
        fields.push(f);
        if i < chars.len() && chars[i] == ',' {
            i += 1;
        } else {
            break;
        }
    }
    fields
}

#[test]
fn lib_csv_row_reads_back() {
    let mut w = CsvWriter::new();
    w.handle_event(&DumpEvent::TableStart { owner: "O".to_string(), table_name: "T".to_string() });
    let values: Vec<Option<Vec<u8>>> = vec![
        Some(b"plain".to_vec()),
        None,
        Some(b"a,b".to_vec()),
        Some(b"say \"hi\"".to_vec()),
        Some(b"two\nlines".to_vec()),
        Some(Vec::new()),
        Some(b"\"".to_vec()),
    ];
    let row = DumpEvent::Row {
        table: "T".to_string(),
        owner: "O".to_string(),
        row_index: 0,
        raw_values: values.clone(),
        byte_offset: 0,
    };
    let line = w.handle_event(&row);
    assert!(line.ends_with('\n'));
    let fields = rfc4180_fields(&line[..line.len() - 1]);
    let expected: Vec<String> = values
        .iter()
        .map(|v| match v {
            None => String::new(),
            Some(b) => String::from_utf8(b.clone()).unwrap(),
        })
        .collect();
    assert_eq!(fields, expected);
}

#[test]
fn lib_number_negation_pairs() {
    let pairs: [(&[u8], &[u8]); 3] = [
        (&[0xC2, 0x0C, 0x23], &[0x3D, 90, 67, 0x66]),
        (&[0xC1, 0x04, 0x0F], &[0x3E, 98, 87, 0x66]),
        (&[0xC0, 0x33], &[0x3F, 51, 0x66]),
    ];
    for (p, n) in pairs.iter() {
        assert_eq!(decode_oracle_number(n), format!("-{}", decode_oracle_number(p)));
    }
}

#[test]
fn lib_strings_valid_utf8_unchanged() {
    let e = "\u{e9}t\u{e9}".as_bytes();
    let mut d = vec![0x00, e.len() as u8];
    d.extend_from_slice(e);
    d.extend_from_slice(b"rest");
    assert_eq!(read_len2_string(&d, 0).unwrap(), ("\u{e9}t\u{e9}".to_string(), 2 + e.len()));
    let mut d1 = vec![e.len() as u8];
    d1.extend_from_slice(e);
    assert_eq!(read_len1_string(&d1, 0).unwrap(), ("\u{e9}t\u{e9}".to_string(), 1 + e.len()));
    let mut d0 = e.to_vec();
    d0.push(0);
    assert_eq!(read_nul_string(&d0, 0), ("\u{e9}t\u{e9}".to_string(), e.len() + 1));
}

#[test]
fn lib_number_digits_checker() {
    assert!(number_digits_ok(&[]));
    assert!(number_digits_ok(&[0x80, 0x00]));
    assert!(number_digits_ok(&[0xC1, 0x02]));
    assert!(!number_digits_ok(&[0xC1, 0x02, 0x00]));
    assert!(number_digits_ok(&[0x3E, 0x64, 0x66, 0xFF]));
    assert!(!number_digits_ok(&[0x3E, 0x70]));
    assert!(number_digits_ok(&[0x3E, 0x65]));
}

#[test]
fn lib_len2_string_at_and_past_the_end() {
    let d = [0u8, 1, b'x'];
    assert!(matches!(read_len2_string(&d, 3), Err(DumpError::UnexpectedEof { offset: 3 })));
    assert!(matches!(read_len2_string(&d, 2), Err(DumpError::UnexpectedEof { offset: 2 })));
    assert!(matches!(read_len2_string(&d, 10), Err(DumpError::UnexpectedEof { offset: 10 })));
    assert_eq!(read_len2_string(&d, 0).unwrap(), ("x".to_string(), 3));
}

#[test]
fn lib_csv_rows_only_inside_a_table() {
    let mut w = CsvWriter::new();
    let row = DumpEvent::Row {
        table: "T".to_string(),
        owner: String::new(),
        row_index: 0,
        raw_values: vec![Some(b"v".to_vec())],
        byte_offset: 0,
    };
    let start = DumpEvent::TableStart { owner: "O".to_string(), table_name: "T".to_string() };
    let end = DumpEvent::TableEnd { table: "T".to_string(), rows_written: 1 };
    let ddl = DumpEvent::DdlStatement { sql: "CREATE".to_string(), byte_offset: 0 };
    let texts: Vec<String> = [&row, &start, &row, &ddl, &row, &end, &row, &ddl]
        .iter()
        .map(|e| w.handle_event(e))
        .collect();
    assert_eq!(
        texts,
        vec!["", "-- Table: O.T\n", "v\n", "-- DDL: CREATE\n", "v\n", "-- End of T: 1 rows\n", "", "-- DDL: CREATE\n"]
    );
}

#[test]
fn lib_json_event_is_one_line() {
    let mut w = JsonLinesWriter::new();
    let start = DumpEvent::TableStart { owner: "O\r\n".to_string(), table_name: "A\nB".to_string() };
    let line = w.handle_event(&start);
    assert_eq!(line.matches('\n').count(), 1);
    assert!(line.ends_with('\n'));
    assert_eq!(line, "{\"owner\":\"O\\r\\n\",\"table\":\"A\\nB\",\"type\":\"table_start\"}\n");
}

#[test]
fn lib_sql_batches_over_many_calls() {
    let mut w = SqlInsertWriter::new(3);
    let mut out = String::new();
    let mut expected_inserts = Vec::new();
    for t in 0..2 {
        out += &w.handle_event(&DumpEvent::TableStart { owner: String::new(), table_name: format!("T{}", t) });
        for r in 0..7 {
            let row = DumpEvent::Row {
                table: format!("T{}", t),
                owner: String::new(),
                row_index: r,
                raw_values: vec![Some(format!("{}", r).into_bytes())],
                byte_offset: 0,
            };
            expected_inserts.push(format!("INSERT INTO T{} VALUES ({});", t, r));
            out += &w.handle_event(&row);
            let written = out.lines().filter(|l| l.starts_with("INSERT")).count();
            let pending = expected_inserts.len() - written;
            assert!(pending < 3);
        }
        out += &w.handle_event(&DumpEvent::TableEnd { table: format!("T{}", t), rows_written: 7 });
        let written = out.lines().filter(|l| l.starts_with("INSERT")).count();
        assert_eq!(written, expected_inserts.len());
        assert!(out.ends_with(&format!("-- End T{}: 7 rows\nCOMMIT;\n\n", t)));
    }
    let inserts: Vec<&str> = out.lines().filter(|l| l.starts_with("INSERT")).collect();
    assert_eq!(inserts, expected_inserts.iter().map(|s| s.as_str()).collect::<Vec<_>>());
}
