use ese_rs::constants::{CodePage, ColumnType};
use ese_rs::error::EseError;
use ese_rs::record::{decode_record, parse_layout};
use ese_rs::types::{decode_value, ColumnDef, ColumnValue, Guid, Record, TableSchema};

fn column(id: u32, name: &str, ty: ColumnType, size: u32, offset: u32, cp: CodePage) -> ColumnDef {
    ColumnDef {
        id,
        name: name.as_bytes().to_vec(),
        column_type: ty,
        size,
        offset,
        code_page: cp,
        flags: 0,
        default_value: Vec::new(),
    }
}

/// id: Int32 (fixed 1), flag: Bit (fixed 2), name: Text/ASCII (variable 128),
/// note: Binary (variable 129), tags: multi-valued Int16 (tagged 256),
/// body: LongBinary (tagged 257), title: Text/Unicode (tagged 258).
fn sample_schema() -> TableSchema {
    TableSchema {
        table_id: 10,
        name: b"T".to_vec(),
        root_page: 5,
        long_value_root: None,
        fixed: vec![
            column(1, "id", ColumnType::Long, 4, 0, CodePage::Other(0)),
            column(2, "flag", ColumnType::Bit, 1, 4, CodePage::Other(0)),
        ],
        variable: vec![
            column(128, "name", ColumnType::Text, 255, 0, CodePage::Ascii),
            column(129, "note", ColumnType::Binary, 255, 0, CodePage::Other(0)),
        ],
        tagged: vec![
            column(256, "tags", ColumnType::Short, 0, 0, CodePage::Other(0)),
            column(257, "body", ColumnType::LongBinary, 0, 0, CodePage::Other(0)),
            column(258, "title", ColumnType::Text, 0, 0, CodePage::Unicode),
        ],
    }
}

/// One variable column of a record under construction.
enum Var {
    Null,
    Bytes(Vec<u8>),
}

/// Builds the bytes of a record. `fixed` holds the bytes of the fixed area,
/// `bitmap` the presence bits of the `last_fixed` fixed columns, `tagged`
/// the entries (identifier, flags byte if any, payload).
fn encode(
    last_fixed: u8,
    bitmap: &[u8],
    fixed: &[u8],
    variable: &[Var],
    tagged: &[(u16, Option<u8>, Vec<u8>)],
) -> Vec<u8> {
    let mut out: Vec<u8> = Vec::new();
    out.push(last_fixed);
    out.push(if variable.is_empty() { 127 } else { 127 + variable.len() as u8 });
    let variable_offset = 4 + bitmap.len() + fixed.len();
    out.extend_from_slice(&(variable_offset as u16).to_le_bytes());
    out.extend_from_slice(bitmap);
    out.extend_from_slice(fixed);
    let mut end: u16 = 0;
    let mut data: Vec<u8> = Vec::new();
    for v in variable {
        match v {
            Var::Null => out.extend_from_slice(&(end | 0x8000).to_le_bytes()),
            Var::Bytes(b) => {
                end += b.len() as u16;
                data.extend_from_slice(b);
                out.extend_from_slice(&end.to_le_bytes());
            }
        }
    }
    out.extend_from_slice(&data);
    if !tagged.is_empty() {
        let mut offset: u16 = 4 * (tagged.len() as u16 + 1);
        let mut values: Vec<u8> = Vec::new();
        for (id, flags, payload) in tagged {
            out.extend_from_slice(&id.to_le_bytes());
            let word = offset | if flags.is_some() { 0x4000 } else { 0 };
            out.extend_from_slice(&word.to_le_bytes());
            if let Some(f) = flags {
                values.push(*f);
                offset += 1;
            }
            values.extend_from_slice(payload);
            offset += payload.len() as u16;
        }
        out.extend_from_slice(&0u16.to_le_bytes());
        out.extend_from_slice(&offset.to_le_bytes());
        out.extend_from_slice(&values);
    }
    out
}

fn value<'a>(rec: &'a Record, id: u32) -> &'a ColumnValue {
    rec.get(id).expect("the column is present")
}

fn text(cp: CodePage, s: &str) -> ColumnValue {
    ColumnValue::Text(cp, s.encode_utf16().collect())
}

#[test]
fn decodes_fixed_and_variable_columns() {
    let mut fixed = Vec::new();
    fixed.extend_from_slice(&(-7i32).to_le_bytes());
    fixed.push(1);
    let bytes = encode(
        2,
        &[0b11],
        &fixed,
        &[Var::Bytes(b"abc".to_vec()), Var::Bytes(vec![9, 8])],
        &[],
    );
    let rec = decode_record(&sample_schema(), &bytes).unwrap();
    assert_eq!(rec.len(), 4);
    assert_eq!(value(&rec, 1), &ColumnValue::Int32(-7));
    assert_eq!(value(&rec, 2), &ColumnValue::Bool(true));
    assert_eq!(value(&rec, 128), &text(CodePage::Ascii, "abc"));
    assert_eq!(value(&rec, 129), &ColumnValue::Binary(vec![9, 8]));
    assert_eq!(rec.get(256), None);
}

#[test]
fn fixed_column_without_presence_bit_is_null_whatever_its_bytes() {
    let mut fixed = Vec::new();
    fixed.extend_from_slice(&0x1234_5678u32.to_le_bytes());
    fixed.push(0xff);
    let bytes = encode(2, &[0b10], &fixed, &[], &[]);
    let rec = decode_record(&sample_schema(), &bytes).unwrap();
    assert_eq!(value(&rec, 1), &ColumnValue::Null);
    assert_eq!(value(&rec, 2), &ColumnValue::Bool(true));
}

#[test]
fn fixed_column_beyond_the_stored_count_is_null() {
    let bytes = encode(1, &[0b1], &5i32.to_le_bytes(), &[], &[]);
    let rec = decode_record(&sample_schema(), &bytes).unwrap();
    assert_eq!(rec.len(), 2);
    assert_eq!(value(&rec, 1), &ColumnValue::Int32(5));
    assert_eq!(value(&rec, 2), &ColumnValue::Null);
}

#[test]
fn empty_variable_value_differs_from_null_and_from_absent() {
    let schema = sample_schema();
    let empty = encode(0, &[], &[], &[Var::Bytes(Vec::new())], &[]);
    let rec = decode_record(&schema, &empty).unwrap();
    assert_eq!(value(&rec, 128), &ColumnValue::Text(CodePage::Ascii, Vec::new()));
    assert_eq!(rec.get(129), None);

    let null = encode(0, &[], &[], &[Var::Null, Var::Bytes(vec![1])], &[]);
    let rec = decode_record(&schema, &null).unwrap();
    assert_eq!(value(&rec, 128), &ColumnValue::Null);
    assert_eq!(value(&rec, 129), &ColumnValue::Binary(vec![1]));

    let absent = encode(0, &[], &[], &[], &[]);
    let rec = decode_record(&schema, &absent).unwrap();
    assert_eq!(rec.get(128), None);
    assert_eq!(rec.get(129), None);
    assert_eq!(value(&rec, 1), &ColumnValue::Null);
}

#[test]
fn decodes_multi_valued_tagged_column_in_stored_order() {
    let mut payload = Vec::new();
    payload.extend_from_slice(&2u16.to_le_bytes());
    payload.extend_from_slice(&300i16.to_le_bytes());
    payload.extend_from_slice(&2u16.to_le_bytes());
    payload.extend_from_slice(&(-2i16).to_le_bytes());
    let bytes = encode(0, &[], &[], &[], &[(256, Some(0x08), payload)]);
    let rec = decode_record(&sample_schema(), &bytes).unwrap();
    assert_eq!(
        value(&rec, 256),
        &ColumnValue::MultiValue(vec![ColumnValue::Int16(300), ColumnValue::Int16(-2)])
    );
    match value(&rec, 256) {
        ColumnValue::MultiValue(items) => assert_eq!(items.len(), 2),
        other => panic!("not a multi-value: {:?}", other),
    }
}

#[test]
fn decodes_long_value_reference_and_plain_tagged_values() {
    let title: Vec<u8> = "hé".encode_utf16().flat_map(|u| u.to_le_bytes()).collect();
    let bytes = encode(
        0,
        &[],
        &[],
        &[],
        &[
            (256, None, 12i16.to_le_bytes().to_vec()),
            (257, Some(0x04), 0x0000_0102u32.to_le_bytes().to_vec()),
            (258, None, title),
        ],
    );
    let rec = decode_record(&sample_schema(), &bytes).unwrap();
    assert_eq!(value(&rec, 256), &ColumnValue::Int16(12));
    assert_eq!(value(&rec, 257), &ColumnValue::LongValueRef(0x102));
    assert_eq!(value(&rec, 258), &text(CodePage::Unicode, "hé"));
}

#[test]
fn tagged_value_without_bytes_is_null() {
    let bytes = encode(0, &[], &[], &[], &[(256, None, Vec::new()), (257, None, vec![1, 2])]);
    let rec = decode_record(&sample_schema(), &bytes).unwrap();
    assert_eq!(value(&rec, 256), &ColumnValue::Null);
    assert_eq!(value(&rec, 257), &ColumnValue::Binary(vec![1, 2]));
    assert_eq!(rec.get(258), None);
}

#[test]
fn fields_come_in_section_order() {
    let bytes = encode(
        1,
        &[0b1],
        &1i32.to_le_bytes(),
        &[Var::Bytes(b"x".to_vec())],
        &[(257, None, vec![7])],
    );
    let rec = decode_record(&sample_schema(), &bytes).unwrap();
    let ids: Vec<u32> = rec.fields.iter().map(|f| f.column_id).collect();
    assert_eq!(ids, vec![1, 2, 128, 257]);
}

#[test]
fn variable_offset_past_the_buffer_is_a_decode_error() {
    let mut bytes = encode(0, &[], &[], &[Var::Bytes(b"abcdef".to_vec())], &[]);
    bytes.truncate(bytes.len() - 1);
    assert_eq!(decode_record(&sample_schema(), &bytes), Err(EseError::RecordDecode));
    // Every truncation of a sound record is either decoded or reported.
    let sound = encode(
        2,
        &[0b11],
        &[1, 0, 0, 0, 1],
        &[Var::Bytes(b"abc".to_vec()), Var::Bytes(vec![1, 2, 3])],
        &[(256, None, vec![1, 0])],
    );
    for cut in 0..sound.len() {
        match decode_record(&sample_schema(), &sound[..cut]) {
            Ok(_) => {}
            Err(e) => assert_eq!(e, EseError::RecordDecode),
        }
    }
    // The offset table of the second record claims bytes that are not there.
    let mut claim = encode(0, &[], &[], &[Var::Bytes(vec![1, 2])], &[]);
    claim[4] = 0x40;
    assert_eq!(decode_record(&sample_schema(), &claim), Err(EseError::RecordDecode));
}

#[test]
fn descending_variable_offsets_are_a_decode_error() {
    let mut bytes = encode(0, &[], &[], &[Var::Bytes(vec![1, 2, 3]), Var::Bytes(vec![4])], &[]);
    // entries are 3 and 4: make the second one 2
    bytes[6] = 2;
    assert_eq!(decode_record(&sample_schema(), &bytes), Err(EseError::RecordDecode));
    assert!(parse_layout(&bytes).is_err());
}

#[test]
fn short_or_overlapping_header_is_a_decode_error() {
    let schema = sample_schema();
    assert_eq!(decode_record(&schema, &[]), Err(EseError::RecordDecode));
    assert_eq!(decode_record(&schema, &[0, 127, 4]), Err(EseError::RecordDecode));
    // two fixed columns need a bitmap byte: the variable section cannot start at 4
    assert_eq!(decode_record(&schema, &[2, 127, 4, 0, 0xff]), Err(EseError::RecordDecode));
    // a fixed column that ends behind the variable offset
    assert_eq!(decode_record(&schema, &[1, 127, 6, 0, 0x01, 9]), Err(EseError::RecordDecode));
}

#[test]
fn tagged_table_without_end_marker_is_a_decode_error() {
    let mut bytes = encode(0, &[], &[], &[], &[(256, None, vec![1, 0])]);
    let marker = bytes.len() - 2 - 4;
    bytes[marker] = 0x01;
    bytes[marker + 1] = 0x01;
    assert_eq!(decode_record(&sample_schema(), &bytes), Err(EseError::RecordDecode));
}

#[test]
fn tagged_offsets_outside_the_section_are_a_decode_error() {
    let mut bytes = encode(0, &[], &[], &[], &[(256, None, vec![1, 0])]);
    let n = bytes.len();
    // the offset of the end marker points past the buffer
    bytes[n - 4] = 0xff;
    assert_eq!(decode_record(&sample_schema(), &bytes), Err(EseError::RecordDecode));
}

#[test]
fn truncated_multi_value_is_a_decode_error() {
    let payload = vec![2, 0, 1, 0, 2, 0, 9];
    let bytes = encode(0, &[], &[], &[], &[(256, Some(0x08), payload)]);
    assert_eq!(decode_record(&sample_schema(), &bytes), Err(EseError::RecordDecode));
}

#[test]
fn value_of_wrong_width_is_a_decode_error() {
    assert_eq!(
        decode_value(ColumnType::Long, CodePage::Other(0), &[1, 2, 3]),
        Err(EseError::RecordDecode)
    );
    assert_eq!(
        decode_value(ColumnType::Text, CodePage::Unicode, &[0x61, 0, 0x62]),
        Err(EseError::RecordDecode)
    );
}

#[test]
fn decodes_each_numeric_type() {
    let none = CodePage::Other(0);
    assert_eq!(decode_value(ColumnType::Bit, none, &[0]), Ok(ColumnValue::Bool(false)));
    assert_eq!(decode_value(ColumnType::UnsignedByte, none, &[200]), Ok(ColumnValue::UInt8(200)));
    assert_eq!(decode_value(ColumnType::Short, none, &[0xfe, 0xff]), Ok(ColumnValue::Int16(-2)));
    assert_eq!(
        decode_value(ColumnType::UnsignedShort, none, &[0xfe, 0xff]),
        Ok(ColumnValue::UInt16(0xfffe))
    );
    assert_eq!(
        decode_value(ColumnType::Long, none, &[0x78, 0x56, 0x34, 0x12]),
        Ok(ColumnValue::Int32(0x1234_5678))
    );
    assert_eq!(
        decode_value(ColumnType::UnsignedLong, none, &[0xff, 0xff, 0xff, 0xff]),
        Ok(ColumnValue::UInt32(u32::MAX))
    );
    assert_eq!(
        decode_value(ColumnType::LongLong, none, &(-5i64).to_le_bytes()),
        Ok(ColumnValue::Int64(-5))
    );
    assert_eq!(
        decode_value(ColumnType::Currency, none, &123_456i64.to_le_bytes()),
        Ok(ColumnValue::Int64(123_456))
    );
    assert_eq!(
        decode_value(ColumnType::DateTime, none, &0x01d0_0000_0000_0001u64.to_le_bytes()),
        Ok(ColumnValue::DateTime(0x01d0_0000_0000_0001))
    );
    let single = decode_value(ColumnType::IeeeSingle, none, &1.5f32.to_le_bytes()).unwrap();
    match single {
        ColumnValue::Float32(bits) => assert_eq!(f32::from_bits(bits), 1.5f32),
        other => panic!("not a single: {:?}", other),
    }
    let double = decode_value(ColumnType::IeeeDouble, none, &(-0.25f64).to_le_bytes()).unwrap();
    match double {
        ColumnValue::Float64(bits) => assert_eq!(f64::from_bits(bits), -0.25f64),
        other => panic!("not a double: {:?}", other),
    }
}

#[test]
fn decodes_guid_and_binary() {
    let bytes: [u8; 16] = [
        0x04, 0x03, 0x02, 0x01, 0x06, 0x05, 0x08, 0x07, 0x09, 0x0a, 0x0b, 0x0c, 0x0d, 0x0e, 0x0f,
        0x10,
    ];
    assert_eq!(
        decode_value(ColumnType::Guid, CodePage::Other(0), &bytes),
        Ok(ColumnValue::Guid(Guid {
            data1: 0x0102_0304,
            data2: 0x0506,
            data3: 0x0708,
            data4: 0x090a_0b0c_0d0e_0f10,
        }))
    );
    assert_eq!(
        decode_value(ColumnType::Binary, CodePage::Other(0), &[1, 2, 3]),
        Ok(ColumnValue::Binary(vec![1, 2, 3]))
    );
    assert_eq!(
        decode_value(ColumnType::Text, CodePage::Ansi, &[0x41, 0xe9]),
        Ok(ColumnValue::Text(CodePage::Ansi, vec![0x41, 0xe9]))
    );
}

#[test]
fn round_trips_a_record_with_every_section() {
    let mut fixed = Vec::new();
    fixed.extend_from_slice(&42i32.to_le_bytes());
    fixed.push(0);
    let mut multi = Vec::new();
    for v in [1i16, 2, 3] {
        multi.extend_from_slice(&2u16.to_le_bytes());
        multi.extend_from_slice(&v.to_le_bytes());
    }
    let bytes = encode(
        2,
        &[0b11],
        &fixed,
        &[Var::Bytes(b"name".to_vec()), Var::Null],
        &[(256, Some(0x08), multi), (257, None, vec![0xde, 0xad])],
    );
    let rec = decode_record(&sample_schema(), &bytes).unwrap();
    let expected = vec![
        (1, ColumnValue::Int32(42)),
        (2, ColumnValue::Bool(false)),
        (128, text(CodePage::Ascii, "name")),
        (129, ColumnValue::Null),
        (
            256,
            ColumnValue::MultiValue(vec![
                ColumnValue::Int16(1),
                ColumnValue::Int16(2),
                ColumnValue::Int16(3),
            ]),
        ),
        (257, ColumnValue::Binary(vec![0xde, 0xad])),
    ];
    assert_eq!(rec.len(), expected.len());
    for (field, (id, v)) in rec.fields.iter().zip(expected.iter()) {
        assert_eq!(field.column_id, *id);
        assert_eq!(&field.value, v);
    }
}

#[test]
fn columns_are_found_by_identifier_where_the_schema_skips_some() {
    let schema = TableSchema {
        table_id: 1,
        name: b"S".to_vec(),
        root_page: 5,
        long_value_root: None,
        fixed: vec![
            column(2, "b", ColumnType::UnsignedByte, 1, 0, CodePage::Other(0)),
            column(9, "i", ColumnType::UnsignedShort, 2, 1, CodePage::Other(0)),
        ],
        variable: vec![
            column(129, "second", ColumnType::Binary, 255, 0, CodePage::Other(0)),
            column(131, "fourth", ColumnType::Text, 255, 0, CodePage::Unicode),
        ],
        tagged: vec![
            column(300, "t", ColumnType::UnsignedLong, 0, 0, CodePage::Other(0)),
            column(400, "u", ColumnType::Binary, 0, 0, CodePage::Other(0)),
        ],
    };
    // nine fixed columns stored: bits of the columns 2 and 9 set
    let bytes = encode(
        9,
        &[0b0000_0010, 0b0000_0001],
        &[7, 0x34, 0x12],
        &[
            Var::Bytes(b"first".to_vec()),
            Var::Bytes(vec![1, 2]),
            Var::Null,
            Var::Bytes(vec![0x61, 0, 0x62, 0]),
        ],
        &[(256, None, vec![9]), (400, Some(0), Vec::new()), (500, None, vec![1])],
    );
    let rec = decode_record(&schema, &bytes).unwrap();
    let ids: Vec<u32> = rec.fields.iter().map(|f| f.column_id).collect();
    assert_eq!(ids, vec![2, 9, 129, 131, 400]);
    assert_eq!(value(&rec, 2), &ColumnValue::UInt8(7));
    assert_eq!(value(&rec, 9), &ColumnValue::UInt16(0x1234));
    assert_eq!(value(&rec, 129), &ColumnValue::Binary(vec![1, 2]));
    assert_eq!(value(&rec, 131), &text(CodePage::Unicode, "ab"));
    // stored behind an empty flags byte, the value is empty, not null
    assert_eq!(value(&rec, 400), &ColumnValue::Binary(Vec::new()));
    assert_eq!(rec.get(300), None);
}

#[test]
fn multi_valued_long_values_are_references() {
    let mut payload = Vec::new();
    for key in [5u32, 6] {
        payload.extend_from_slice(&4u16.to_le_bytes());
        payload.extend_from_slice(&key.to_le_bytes());
    }
    let bytes = encode(0, &[], &[], &[], &[(257, Some(0x0c), payload)]);
    let rec = decode_record(&sample_schema(), &bytes).unwrap();
    assert_eq!(
        value(&rec, 257),
        &ColumnValue::MultiValue(vec![ColumnValue::LongValueRef(5), ColumnValue::LongValueRef(6)])
    );
    // a reference needs exactly four bytes
    let bytes = encode(0, &[], &[], &[], &[(257, Some(0x04), vec![1, 2, 3])]);
    assert_eq!(decode_record(&sample_schema(), &bytes), Err(EseError::RecordDecode));
    // a flags byte needs a value behind the table
    let bytes = encode(0, &[], &[], &[], &[(257, None, Vec::new())]);
    let mut flagged = bytes.clone();
    let word = flagged.len() - 8 + 2;
    flagged[word + 1] |= 0x40;
    assert_eq!(decode_record(&sample_schema(), &flagged), Err(EseError::RecordDecode));
}

#[test]
fn values_rows_and_schemas_are_copied_whole() {
    let deep = ColumnValue::MultiValue(vec![
        ColumnValue::Binary(vec![1, 2]),
        ColumnValue::MultiValue(vec![text(CodePage::Unicode, "x"), ColumnValue::Null]),
        ColumnValue::LongValue(vec![9]),
    ]);
    assert_eq!(deep.clone(), deep);
    let bytes = encode(
        1,
        &[0b1],
        &1i32.to_le_bytes(),
        &[Var::Bytes(b"x".to_vec())],
        &[(257, None, vec![7])],
    );
    let rec = decode_record(&sample_schema(), &bytes).unwrap();
    assert_eq!(rec.clone(), rec);
    assert_eq!(sample_schema().clone(), sample_schema());
}
