use ese_rs::catalog::{build_catalog, catalog_schema, CatalogEntry};
use ese_rs::constants::{CodePage, ColumnType};
use ese_rs::cursor::{
    find_edge_leaf, find_further_leaf, gather_segments, make_value_key, Unresolved, find_first_leaf, find_position, key_at_most, search_page, CursorState,
    Direction, PageSource, TableCursor,
};
use ese_rs::database::Database;
use ese_rs::error::EseError;
use ese_rs::page::{decode_page, PageFormat, PageKind};
use ese_rs::types::{ColumnValue, Field, Record};

const PAGE_SIZE: usize = 2048;
const REVISION: u32 = 0x0c;
const ROOT: u32 = 0x01;
const LEAF: u32 = 0x02;
const PARENT: u32 = 0x04;
const LONG_VALUE: u32 = 0x80;

fn put16(bytes: &mut [u8], at: usize, v: u16) {
    bytes[at..at + 2].copy_from_slice(&v.to_le_bytes());
}

fn put32(bytes: &mut [u8], at: usize, v: u32) {
    bytes[at..at + 4].copy_from_slice(&v.to_le_bytes());
}

fn xor32(bytes: &[u8], first: usize) -> u32 {
    let mut acc: u32 = 0x89ab_cdef;
    let mut at = first;
    while at + 4 <= bytes.len() {
        acc ^= u32::from_le_bytes([bytes[at], bytes[at + 1], bytes[at + 2], bytes[at + 3]]);
        at += 4;
    }
    acc
}

fn file_header() -> Vec<u8> {
    let mut h = vec![0u8; PAGE_SIZE];
    put32(&mut h, 4, 0x89ab_cdef);
    put32(&mut h, 8, 0x620);
    put32(&mut h, 52, 3);
    put32(&mut h, 232, REVISION);
    put32(&mut h, 236, PAGE_SIZE as u32);
    let sum = xor32(&h, 4);
    put32(&mut h, 0, sum);
    h
}

/// The bytes of a node without shared key prefix.
fn node(key: &[u8], data: &[u8]) -> Vec<u8> {
    let mut out = Vec::new();
    out.extend_from_slice(&(key.len() as u16).to_le_bytes());
    out.extend_from_slice(key);
    out.extend_from_slice(data);
    out
}

/// The bytes of a node whose key starts with `shared` bytes of the prefix.
fn prefixed_node(shared: u16, key: &[u8], data: &[u8]) -> Vec<u8> {
    let mut out = Vec::new();
    out.extend_from_slice(&shared.to_le_bytes());
    out.extend_from_slice(&(key.len() as u16).to_le_bytes());
    out.extend_from_slice(key);
    out.extend_from_slice(data);
    out
}

/// A page: the shared key prefix (the root header on a root page), then the
/// nodes with their tag flags.
fn page(flags: u32, next: u32, prefix: &[u8], nodes: &[(u8, Vec<u8>)]) -> Vec<u8> {
    let mut p = vec![0u8; PAGE_SIZE];
    let mut chunks: Vec<(u8, &[u8])> = vec![(0, prefix)];
    for (f, n) in nodes {
        chunks.push((*f, n.as_slice()));
    }
    let mut offset = 0usize;
    for (i, (f, bytes)) in chunks.iter().enumerate() {
        p[40 + offset..40 + offset + bytes.len()].copy_from_slice(bytes);
        let pos = PAGE_SIZE - 4 * (i + 1);
        put16(&mut p, pos, bytes.len() as u16);
        put16(&mut p, pos + 2, offset as u16 | ((*f as u16) << 13));
        offset += bytes.len();
    }
    put32(&mut p, 20, next);
    put16(&mut p, 32, offset as u16);
    put16(&mut p, 34, nodes.len() as u16);
    put32(&mut p, 36, flags);
    let sum = xor32(&p, 8);
    put32(&mut p, 0, sum);
    p
}

fn plain(nodes: Vec<Vec<u8>>) -> Vec<(u8, Vec<u8>)> {
    nodes.into_iter().map(|n| (0u8, n)).collect()
}

/// The file: the header twice, then the pages by number from 1.
fn image(pages: &[(u32, Vec<u8>)]) -> Vec<u8> {
    let last = pages.iter().map(|(n, _)| *n).max().unwrap_or(0) as usize;
    let mut file = vec![0u8; (last + 2) * PAGE_SIZE];
    let header = file_header();
    file[..PAGE_SIZE].copy_from_slice(&header);
    file[PAGE_SIZE..2 * PAGE_SIZE].copy_from_slice(&header);
    for (n, p) in pages {
        let at = (*n as usize + 1) * PAGE_SIZE;
        file[at..at + PAGE_SIZE].copy_from_slice(p);
    }
    file
}

/// A record with `fixed` bytes for the first `last_fixed` fixed columns, all
/// present, the given variable values and tagged entries.
fn record(
    last_fixed: u8,
    fixed: &[u8],
    variable: &[&[u8]],
    tagged: &[(u16, Option<u8>, Vec<u8>)],
) -> Vec<u8> {
    let mut out: Vec<u8> = Vec::new();
    out.push(last_fixed);
    out.push(127 + variable.len() as u8);
    let bitmap = vec![0xffu8; (last_fixed as usize + 7) / 8];
    out.extend_from_slice(&((4 + bitmap.len() + fixed.len()) as u16).to_le_bytes());
    out.extend_from_slice(&bitmap);
    out.extend_from_slice(fixed);
    let mut end: u16 = 0;
    for v in variable {
        end += v.len() as u16;
        out.extend_from_slice(&end.to_le_bytes());
    }
    for v in variable {
        out.extend_from_slice(v);
    }
    if !tagged.is_empty() {
        let mut offset: u16 = 4 * (tagged.len() as u16 + 1);
        let mut values: Vec<u8> = Vec::new();
        for (id, flags, payload) in tagged {
            out.extend_from_slice(&id.to_le_bytes());
            out.extend_from_slice(&(offset | if flags.is_some() { 0x4000 } else { 0 }).to_le_bytes());
            if let Some(f) = flags {
                values.push(*f);
                offset += 1;
            }
            values.extend_from_slice(payload);
            offset += payload.len() as u16;
        }
        out.extend_from_slice(&0u16.to_le_bytes());
        out.extend_from_slice(&offset.to_le_bytes());
        out.extend_from_slice(&values);
    }
    out
}

/// One row of the catalog.
fn catalog_row(table: u32, kind: u16, id: u32, word: u32, size: u32, locale: u32, name: &[u8]) -> Vec<u8> {
    let mut fixed = Vec::new();
    fixed.extend_from_slice(&table.to_le_bytes());
    fixed.extend_from_slice(&kind.to_le_bytes());
    fixed.extend_from_slice(&id.to_le_bytes());
    fixed.extend_from_slice(&word.to_le_bytes());
    fixed.extend_from_slice(&size.to_le_bytes());
    fixed.extend_from_slice(&0u32.to_le_bytes());
    fixed.extend_from_slice(&locale.to_le_bytes());
    record(7, &fixed, &[name], &[])
}

fn table_row(id: u32, root: u32, name: &[u8]) -> Vec<u8> {
    catalog_row(id, 1, id, root, 0, 0, name)
}

fn column_row(table: u32, id: u32, ty: u32, size: u32, locale: u32, name: &[u8]) -> Vec<u8> {
    catalog_row(table, 2, id, ty, size, locale, name)
}

fn catalog_page(rows: Vec<Vec<u8>>) -> Vec<u8> {
    let nodes: Vec<Vec<u8>> =
        rows.iter().enumerate().map(|(i, r)| node(&(i as u32).to_be_bytes(), r)).collect();
    page(ROOT | LEAF, 0, &[0u8; 16], &plain(nodes))
}

/// Table "T" (object 10, root page 5) with id: Int32 and name: Text/ASCII.
fn people_catalog() -> Vec<Vec<u8>> {
    vec![
        table_row(10, 5, b"T"),
        column_row(10, 1, 4, 4, 0, b"id"),
        column_row(10, 128, 10, 255, 20127, b"name"),
    ]
}

fn person(id: i32, name: &[u8]) -> Vec<u8> {
    record(1, &id.to_le_bytes(), &[name], &[])
}

fn people_image() -> Vec<u8> {
    let rows = vec![
        node(&[0, 0, 0, 1], &person(1, b"a")),
        node(&[0, 0, 0, 2], &person(2, b"b")),
        node(&[0, 0, 0, 3], &person(3, b"c")),
    ];
    image(&[(4, catalog_page(people_catalog())), (5, page(ROOT | LEAF, 0, &[0u8; 16], &plain(rows)))])
}

fn ascii(s: &str) -> ColumnValue {
    ColumnValue::Text(CodePage::Ascii, s.bytes().map(|b| b as u16).collect())
}

fn row_values(rec: &Record) -> Vec<(u32, &ColumnValue)> {
    rec.fields.iter().map(|f| (f.column_id, &f.value)).collect()
}

#[test]
fn yields_three_rows_in_key_order_then_none() {
    let db = Database::from_bytes(people_image()).unwrap();
    assert_eq!(db.checksum_error, None);
    let mut cursor = db.open_table(b"T").unwrap();
    assert_eq!(cursor.state(), CursorState::BeforeFirst);
    for (id, name) in [(1, "a"), (2, "b"), (3, "c")] {
        let rec = cursor.next_row().unwrap().expect("a row");
        assert_eq!(row_values(&rec), vec![(1, &ColumnValue::Int32(id)), (128, &ascii(name))]);
    }
    assert_eq!(cursor.next_row(), Ok(None));
}

#[test]
fn exhausted_cursor_stays_exhausted() {
    let db = Database::from_bytes(people_image()).unwrap();
    let mut cursor = db.open_table(b"T").unwrap();
    let mut rows = 0;
    while let Some(_) = cursor.next_row().unwrap() {
        rows += 1;
    }
    assert_eq!(rows, 3);
    assert_eq!(cursor.state(), CursorState::Exhausted);
    for _ in 0..5 {
        assert_eq!(cursor.next_row(), Ok(None));
        assert_eq!(cursor.state(), CursorState::Exhausted);
    }
}

#[test]
fn cursor_behind_the_last_row_yields_nothing() {
    let db = Database::from_bytes(people_image()).unwrap();
    let mut cursor = db.open_table(b"T").unwrap();
    cursor.state = CursorState::AfterLast;
    assert_eq!(cursor.next_row(), Ok(None));
    assert_eq!(cursor.state(), CursorState::Exhausted);
}

#[test]
fn catalog_lists_tables_and_columns() {
    let db = Database::from_bytes(people_image()).unwrap();
    assert_eq!(db.table_names(), vec![b"T".to_vec()]);
    assert_eq!(db.catalog.len(), 3);
    assert_eq!(
        db.catalog.entries[0],
        CatalogEntry::Table { object_id: 10, name: b"T".to_vec(), root_page: 5, flags: 0 }
    );
    assert_eq!(
        db.catalog.entries[2],
        CatalogEntry::Column {
            table_id: 10,
            column_id: 128,
            name: b"name".to_vec(),
            column_type: ColumnType::Text,
            size: 255,
            flags: 0,
            code_page: CodePage::Ascii,
            default_value: Vec::new(),
        }
    );
    let schema = db.catalog.table_schema(b"T").unwrap();
    assert_eq!(schema.table_id, 10);
    assert_eq!(schema.root_page, 5);
    assert_eq!(schema.fixed.len(), 1);
    assert_eq!(schema.variable.len(), 1);
    assert_eq!(schema.tagged.len(), 0);
    assert_eq!(schema.find_column(b"name").unwrap().id, 128);
    assert_eq!(schema.find_column(b"id").unwrap().column_type, ColumnType::Long);
    assert_eq!(schema.find_column(b"Name"), Err(EseError::ColumnNotFound));
}

#[test]
fn catalog_build_is_deterministic() {
    let file = people_image();
    let source = PageSource {
        data: &file,
        format: PageFormat { page_size: PAGE_SIZE as u32, revision: REVISION },
    };
    let first = build_catalog(&source).unwrap();
    let second = build_catalog(&source).unwrap();
    assert_eq!(first, second);
    assert_eq!(first.table_schema(b"T").unwrap(), second.table_schema(b"T").unwrap());
}

#[test]
fn table_names_match_exactly() {
    let db = Database::from_bytes(people_image()).unwrap();
    assert_eq!(db.open_table(b"t").err(), Some(EseError::TableNotFound));
    assert_eq!(db.open_table(b"T ").err(), Some(EseError::TableNotFound));
    assert_eq!(db.open_table(b"").err(), Some(EseError::TableNotFound));
    assert_eq!(db.catalog.find_table(b"T"), Some(0));
    assert_eq!(db.catalog.find_table(b"U"), None);
}

#[test]
fn fixed_offsets_follow_the_declared_sizes() {
    let rows = vec![
        table_row(10, 5, b"T"),
        column_row(10, 1, 4, 4, 0, b"a"),
        column_row(10, 2, 3, 2, 0, b"b"),
        column_row(10, 3, 15, 8, 0, b"c"),
        column_row(10, 256, 11, 0, 0, b"blob"),
    ];
    let file = image(&[(4, catalog_page(rows)), (5, page(ROOT | LEAF, 0, &[0u8; 16], &[]))]);
    let db = Database::from_bytes(file).unwrap();
    let schema = db.catalog.table_schema(b"T").unwrap();
    let offsets: Vec<u32> = schema.fixed.iter().map(|c| c.offset).collect();
    assert_eq!(offsets, vec![0, 4, 6]);
    assert_eq!(schema.tagged.len(), 1);
    assert_eq!(schema.tagged[0].column_type, ColumnType::LongBinary);
}

#[test]
fn walks_branch_pages_and_sibling_leaves() {
    let leaf6 = page(
        LEAF,
        7,
        &[],
        &plain(vec![node(&[0, 1], &person(1, b"a")), node(&[0, 2], &person(2, b"b"))]),
    );
    // an empty leaf between the two
    let leaf7 = page(LEAF, 8, &[], &[]);
    let leaf8 = page(LEAF, 0, &[], &plain(vec![node(&[0, 3], &person(3, b"c"))]));
    let root = page(
        ROOT | PARENT,
        0,
        &[0u8; 16],
        &plain(vec![
            node(&[0, 2], &6u32.to_le_bytes()),
            node(&[0, 2], &7u32.to_le_bytes()),
            node(&[], &8u32.to_le_bytes()),
        ]),
    );
    let file = image(&[
        (4, catalog_page(people_catalog())),
        (5, root),
        (6, leaf6),
        (7, leaf7),
        (8, leaf8),
    ]);
    let db = Database::from_bytes(file).unwrap();
    assert_eq!(find_first_leaf(&db.source(), 5, 10), Ok(6));
    assert_eq!(find_first_leaf(&db.source(), 5, 1), Err(EseError::Format));
    let mut cursor = db.open_table(b"T").unwrap();
    let mut ids = Vec::new();
    while let Some(rec) = cursor.next_row().unwrap() {
        ids.push(id_of(&rec));
    }
    assert_eq!(ids, vec![1, 2, 3]);
}

/// The number in the `id` column of a row of the people table.
fn id_of(rec: &Record) -> i32 {
    match rec.get(1) {
        Some(ColumnValue::Int32(v)) => *v,
        other => panic!("not an Int32: {:?}", other),
    }
}

#[test]
fn multi_valued_column_yields_two_values_in_stored_order() {
    let rows = vec![
        table_row(10, 5, b"T"),
        column_row(10, 1, 4, 4, 0, b"id"),
        column_row(10, 256, 10, 0, 20127, b"alias"),
    ];
    let mut multi = Vec::new();
    for s in [b"x1".as_slice(), b"yy2".as_slice()] {
        multi.extend_from_slice(&(s.len() as u16).to_le_bytes());
        multi.extend_from_slice(s);
    }
    let row = record(1, &9i32.to_le_bytes(), &[], &[(256, Some(0x08), multi)]);
    let file = image(&[
        (4, catalog_page(rows)),
        (5, page(ROOT | LEAF, 0, &[0u8; 16], &plain(vec![node(&[1], &row)]))),
    ]);
    let db = Database::from_bytes(file).unwrap();
    let mut cursor = db.open_table(b"T").unwrap();
    let rec = cursor.next_row().unwrap().unwrap();
    match rec.get(256) {
        Some(ColumnValue::MultiValue(items)) => {
            assert_eq!(items.len(), 2);
            assert_eq!(items[0], ascii("x1"));
            assert_eq!(items[1], ascii("yy2"));
        }
        other => panic!("not a multi-value: {:?}", other),
    }
    assert_eq!(cursor.next_row(), Ok(None));
}

fn long_value_image() -> Vec<u8> {
    let rows = vec![
        table_row(10, 5, b"T"),
        column_row(10, 1, 4, 4, 0, b"id"),
        column_row(10, 256, 11, 0, 0, b"body"),
        catalog_row(10, 4, 11, 6, 0, 0, b"LV"),
    ];
    let row = record(1, &1i32.to_le_bytes(), &[], &[(256, Some(0x04), 7u32.to_le_bytes().to_vec())]);
    let mut key_a = 7u32.to_be_bytes().to_vec();
    key_a.extend_from_slice(&0u32.to_be_bytes());
    let mut key_b = 7u32.to_be_bytes().to_vec();
    key_b.extend_from_slice(&5u32.to_be_bytes());
    let mut other = 8u32.to_be_bytes().to_vec();
    other.extend_from_slice(&0u32.to_be_bytes());
    let mut size = 1u32.to_le_bytes().to_vec();
    size.extend_from_slice(&9u32.to_le_bytes());
    // the first leaf holds the head of value 7 and its first segment, the
    // second leaf its second segment and a segment of value 8
    let lv_leaf1 = page(
        LEAF | LONG_VALUE,
        8,
        &[],
        &plain(vec![node(&7u32.to_be_bytes(), &size), node(&key_a, b"hello")]),
    );
    let lv_leaf2 = page(
        LEAF | LONG_VALUE,
        0,
        &[],
        &plain(vec![node(&key_b, b" you"), node(&other, b"other")]),
    );
    let lv_root = page(
        ROOT | PARENT | LONG_VALUE,
        0,
        &[0u8; 16],
        &plain(vec![node(&[], &7u32.to_le_bytes()), node(&key_b, &8u32.to_le_bytes())]),
    );
    image(&[
        (4, catalog_page(rows)),
        (5, page(ROOT | LEAF, 0, &[0u8; 16], &plain(vec![node(&[1], &row)]))),
        (6, lv_root),
        (7, lv_leaf1),
        (8, lv_leaf2),
    ])
}

#[test]
fn long_value_is_the_concatenation_of_its_segments() {
    let db = Database::from_bytes(long_value_image()).unwrap();
    let mut cursor = db.open_table(b"T").unwrap();
    assert_eq!(cursor.schema.long_value_root, Some(6));
    let rec = cursor.next_row().unwrap().unwrap();
    assert_eq!(rec.get(256), Some(&ColumnValue::LongValueRef(7)));
    assert_eq!(cursor.resolve_long_value(7), Ok(b"hello you".to_vec()));
    assert_eq!(cursor.resolve_long_value(8), Ok(b"other".to_vec()));
    assert_eq!(
        cursor.resolve(ColumnValue::LongValueRef(7)),
        Ok(ColumnValue::LongValue(b"hello you".to_vec()))
    );
    assert_eq!(cursor.resolve(ColumnValue::Int32(3)), Ok(ColumnValue::Int32(3)));
}

#[test]
fn unknown_long_value_is_reported() {
    let db = Database::from_bytes(long_value_image()).unwrap();
    let cursor = db.open_table(b"T").unwrap();
    assert_eq!(cursor.resolve_long_value(9), Err(EseError::RecordDecode));
    assert_eq!(cursor.resolve_long_value(6), Err(EseError::RecordDecode));
    assert_eq!(cursor.resolve_long_value(0), Err(EseError::RecordDecode));
    let plain_db = Database::from_bytes(people_image()).unwrap();
    let plain_cursor = plain_db.open_table(b"T").unwrap();
    assert_eq!(plain_cursor.resolve_long_value(7), Err(EseError::RecordDecode));
}

#[test]
fn page_with_flipped_byte_is_decoded_and_reports_its_checksum() {
    let rows = vec![node(&[0, 0, 0, 1], &person(1, b"a")), node(&[0, 0, 0, 2], &person(2, b"b"))];
    let mut raw = page(ROOT | LEAF, 0, &[0u8; 16], &plain(rows));
    let sound = decode_page(5, &raw, PAGE_SIZE as u32, REVISION).unwrap();
    assert!(sound.checksum_ok());
    assert_eq!(sound.checksum_error(), None);
    let stored = sound.stored_checksum;
    // a byte of the name of the first row
    let at = 40 + 16 + 2 + 4 + 4 + 1 + 4 + 2;
    assert_eq!(raw[at], b'a');
    raw[at] = b'z';
    let damaged = decode_page(5, &raw, PAGE_SIZE as u32, REVISION).unwrap();
    assert!(!damaged.checksum_ok());
    assert_eq!(
        damaged.checksum_error(),
        Some(EseError::PageChecksum { page: 5, stored, computed: xor32(&raw, 8) })
    );
    assert_eq!(damaged.node_count(), 2);
    let n = damaged.node(0).unwrap();
    assert_eq!(n.key, vec![0, 0, 0, 1]);
    assert_eq!(n.data, person(1, b"z").as_slice());
}

#[test]
fn page_nodes_lie_inside_the_page() {
    let rows = vec![node(&[1], b"first"), node(&[2], b"second"), node(&[3], b"")];
    let raw = page(LEAF, 9, &[0xaa, 0xbb], &plain(rows));
    let p = decode_page(3, &raw, PAGE_SIZE as u32, REVISION).unwrap();
    assert_eq!(p.node_count(), 3);
    assert_eq!(p.tags.len(), 3);
    assert_eq!(p.prefix_range(), (40, 42));
    assert_eq!(p.next_page, 9);
    assert!(p.is_leaf() && !p.is_root() && !p.is_branch() && !p.is_long_value());
    let mut previous_end = 0;
    for i in 0..p.tags.len() {
        let (start, end) = p.tag_range(i).expect("the tag lies inside the page");
        assert!(40 <= start && start <= end && end <= PAGE_SIZE - 4 * (p.tags.len() + 1));
        assert!(start >= previous_end);
        previous_end = end;
    }
    for i in 0..p.node_count() {
        let n = p.node(i).unwrap();
        assert!(n.data_start + n.data.len() <= PAGE_SIZE);
        assert_eq!(&raw[n.data_start..n.data_start + n.data.len()], n.data);
    }
    assert_eq!(p.node(1).unwrap().data, b"second");
    assert_eq!(p.node(3).err(), Some(EseError::Format));
}

#[test]
fn node_key_is_the_shared_prefix_and_the_local_suffix() {
    let nodes = vec![
        (0x04u8, prefixed_node(2, &[9], b"x")),
        (0x00u8, node(&[5, 6], b"y")),
        (0x04u8, prefixed_node(0, &[], b"z")),
        (0x04u8, prefixed_node(4, &[1], b"too long a prefix")),
    ];
    let raw = page(LEAF, 0, &[0xaa, 0xbb, 0xcc], &nodes);
    let p = decode_page(3, &raw, PAGE_SIZE as u32, REVISION).unwrap();
    let first = p.node(0).unwrap();
    assert_eq!(first.key, vec![0xaa, 0xbb, 9]);
    assert_eq!(first.data, b"x");
    assert_eq!(first.flags, 0x04);
    assert_eq!(p.node(1).unwrap().key, vec![5, 6]);
    assert_eq!(p.node(2).unwrap().key, Vec::<u8>::new());
    assert_eq!(p.node(3).err(), Some(EseError::Format));
}

#[test]
fn branch_node_names_its_child() {
    let raw = page(PARENT, 0, &[], &plain(vec![node(&[1], &77u32.to_le_bytes()), node(&[], &[1, 2])]));
    let p = decode_page(3, &raw, PAGE_SIZE as u32, REVISION).unwrap();
    assert!(p.is_branch());
    assert_eq!(p.node(0).unwrap().child_page(), Some(77));
    assert_eq!(p.node(1).unwrap().child_page(), None);
}

#[test]
fn tag_outside_the_page_fails_its_node_and_no_other() {
    let mut raw = page(LEAF, 0, &[], &plain(vec![node(&[1], b"abc"), node(&[2], b"def")]));
    // the size of the first tag reaches into the tag array
    put16(&mut raw, PAGE_SIZE - 8, 0x1fff);
    let p = decode_page(3, &raw, PAGE_SIZE as u32, REVISION).unwrap();
    assert_eq!(p.node_count(), 2);
    assert_eq!(p.tag_range(0), None);
    assert_eq!(p.node(0).err(), Some(EseError::Format));
    assert_eq!(p.node(1).unwrap().data, b"def");
}

#[test]
fn buffer_without_the_structure_of_a_page_is_a_format_error() {
    let sound = page(LEAF, 0, &[], &[]);
    assert_eq!(decode_page(3, &sound[..100], PAGE_SIZE as u32, REVISION).err(), Some(EseError::Format));
    assert_eq!(decode_page(3, &sound, 1000, REVISION).err(), Some(EseError::Format));
    let mut crowded = page(LEAF, 0, &[], &[]);
    put16(&mut crowded, 34, 600);
    assert_eq!(decode_page(3, &crowded, PAGE_SIZE as u32, REVISION).err(), Some(EseError::Format));
}

#[test]
fn extended_pages_keep_node_flags_in_the_key_size() {
    let size = 16384usize;
    let mut raw = vec![0u8; size];
    // a key prefix of two bytes, then one node with flags 0x4
    let prefix = [0x11u8, 0x22];
    let mut body = Vec::new();
    body.extend_from_slice(&(1u16 | (0x04 << 13)).to_le_bytes());
    body.extend_from_slice(&1u16.to_le_bytes());
    body.push(0x33);
    body.extend_from_slice(b"data");
    raw[80..82].copy_from_slice(&prefix);
    raw[82..82 + body.len()].copy_from_slice(&body);
    put16(&mut raw, size - 4, 2);
    put16(&mut raw, size - 2, 0);
    put16(&mut raw, size - 8, body.len() as u16);
    put16(&mut raw, size - 6, 2);
    put16(&mut raw, 34, 1);
    put32(&mut raw, 36, LEAF);
    let p = decode_page(1, &raw, size as u32, 0x11).unwrap();
    assert_eq!(p.node_count(), 1);
    assert_eq!(p.tags[0].flags, 0x04);
    let n = p.node(0).unwrap();
    assert_eq!(n.key, vec![0x11, 0x33]);
    assert_eq!(n.data, b"data");
    assert_eq!(n.data_start, 82 + 5);
}

#[test]
fn undecodable_row_is_reported_and_the_scan_goes_on() {
    let mut broken = person(2, b"b");
    broken.truncate(broken.len() - 1);
    let rows = vec![
        node(&[1], &person(1, b"a")),
        node(&[2], &broken),
        node(&[3], &person(3, b"c")),
    ];
    let file = image(&[
        (4, catalog_page(people_catalog())),
        (5, page(ROOT | LEAF, 0, &[0u8; 16], &plain(rows))),
    ]);
    let db = Database::from_bytes(file).unwrap();
    let mut cursor = db.open_table(b"T").unwrap();
    assert!(cursor.next_row().unwrap().is_some());
    assert_eq!(cursor.next_row(), Err(EseError::RecordDecode));
    assert_eq!(cursor.state(), CursorState::Positioned { page: 5, tag_index: 2 });
    let third = cursor.next_row().unwrap().unwrap();
    assert_eq!(third.get(1), Some(&ColumnValue::Int32(3)));
    assert_eq!(cursor.next_row(), Ok(None));
}

#[test]
fn sibling_cycle_ends_the_scan_with_an_error() {
    let leaf = page(ROOT | LEAF, 5, &[0u8; 16], &plain(vec![node(&[1], &person(1, b"a"))]));
    let file = image(&[(4, catalog_page(people_catalog())), (5, leaf)]);
    let db = Database::from_bytes(file).unwrap();
    let mut cursor = db.open_table(b"T").unwrap();
    let mut rows = 0u64;
    let end = loop {
        match cursor.next_row() {
            Ok(Some(_)) => rows += 1,
            other => break other,
        }
    };
    assert_eq!(end, Err(EseError::Format));
    assert!(rows > 0 && rows < db.data.len() as u64);
    assert_eq!(cursor.next_row(), Ok(None));
}

#[test]
fn missing_sibling_page_exhausts_the_cursor() {
    let leaf = page(ROOT | LEAF, 40, &[0u8; 16], &plain(vec![node(&[1], &person(1, b"a"))]));
    let file = image(&[(4, catalog_page(people_catalog())), (5, leaf)]);
    let db = Database::from_bytes(file).unwrap();
    let mut cursor = db.open_table(b"T").unwrap();
    assert!(cursor.next_row().unwrap().is_some());
    assert_eq!(cursor.next_row(), Err(EseError::Format));
    assert_eq!(cursor.state(), CursorState::Exhausted);
    assert_eq!(cursor.next_row(), Ok(None));
}

#[test]
fn column_of_unknown_table_makes_the_catalog_corrupt() {
    let rows = vec![table_row(10, 5, b"T"), column_row(11, 1, 4, 4, 0, b"id")];
    let file = image(&[(4, catalog_page(rows)), (5, page(ROOT | LEAF, 0, &[0u8; 16], &[]))]);
    assert_eq!(Database::from_bytes(file).err(), Some(EseError::CatalogCorrupt));
    // the table must come before its columns
    let rows = vec![column_row(10, 1, 4, 4, 0, b"id"), table_row(10, 5, b"T")];
    let file = image(&[(4, catalog_page(rows)), (5, page(ROOT | LEAF, 0, &[0u8; 16], &[]))]);
    assert_eq!(Database::from_bytes(file).err(), Some(EseError::CatalogCorrupt));
}

#[test]
fn two_tables_of_one_name_make_the_catalog_corrupt() {
    let rows = vec![table_row(10, 5, b"T"), table_row(11, 6, b"T")];
    let file = image(&[(4, catalog_page(rows)), (5, page(ROOT | LEAF, 0, &[0u8; 16], &[]))]);
    assert_eq!(Database::from_bytes(file).err(), Some(EseError::CatalogCorrupt));
}

#[test]
fn catalog_rows_of_unknown_kind_or_type_make_the_catalog_corrupt() {
    let rows = vec![table_row(10, 5, b"T"), catalog_row(10, 9, 1, 4, 4, 0, b"x")];
    let file = image(&[(4, catalog_page(rows))]);
    assert_eq!(Database::from_bytes(file).err(), Some(EseError::CatalogCorrupt));
    let rows = vec![table_row(10, 5, b"T"), column_row(10, 1, 99, 4, 0, b"x")];
    let file = image(&[(4, catalog_page(rows))]);
    assert_eq!(Database::from_bytes(file).err(), Some(EseError::CatalogCorrupt));
    let mut short = table_row(10, 5, b"T");
    short.truncate(10);
    let file = image(&[(4, catalog_page(vec![short]))]);
    assert_eq!(Database::from_bytes(file).err(), Some(EseError::CatalogCorrupt));
}

#[test]
fn callback_rows_are_passed_over() {
    let rows = vec![table_row(10, 5, b"T"), catalog_row(10, 5, 1, 0, 0, 0, b"cb")];
    let file = image(&[(4, catalog_page(rows)), (5, page(ROOT | LEAF, 0, &[0u8; 16], &[]))]);
    let db = Database::from_bytes(file).unwrap();
    assert_eq!(db.catalog.len(), 1);
}

#[test]
fn descending_column_identifiers_make_the_table_corrupt() {
    let rows = vec![
        table_row(10, 5, b"T"),
        table_row(12, 6, b"U"),
        column_row(10, 2, 4, 4, 0, b"b"),
        column_row(10, 1, 4, 4, 0, b"a"),
        column_row(12, 1, 4, 4, 0, b"a"),
    ];
    let file = image(&[
        (4, catalog_page(rows)),
        (5, page(ROOT | LEAF, 0, &[0u8; 16], &[])),
        (6, page(ROOT | LEAF, 0, &[0u8; 16], &[])),
    ]);
    let db = Database::from_bytes(file).unwrap();
    assert_eq!(db.open_table(b"T").err(), Some(EseError::CatalogCorrupt));
    // the other table remains usable
    let mut cursor = db.open_table(b"U").unwrap();
    assert_eq!(cursor.next_row(), Ok(None));
}

#[test]
fn table_root_must_be_a_root_page() {
    let file = image(&[(4, catalog_page(people_catalog())), (5, page(LEAF, 0, &[], &[]))]);
    let db = Database::from_bytes(file).unwrap();
    assert_eq!(db.open_table(b"T").err(), Some(EseError::CatalogCorrupt));
    let file = image(&[(4, catalog_page(people_catalog()))]);
    let db = Database::from_bytes(file).unwrap();
    assert_eq!(db.open_table(b"T").err(), Some(EseError::Format));
}

#[test]
fn file_without_catalog_page_is_a_format_error() {
    let file = image(&[(2, page(LEAF, 0, &[], &[]))]);
    assert_eq!(Database::from_bytes(file).err(), Some(EseError::Format));
    assert_eq!(Database::from_bytes(Vec::new()).err(), Some(EseError::Format));
    let mut bad = people_image();
    bad[4] = 0;
    assert_eq!(Database::from_bytes(bad).err(), Some(EseError::Format));
    let mut future = people_image();
    put32(&mut future, 8, 0x700);
    assert_eq!(
        Database::from_bytes(future).err(),
        Some(EseError::UnsupportedVersion { version: 0x700, revision: REVISION })
    );
}

#[test]
fn header_checksum_mismatch_does_not_stop_the_open() {
    let mut file = people_image();
    let stored = xor32(&file[..PAGE_SIZE], 4);
    file[1000] ^= 0xff;
    let computed = xor32(&file[..PAGE_SIZE], 4);
    let db = Database::from_bytes(file).unwrap();
    assert_eq!(db.checksum_error, Some(EseError::Checksum { stored, computed }));
    assert_eq!(db.header.page_size, PAGE_SIZE as u32);
    assert_eq!(db.format(), PageFormat { page_size: PAGE_SIZE as u32, revision: REVISION });
    assert!(db.open_table(b"T").is_ok());
    assert!(db.page(5).is_ok());
    assert_eq!(db.page(6).err(), Some(EseError::Format));
}

#[test]
fn catalog_is_read_with_the_constant_schema() {
    let schema = catalog_schema();
    assert_eq!(schema.name, b"MSysObjects".to_vec());
    assert_eq!(schema.root_page, 4);
    assert_eq!(schema.fixed.len(), 11);
    assert_eq!(schema.find_column(b"Name").unwrap().id, 128);
    assert_eq!(schema.find_column(b"ObjidTable").unwrap().offset, 0);
    assert_eq!(schema.find_column(b"KeyMost").unwrap().offset, 33);
    let file = people_image();
    let source = PageSource {
        data: &file,
        format: PageFormat { page_size: PAGE_SIZE as u32, revision: REVISION },
    };
    let mut cursor = TableCursor::new(source, schema);
    let first = cursor.next_row().unwrap().unwrap();
    assert_eq!(first.get(1), Some(&ColumnValue::UInt32(10)));
    assert_eq!(first.get(2), Some(&ColumnValue::UInt16(1)));
    assert_eq!(first.get(128), Some(&ColumnValue::Text(CodePage::Ansi, vec![b'T' as u16])));
    assert_eq!(first.get(8), Some(&ColumnValue::Null));
}

/// A tree of two levels whose branch keys are the first keys of the leaves.
fn ordered_tree_image() -> Vec<u8> {
    let leaf6 = page(
        LEAF,
        8,
        &[],
        &plain(vec![node(&[0, 1], &person(1, b"a")), node(&[0, 2], &person(2, b"b"))]),
    );
    let leaf8 = page(
        LEAF,
        0,
        &[],
        &plain(vec![node(&[0, 3], &person(3, b"c")), node(&[0, 5], &person(5, b"e"))]),
    );
    let root = page(
        ROOT | PARENT,
        0,
        &[0u8; 16],
        &plain(vec![node(&[0, 1], &6u32.to_le_bytes()), node(&[0, 3], &8u32.to_le_bytes())]),
    );
    image(&[(4, catalog_page(people_catalog())), (5, root), (6, leaf6), (8, leaf8)])
}

#[test]
fn keys_are_ordered_as_byte_strings() {
    assert!(key_at_most(&[], &[]));
    assert!(key_at_most(&[], &[0]));
    assert!(!key_at_most(&[0], &[]));
    assert!(key_at_most(&[1, 2], &[1, 2]));
    assert!(key_at_most(&[1, 2], &[1, 2, 0]));
    assert!(!key_at_most(&[1, 2, 0], &[1, 2]));
    assert!(key_at_most(&[1, 0xff], &[2]));
    assert!(!key_at_most(&[0x80], &[0x7f, 0xff]));
}

#[test]
fn search_finds_the_boundary_in_a_page() {
    let keys: Vec<Vec<u8>> = vec![vec![1], vec![3], vec![3], vec![5], vec![9]];
    let nodes: Vec<Vec<u8>> = keys.iter().map(|k| node(k, b"d")).collect();
    let raw = page(LEAF, 0, &[], &plain(nodes));
    let p = decode_page(3, &raw, PAGE_SIZE as u32, REVISION).unwrap();
    // with `strict`: the first node whose key is not below the target
    assert_eq!(search_page(&p, &[0], true), Ok(0));
    assert_eq!(search_page(&p, &[3], true), Ok(1));
    assert_eq!(search_page(&p, &[4], true), Ok(3));
    assert_eq!(search_page(&p, &[9], true), Ok(4));
    assert_eq!(search_page(&p, &[9, 0], true), Ok(5));
    // without: behind the last node whose key is at most the target
    assert_eq!(search_page(&p, &[0], false), Ok(0));
    assert_eq!(search_page(&p, &[3], false), Ok(3));
    assert_eq!(search_page(&p, &[4], false), Ok(3));
    assert_eq!(search_page(&p, &[0xff], false), Ok(5));
}

#[test]
fn seek_places_the_cursor_at_the_first_row_from_the_key_on() {
    let db = Database::from_bytes(ordered_tree_image()).unwrap();
    let source = db.source();
    assert_eq!(find_position(&source, 5, &[0, 2], 10), Ok((6, 1)));
    assert_eq!(find_position(&source, 5, &[0, 3], 10), Ok((8, 0)));
    assert_eq!(find_position(&source, 5, &[], 10), Ok((6, 0)));
    assert_eq!(find_position(&source, 5, &[0, 4], 10), Ok((8, 1)));
    assert_eq!(find_position(&source, 5, &[0, 2, 1], 10), Ok((6, 2)));
    assert_eq!(find_position(&source, 5, &[0, 9], 10), Ok((8, 2)));
    assert_eq!(find_position(&source, 5, &[0, 2], 1), Err(EseError::Format));
    assert_eq!(find_position(&source, 9, &[0, 2], 10), Err(EseError::Format));

    let mut cursor = db.open_table(b"T").unwrap();
    assert_eq!(cursor.seek(&[0, 2]), Ok(()));
    assert_eq!(cursor.state(), CursorState::Positioned { page: 6, tag_index: 1 });
    let mut ids = Vec::new();
    while let Some(rec) = cursor.next_row().unwrap() {
        ids.push(id_of(&rec));
    }
    assert_eq!(ids, vec![2, 3, 5]);

    // a key between two leaves: the scan goes on in the leaf to the right
    assert_eq!(cursor.seek(&[0, 2, 1]), Ok(()));
    assert_eq!(cursor.next_row().unwrap().unwrap().get(1), Some(&ColumnValue::Int32(3)));

    // a key above every key: nothing is left
    assert_eq!(cursor.seek(&[0xff]), Ok(()));
    assert_eq!(cursor.next_row(), Ok(None));
    assert_eq!(cursor.state(), CursorState::Exhausted);

    // a seek brings an exhausted cursor back to the rows
    assert_eq!(cursor.seek(&[]), Ok(()));
    assert_eq!(cursor.next_row().unwrap().unwrap().get(1), Some(&ColumnValue::Int32(1)));
}

#[test]
fn failed_seek_leaves_the_cursor_where_it_stood() {
    let root = page(ROOT | PARENT, 0, &[0u8; 16], &plain(vec![node(&[0, 1], &60u32.to_le_bytes())]));
    let file = image(&[(4, catalog_page(people_catalog())), (5, root)]);
    let db = Database::from_bytes(file).unwrap();
    let mut cursor = db.open_table(b"T").unwrap();
    assert_eq!(cursor.seek(&[0, 1]), Err(EseError::Format));
    assert_eq!(cursor.state(), CursorState::BeforeFirst);
}

/// Three linked leaves under one branch, the middle one empty.
fn linked_leaves_image() -> Vec<u8> {
    let mut leaf6 = page(
        LEAF,
        7,
        &[],
        &plain(vec![node(&[0, 1], &person(1, b"a")), node(&[0, 2], &person(2, b"b"))]),
    );
    let mut leaf7 = page(LEAF, 8, &[], &[]);
    let mut leaf8 = page(
        LEAF,
        0,
        &[],
        &plain(vec![node(&[0, 3], &person(3, b"c")), node(&[0, 5], &person(5, b"e"))]),
    );
    for (p, previous) in [(&mut leaf6, 0u32), (&mut leaf7, 6), (&mut leaf8, 7)] {
        put32(p, 16, previous);
        let sum = xor32(p, 8);
        put32(p, 0, sum);
    }
    let root = page(
        ROOT | PARENT,
        0,
        &[0u8; 16],
        &plain(vec![
            node(&[0, 1], &6u32.to_le_bytes()),
            node(&[0, 3], &7u32.to_le_bytes()),
            node(&[0, 3], &8u32.to_le_bytes()),
        ]),
    );
    image(&[(4, catalog_page(people_catalog())), (5, root), (6, leaf6), (7, leaf7), (8, leaf8)])
}

fn remaining_ids(cursor: &mut TableCursor<'_>) -> Vec<i32> {
    let mut ids = Vec::new();
    while let Some(rec) = cursor.next_row().unwrap() {
        ids.push(id_of(&rec));
    }
    ids
}

#[test]
fn backward_cursor_yields_the_rows_in_descending_order() {
    let db = Database::from_bytes(linked_leaves_image()).unwrap();
    assert_eq!(find_edge_leaf(&db.source(), 5, Direction::Backward, 10), Ok(8));
    assert_eq!(find_edge_leaf(&db.source(), 5, Direction::Forward, 10), Ok(6));
    let mut cursor = db.open_table(b"T").unwrap();
    assert_eq!(cursor.direction, Direction::Forward);
    assert_eq!(remaining_ids(&mut cursor), vec![1, 2, 3, 5]);
    cursor.to_end();
    assert_eq!(cursor.state(), CursorState::AfterLast);
    assert_eq!(cursor.direction, Direction::Backward);
    assert_eq!(remaining_ids(&mut cursor), vec![5, 3, 2, 1]);
    assert_eq!(cursor.state(), CursorState::Exhausted);
    assert_eq!(cursor.next_row(), Ok(None));
    cursor.rewind();
    assert_eq!(cursor.state(), CursorState::BeforeFirst);
    assert_eq!(remaining_ids(&mut cursor), vec![1, 2, 3, 5]);
}

#[test]
fn cursor_at_the_end_of_its_direction_yields_nothing() {
    let db = Database::from_bytes(linked_leaves_image()).unwrap();
    let mut cursor = db.open_table(b"T").unwrap();
    cursor.to_end();
    cursor.state = CursorState::BeforeFirst;
    assert_eq!(cursor.next_row(), Ok(None));
    assert_eq!(cursor.state(), CursorState::Exhausted);
}

#[test]
fn backward_cursor_after_a_seek_yields_the_rows_below_the_key() {
    let db = Database::from_bytes(linked_leaves_image()).unwrap();
    let mut cursor = db.open_table(b"T").unwrap();
    cursor.to_end();
    assert_eq!(cursor.seek(&[0, 3]), Ok(()));
    assert_eq!(cursor.state(), CursorState::Positioned { page: 8, tag_index: 0 });
    assert_eq!(remaining_ids(&mut cursor), vec![2, 1]);
}

#[test]
fn bound_ends_the_walk_at_the_first_key_beyond_it() {
    let db = Database::from_bytes(linked_leaves_image()).unwrap();
    let mut cursor = db.open_table(b"T").unwrap();
    cursor.set_bound(Some(vec![0, 3]));
    assert_eq!(remaining_ids(&mut cursor), vec![1, 2, 3]);
    assert_eq!(cursor.state(), CursorState::Exhausted);
    assert_eq!(cursor.next_row(), Ok(None));

    cursor.rewind();
    cursor.set_bound(Some(vec![0, 2, 9]));
    assert_eq!(remaining_ids(&mut cursor), vec![1, 2]);

    cursor.to_end();
    cursor.set_bound(Some(vec![0, 2]));
    assert_eq!(remaining_ids(&mut cursor), vec![5, 3, 2]);

    cursor.to_end();
    cursor.set_bound(None);
    assert_eq!(remaining_ids(&mut cursor), vec![5, 3, 2, 1]);

    cursor.rewind();
    cursor.set_bound(Some(Vec::new()));
    assert_eq!(remaining_ids(&mut cursor), Vec::<i32>::new());
}

#[test]
fn rows_of_a_damaged_page_come_with_its_checksum_mismatch() {
    let mut file = people_image();
    let at = 6 * PAGE_SIZE + 100;
    let stored = xor32(&file[6 * PAGE_SIZE..7 * PAGE_SIZE], 8);
    file[at + 1000] ^= 0x55;
    let computed = xor32(&file[6 * PAGE_SIZE..7 * PAGE_SIZE], 8);
    let db = Database::from_bytes(file).unwrap();
    let mut cursor = db.open_table(b"T").unwrap();
    assert_eq!(cursor.page_warning, None);
    let first = cursor.next_row().unwrap().unwrap();
    assert_eq!(first.get(1), Some(&ColumnValue::Int32(1)));
    assert_eq!(cursor.page_warning, Some(EseError::PageChecksum { page: 5, stored, computed }));
    assert!(!cursor.page_warning.unwrap().is_fatal());
    assert_eq!(remaining_ids(&mut cursor), vec![2, 3]);
    assert_eq!(cursor.page_warning, None);

    let sound = Database::from_bytes(people_image()).unwrap();
    let mut cursor = sound.open_table(b"T").unwrap();
    assert!(cursor.next_row().unwrap().is_some());
    assert_eq!(cursor.page_warning, None);
}

#[test]
fn page_kind_follows_the_flags() {
    let kind = |flags: u32| {
        let raw = page(flags, 0, &[], &[]);
        decode_page(3, &raw, PAGE_SIZE as u32, REVISION).unwrap().kind()
    };
    assert_eq!(kind(ROOT | PARENT), PageKind::Branch);
    assert_eq!(kind(PARENT | LONG_VALUE), PageKind::Branch);
    assert_eq!(kind(ROOT | LEAF), PageKind::Records);
    assert_eq!(kind(LEAF | LONG_VALUE), PageKind::LongValues);
    assert_eq!(kind(LEAF | 0x40), PageKind::IndexEntries);
    assert_eq!(kind(LEAF | 0x20), PageKind::SpaceTree);
    let raw = page(LEAF | 0x08 | 0x40, 0, &[], &[]);
    let p = decode_page(3, &raw, PAGE_SIZE as u32, REVISION).unwrap();
    assert!(p.is_empty() && p.is_index() && !p.is_space_tree());
}

#[test]
fn long_value_ends_at_the_first_node_of_another_value() {
    let db = Database::from_bytes(long_value_image()).unwrap();
    let source = db.source();
    assert_eq!(make_value_key(0x0102_0304), vec![1, 2, 3, 4]);
    // from the head of value 7: its two segments, not the segment of value 8
    assert_eq!(gather_segments(&source, 7, 7, 0, 100), Ok(b"hello you".to_vec()));
    // from the second segment on
    assert_eq!(gather_segments(&source, 7, 8, 0, 100), Ok(b" you".to_vec()));
    // a node of another value ends the value at once
    assert_eq!(gather_segments(&source, 8, 7, 0, 100), Ok(Vec::new()));
    assert_eq!(gather_segments(&source, 7, 7, 0, 2), Err(EseError::Format));
    assert_eq!(find_position(&source, 6, &make_value_key(7), 100), Ok((7, 0)));
    assert_eq!(find_position(&source, 6, &make_value_key(8), 100), Ok((8, 1)));
}

#[test]
fn values_are_found_by_column_name() {
    let db = Database::from_bytes(people_image()).unwrap();
    let mut cursor = db.open_table(b"T").unwrap();
    let row = cursor.next_row().unwrap().unwrap();
    assert_eq!(cursor.schema.value_of(&row, b"id"), Ok(Some(&ColumnValue::Int32(1))));
    assert_eq!(cursor.schema.value_of(&row, b"name"), Ok(Some(&ascii("a"))));
    assert_eq!(cursor.schema.value_of(&row, b"age"), Err(EseError::ColumnNotFound));
}

#[test]
fn index_rows_are_read_from_the_catalog() {
    let mut rows = people_catalog();
    let mut fixed = Vec::new();
    fixed.extend_from_slice(&10u32.to_le_bytes());
    fixed.extend_from_slice(&3u16.to_le_bytes());
    fixed.extend_from_slice(&1u32.to_le_bytes());
    fixed.extend_from_slice(&9u32.to_le_bytes());
    fixed.extend_from_slice(&0u32.to_le_bytes());
    fixed.extend_from_slice(&3u32.to_le_bytes());
    fixed.extend_from_slice(&0u32.to_le_bytes());
    // name, stats, template table, default value, key columns
    rows.push(record(7, &fixed, &[b"primary", b"", b"", b"", &[1, 0]], &[]));
    let file = image(&[(4, catalog_page(rows)), (5, page(ROOT | LEAF, 0, &[0u8; 16], &[]))]);
    let db = Database::from_bytes(file).unwrap();
    assert_eq!(
        db.catalog.entries[3],
        CatalogEntry::Index {
            table_id: 10,
            index_id: 1,
            name: b"primary".to_vec(),
            root_page: 9,
            flags: 3,
            key_columns: vec![1, 0],
        }
    );
    assert!(db.catalog.entries[3].is_primary_index());
}

#[test]
fn deleted_nodes_are_marked() {
    let raw = page(LEAF, 0, &[], &[(0x02, node(&[1], b"gone")), (0x00, node(&[2], b"here"))]);
    let p = decode_page(3, &raw, PAGE_SIZE as u32, REVISION).unwrap();
    assert!(p.node(0).unwrap().is_defunct());
    assert!(!p.node(1).unwrap().is_defunct());
}

#[test]
fn record_is_resolved_in_place() {
    let db = Database::from_bytes(long_value_image()).unwrap();
    let mut cursor = db.open_table(b"T").unwrap();
    let mut row = cursor.next_row().unwrap().unwrap();
    assert_eq!(cursor.resolve_record(&mut row), Vec::new());
    assert_eq!(
        row_values(&row),
        vec![(1, &ColumnValue::Int32(1)), (256, &ColumnValue::LongValue(b"hello you".to_vec()))]
    );
    // a reference that the tree does not hold stays a reference and is reported
    row.set_value(0, ColumnValue::LongValueRef(99));
    assert_eq!(row.long_value_key(0), Some(99));
    assert_eq!(row.long_value_key(1), None);
    assert_eq!(
        cursor.resolve_record(&mut row),
        vec![Unresolved { field: 0, key: 99, error: EseError::RecordDecode }]
    );
    assert_eq!(row.get(1), Some(&ColumnValue::LongValueRef(99)));
}

#[test]
fn legacy_pages_cover_the_page_number_with_their_checksum() {
    let mut raw = page(LEAF, 0, &[], &plain(vec![node(&[1], b"abc")]));
    put32(&mut raw, 4, 3);
    let sum = xor32(&raw, 4);
    put32(&mut raw, 0, sum);
    let p = decode_page(3, &raw, PAGE_SIZE as u32, 0x09).unwrap();
    assert!(p.checksum_ok());
    // the same bytes under a later revision: bytes 4 to 8 are not covered
    let later = decode_page(3, &raw, PAGE_SIZE as u32, 0x0c).unwrap();
    assert_eq!(later.computed_checksum, xor32(&raw, 8));
    assert_eq!(later.checksum_ok(), xor32(&raw, 8) == sum);
    raw[5] ^= 1;
    let damaged = decode_page(3, &raw, PAGE_SIZE as u32, 0x09).unwrap();
    assert!(!damaged.checksum_ok());
}

#[test]
fn catalog_is_read_across_its_leaves() {
    let rows = people_catalog();
    let first = page(
        LEAF,
        7,
        &[],
        &plain(vec![node(&[0], &rows[0]), node(&[1], &rows[1])]),
    );
    let second = page(LEAF, 0, &[], &plain(vec![node(&[2], &rows[2])]));
    let root = page(
        ROOT | PARENT,
        0,
        &[0u8; 16],
        &plain(vec![node(&[0], &6u32.to_le_bytes()), node(&[2], &7u32.to_le_bytes())]),
    );
    let table = page(ROOT | LEAF, 0, &[0u8; 16], &plain(vec![node(&[1], &person(1, b"a"))]));
    let file = image(&[(4, root), (5, table), (6, first), (7, second)]);
    let db = Database::from_bytes(file).unwrap();
    assert_eq!(db.catalog.len(), 3);
    let mut cursor = db.open_table(b"T").unwrap();
    let row = cursor.next_row().unwrap().unwrap();
    assert_eq!(row_values(&row), vec![(1, &ColumnValue::Int32(1)), (128, &ascii("a"))]);
}

#[test]
fn branch_without_children_is_a_format_error() {
    let root = page(ROOT | PARENT, 0, &[0u8; 16], &[]);
    let file = image(&[(4, catalog_page(people_catalog())), (5, root)]);
    let db = Database::from_bytes(file).unwrap();
    let mut cursor = db.open_table(b"T").unwrap();
    assert_eq!(cursor.next_row(), Err(EseError::Format));
    assert_eq!(cursor.state(), CursorState::Exhausted);
    cursor.to_end();
    assert_eq!(cursor.next_row(), Err(EseError::Format));
    // a branch whose node is too short to name a child
    let root = page(ROOT | PARENT, 0, &[0u8; 16], &plain(vec![node(&[1], &[6, 0])]));
    let file = image(&[(4, catalog_page(people_catalog())), (5, root)]);
    let db = Database::from_bytes(file).unwrap();
    let mut cursor = db.open_table(b"T").unwrap();
    assert_eq!(cursor.next_row(), Err(EseError::Format));
}

#[test]
fn child_cycle_ends_the_descent_with_an_error() {
    let root = page(ROOT | PARENT, 0, &[0u8; 16], &plain(vec![node(&[1], &5u32.to_le_bytes())]));
    let file = image(&[(4, catalog_page(people_catalog())), (5, root)]);
    let db = Database::from_bytes(file).unwrap();
    let mut cursor = db.open_table(b"T").unwrap();
    assert_eq!(cursor.next_row(), Err(EseError::Format));
    assert_eq!(cursor.seek(&[1]), Err(EseError::Format));
    assert_eq!(cursor.next_row(), Ok(None));
}

#[test]
fn root_pages_have_no_shared_key_prefix() {
    let nodes = vec![(0x04u8, prefixed_node(0, &[7], b"x")), (0x04u8, prefixed_node(1, &[7], b"y"))];
    let raw = page(ROOT | LEAF, 0, &[0xaa; 16], &nodes);
    let p = decode_page(3, &raw, PAGE_SIZE as u32, REVISION).unwrap();
    assert_eq!(p.prefix_range(), (0, 0));
    assert_eq!(p.node(0).unwrap().key, vec![7]);
    assert_eq!(p.node(1).err(), Some(EseError::Format));
}

#[test]
fn catalog_is_copied_whole() {
    let db = Database::from_bytes(long_value_image()).unwrap();
    let copy = db.catalog.clone();
    assert_eq!(copy, db.catalog);
    assert_eq!(copy.entries[1].clone(), db.catalog.entries[1]);
}

#[test]
fn references_inside_a_multi_value_are_resolved() {
    let db = Database::from_bytes(long_value_image()).unwrap();
    let cursor = db.open_table(b"T").unwrap();
    let mut row = Record {
        fields: vec![
            Field { column_id: 1, value: ColumnValue::Int32(4) },
            Field {
                column_id: 256,
                value: ColumnValue::MultiValue(vec![
                    ColumnValue::LongValueRef(8),
                    ColumnValue::LongValueRef(9),
                    ColumnValue::Binary(vec![1]),
                    ColumnValue::LongValueRef(7),
                ]),
            },
            Field { column_id: 257, value: ColumnValue::LongValueRef(3) },
        ],
    };
    let failures = cursor.resolve_record(&mut row);
    assert_eq!(
        failures,
        vec![
            Unresolved { field: 1, key: 9, error: EseError::RecordDecode },
            Unresolved { field: 2, key: 3, error: EseError::RecordDecode },
        ]
    );
    assert_eq!(
        row.get(256),
        Some(&ColumnValue::MultiValue(vec![
            ColumnValue::LongValue(b"other".to_vec()),
            ColumnValue::LongValueRef(9),
            ColumnValue::Binary(vec![1]),
            ColumnValue::LongValue(b"hello you".to_vec()),
        ]))
    );
    assert_eq!(row.get(257), Some(&ColumnValue::LongValueRef(3)));
    let mut none = Vec::new();
    assert_eq!(
        cursor.resolve_value(&ColumnValue::LongValueRef(7), 5, &mut none),
        ColumnValue::LongValue(b"hello you".to_vec())
    );
    assert!(none.is_empty());
}

#[test]
fn damaged_leaf_is_reported_and_the_scan_goes_on_beside_it() {
    let leaf6 = page(LEAF, 7, &[], &plain(vec![node(&[0, 1], &person(1, b"a"))]));
    // the tag array of this leaf claims more room than the page has
    let mut leaf7 = page(LEAF, 8, &[], &plain(vec![node(&[0, 2], &person(2, b"b"))]));
    put16(&mut leaf7, 34, 0xffff);
    put32(&mut leaf7, 16, 6);
    let mut leaf8 = page(LEAF, 0, &[], &plain(vec![node(&[0, 3], &person(3, b"c"))]));
    put32(&mut leaf8, 16, 7);
    let root = page(
        ROOT | PARENT,
        0,
        &[0u8; 16],
        &plain(vec![node(&[0, 1], &6u32.to_le_bytes()), node(&[0, 3], &8u32.to_le_bytes())]),
    );
    let file = image(&[
        (4, catalog_page(people_catalog())),
        (5, root),
        (6, leaf6),
        (7, leaf7),
        (8, leaf8),
    ]);
    let db = Database::from_bytes(file).unwrap();
    assert_eq!(db.page(7).err(), Some(EseError::Format));
    let mut cursor = db.open_table(b"T").unwrap();
    assert_eq!(id_of(&cursor.next_row().unwrap().unwrap()), 1);
    assert_eq!(cursor.next_row(), Err(EseError::Format));
    assert_eq!(cursor.state(), CursorState::Positioned { page: 8, tag_index: 0 });
    assert_eq!(id_of(&cursor.next_row().unwrap().unwrap()), 3);
    assert_eq!(cursor.next_row(), Ok(None));
    // and backward
    cursor.to_end();
    assert_eq!(id_of(&cursor.next_row().unwrap().unwrap()), 3);
    assert_eq!(cursor.next_row(), Err(EseError::Format));
    assert_eq!(cursor.state(), CursorState::Positioned { page: 6, tag_index: usize::MAX });
    assert_eq!(id_of(&cursor.next_row().unwrap().unwrap()), 1);
    assert_eq!(cursor.next_row(), Ok(None));
}

#[test]
fn leaf_with_a_tag_outside_the_page_yields_its_other_rows() {
    let mut leaf = page(
        ROOT | LEAF,
        0,
        &[0u8; 16],
        &plain(vec![
            node(&[1], &person(1, b"a")),
            node(&[2], &person(2, b"b")),
            node(&[3], &person(3, b"c")),
        ]),
    );
    // the offset of the second tag points behind the room for nodes
    put16(&mut leaf, PAGE_SIZE - 12 + 2, 0x1ff0);
    let file = image(&[(4, catalog_page(people_catalog())), (5, leaf)]);
    let db = Database::from_bytes(file).unwrap();
    let mut cursor = db.open_table(b"T").unwrap();
    assert_eq!(id_of(&cursor.next_row().unwrap().unwrap()), 1);
    assert_eq!(cursor.next_row(), Err(EseError::Format));
    assert_eq!(id_of(&cursor.next_row().unwrap().unwrap()), 3);
    assert_eq!(cursor.next_row(), Ok(None));
}

#[test]
fn leaf_without_sibling_link_is_followed_by_the_leaf_that_the_parent_names() {
    let leaf6 = page(
        LEAF,
        0,
        &[],
        &plain(vec![node(&[0, 1], &person(1, b"a")), node(&[0, 2], &person(2, b"b"))]),
    );
    let leaf8 = page(
        LEAF,
        0,
        &[],
        &plain(vec![node(&[0, 3], &person(3, b"c")), node(&[0, 5], &person(5, b"e"))]),
    );
    let root = page(
        ROOT | PARENT,
        0,
        &[0u8; 16],
        &plain(vec![node(&[0, 1], &6u32.to_le_bytes()), node(&[0, 3], &8u32.to_le_bytes())]),
    );
    let file = image(&[(4, catalog_page(people_catalog())), (5, root), (6, leaf6), (8, leaf8)]);
    let db = Database::from_bytes(file).unwrap();
    let source = db.source();
    assert_eq!(find_further_leaf(&source, 5, &[0, 2], Direction::Forward, 100), Some(8));
    assert_eq!(find_further_leaf(&source, 5, &[0, 5], Direction::Forward, 100), None);
    assert_eq!(find_further_leaf(&source, 5, &[0, 3], Direction::Backward, 100), Some(6));
    assert_eq!(find_further_leaf(&source, 5, &[0, 1], Direction::Backward, 100), None);
    assert_eq!(find_further_leaf(&source, 5, &[0, 2], Direction::Forward, 1), None);
    let mut cursor = db.open_table(b"T").unwrap();
    assert_eq!(remaining_ids(&mut cursor), vec![1, 2, 3, 5]);
    assert_eq!(cursor.next_row(), Ok(None));
    cursor.to_end();
    assert_eq!(remaining_ids(&mut cursor), vec![5, 3, 2, 1]);
}

#[test]
fn further_leaf_that_leads_back_ends_the_walk() {
    // the keys of the branch do not ascend: the parents name a leaf whose
    // rows the walk has passed
    let leaf6 = page(LEAF, 0, &[], &plain(vec![node(&[0, 1], &person(1, b"a"))]));
    let leaf8 = page(LEAF, 0, &[], &plain(vec![node(&[0, 3], &person(3, b"c"))]));
    let root = page(
        ROOT | PARENT,
        0,
        &[0u8; 16],
        &plain(vec![node(&[0, 3], &8u32.to_le_bytes()), node(&[0, 9], &6u32.to_le_bytes())]),
    );
    let file = image(&[(4, catalog_page(people_catalog())), (5, root), (6, leaf6), (8, leaf8)]);
    let db = Database::from_bytes(file).unwrap();
    let mut cursor = db.open_table(b"T").unwrap();
    assert_eq!(remaining_ids(&mut cursor), vec![3]);
    assert_eq!(cursor.state(), CursorState::Exhausted);
}
