use ese_rs::catalog::CatalogEntry;
use ese_rs::constants::{has_flag, CatalogType, CodePage, ColumnType};

#[test]
fn column_type_codes_round_trip() {
    for code in 0u32..18 {
        let ty = ColumnType::from_code(code).expect("a known type code");
        assert_eq!(ty.code(), code);
    }
    assert_eq!(ColumnType::from_code(18), None);
    assert_eq!(ColumnType::from_code(4), Some(ColumnType::Long));
    assert_eq!(ColumnType::from_code(12), Some(ColumnType::LongText));
    assert_eq!(ColumnType::Guid.code(), 16);
}

#[test]
fn column_types_know_their_width() {
    assert_eq!(ColumnType::Bit.width(), Some(1));
    assert_eq!(ColumnType::UnsignedShort.width(), Some(2));
    assert_eq!(ColumnType::IeeeSingle.width(), Some(4));
    assert_eq!(ColumnType::DateTime.width(), Some(8));
    assert_eq!(ColumnType::Guid.width(), Some(16));
    assert_eq!(ColumnType::Text.width(), None);
    assert_eq!(ColumnType::LongBinary.width(), None);
    assert!(ColumnType::LongText.is_text());
    assert!(!ColumnType::Binary.is_text());
}

#[test]
fn catalog_type_and_code_page_codes() {
    assert_eq!(CatalogType::from_code(1), Some(CatalogType::Table));
    assert_eq!(CatalogType::from_code(2), Some(CatalogType::Column));
    assert_eq!(CatalogType::from_code(3), Some(CatalogType::Index));
    assert_eq!(CatalogType::from_code(4), Some(CatalogType::LongValue));
    assert_eq!(CatalogType::from_code(5), Some(CatalogType::Callback));
    assert_eq!(CatalogType::from_code(0), None);
    assert_eq!(CodePage::from_code(20127), CodePage::Ascii);
    assert_eq!(CodePage::from_code(1252), CodePage::Ansi);
    assert_eq!(CodePage::from_code(1200), CodePage::Unicode);
    assert_eq!(CodePage::from_code(932), CodePage::Other(932));
    assert!(CodePage::Unicode.is_wide());
    assert!(!CodePage::Ansi.is_wide());
}

#[test]
fn flags_are_tested_bit_by_bit() {
    assert!(has_flag(0b0110, 0b0010));
    assert!(has_flag(0b0110, 0b0100));
    assert!(!has_flag(0b0110, 0b0001));
    assert!(!has_flag(0b0110, 0b1000));
    assert!(has_flag(0x8000_0000, 0x8000_0000));
    assert!(!has_flag(7, 0));
}

#[test]
fn index_entries_know_their_flags() {
    let index = |flags: u32| CatalogEntry::Index {
        table_id: 10,
        index_id: 1,
        name: b"ix".to_vec(),
        root_page: 9,
        flags,
        key_columns: vec![1, 0],
    };
    assert!(index(0x03).is_unique_index() && index(0x03).is_primary_index());
    assert!(index(0x01).is_unique_index() && !index(0x01).is_primary_index());
    assert!(!index(0x02).is_unique_index() && index(0x02).is_primary_index());
    let table = CatalogEntry::Table { object_id: 10, name: b"T".to_vec(), root_page: 5, flags: 3 };
    assert!(!table.is_unique_index() && !table.is_primary_index());
}

#[test]
fn code_units_stand_for_code_points() {
    assert_eq!(CodePage::Ansi.code_point(0x41), 0x41);
    assert_eq!(CodePage::Ansi.code_point(0x80), 0x20ac);
    assert_eq!(CodePage::Ansi.code_point(0x99), 0x2122);
    assert_eq!(CodePage::Ansi.code_point(0x9f), 0x0178);
    assert_eq!(CodePage::Ansi.code_point(0x81), 0x81);
    assert_eq!(CodePage::Ansi.code_point(0xe9), 0xe9);
    assert_eq!(CodePage::Ascii.code_point(0x80), 0x80);
    assert_eq!(CodePage::Unicode.code_point(0x20ac), 0x20ac);
}
