//! The catalog: the reserved table whose rows describe every table, column,
//! index and long-value tree of the database.
//!
//! The layout of the catalog's own rows is a constant of the format. Its rows
//! are read with the same cursor and the same record decoder as the rows of
//! any other table.
use crate::constants::{
    flag_set, has_flag, CatalogType, CodePage, ColumnType, CATALOG_OBJECT_ID,
    CATALOG_ROOT_PAGE, LAST_FIXED_ID, LAST_TAGGED_ID, LAST_VARIABLE_ID,
};
use crate::cursor::{step, CursorState, Direction, PageSource, Scan, TableCursor};
use crate::error::EseError;
use crate::page::PageFormat;
use crate::types::{
    columns_view, copy_bytes, field_position, follows, id_fits, ids_ascend, offsets_packed, ColumnDef, ColumnValue, ColumnView, FieldView, Record,
    SchemaView, TableSchema, ValueView,
};
use vstd::prelude::*;

verus! {

/// Column identifiers of the catalog's rows.
pub const CAT_TABLE_ID: u32 = 1;

pub const CAT_TYPE: u32 = 2;

pub const CAT_ID: u32 = 3;

pub const CAT_TYPE_OR_ROOT: u32 = 4;

pub const CAT_SPACE_USAGE: u32 = 5;

pub const CAT_FLAGS: u32 = 6;

pub const CAT_PAGES_OR_LOCALE: u32 = 7;

pub const CAT_NAME: u32 = 128;

pub const CAT_DEFAULT_VALUE: u32 = 131;

pub const CAT_KEY_COLUMNS: u32 = 132;

/// Index flag: no two rows share a key.
pub const INDEX_FLAG_UNIQUE: u32 = 0x01;

/// Index flag: the index orders the rows of the table itself.
pub const INDEX_FLAG_PRIMARY: u32 = 0x02;

/// One row of the catalog.
#[derive(Debug, PartialEq, Eq)]
pub enum CatalogEntry {
    Table { object_id: u32, name: Vec<u8>, root_page: u32, flags: u32 },
    Column {
        table_id: u32,
        column_id: u32,
        name: Vec<u8>,
        column_type: ColumnType,
        size: u32,
        flags: u32,
        code_page: CodePage,
        default_value: Vec<u8>,
    },
    Index {
        table_id: u32,
        index_id: u32,
        name: Vec<u8>,
        root_page: u32,
        flags: u32,
        /// The identifiers of the key columns, as the catalog stores them.
        key_columns: Vec<u8>,
    },
    LongValue { table_id: u32, object_id: u32, root_page: u32 },
}

/// The mathematical value of a [`CatalogEntry`].
pub ghost enum EntryView {
    Table { object_id: u32, name: Seq<u8>, root_page: u32, flags: u32 },
    Column {
        table_id: u32,
        column_id: u32,
        name: Seq<u8>,
        column_type: ColumnType,
        size: u32,
        flags: u32,
        code_page: CodePage,
        default_value: Seq<u8>,
    },
    Index {
        table_id: u32,
        index_id: u32,
        name: Seq<u8>,
        root_page: u32,
        flags: u32,
        key_columns: Seq<u8>,
    },
    LongValue { table_id: u32, object_id: u32, root_page: u32 },
}

impl View for CatalogEntry {
    type V = EntryView;

    open spec fn view(&self) -> EntryView {
        match self {
            CatalogEntry::Table { object_id, name, root_page, flags } => EntryView::Table {
                object_id: *object_id,
                name: name@,
                root_page: *root_page,
                flags: *flags,
            },
            CatalogEntry::Column {
                table_id,
                column_id,
                name,
                column_type,
                size,
                flags,
                code_page,
                default_value,
            } => EntryView::Column {
                table_id: *table_id,
                column_id: *column_id,
                name: name@,
                column_type: *column_type,
                size: *size,
                flags: *flags,
                code_page: *code_page,
                default_value: default_value@,
            },
            CatalogEntry::Index {
                table_id,
                index_id,
                name,
                root_page,
                flags,
                key_columns,
            } => EntryView::Index {
                table_id: *table_id,
                index_id: *index_id,
                name: name@,
                root_page: *root_page,
                flags: *flags,
                key_columns: key_columns@,
            },
            CatalogEntry::LongValue { table_id, object_id, root_page } => EntryView::LongValue {
                table_id: *table_id,
                object_id: *object_id,
                root_page: *root_page,
            },
        }
    }
}

impl CatalogEntry {
    /// Whether the entry describes an index in which no two rows share a key.
    pub fn is_unique_index(&self) -> (r: bool)
        ensures
            r == (self@ matches EntryView::Index { flags, .. } && flag_set(
                flags as int,
                INDEX_FLAG_UNIQUE as int,
            )),
    {
        match self {
            CatalogEntry::Index { flags, .. } => has_flag(*flags, INDEX_FLAG_UNIQUE),
            _ => false,
        }
    }

    /// Whether the entry describes the index that orders the rows of its
    /// table.
    pub fn is_primary_index(&self) -> (r: bool)
        ensures
            r == (self@ matches EntryView::Index { flags, .. } && flag_set(
                flags as int,
                INDEX_FLAG_PRIMARY as int,
            )),
    {
        match self {
            CatalogEntry::Index { flags, .. } => has_flag(*flags, INDEX_FLAG_PRIMARY),
            _ => false,
        }
    }
}

impl Clone for CatalogEntry {
    /// A copy of the entry: it has the same view.
    fn clone(&self) -> (r: CatalogEntry)
        ensures
            r@ == self@,
    {
        match self {
            CatalogEntry::Table { object_id, name, root_page, flags } => CatalogEntry::Table {
                object_id: *object_id,
                name: copy_bytes(name),
                root_page: *root_page,
                flags: *flags,
            },
            CatalogEntry::Column {
                table_id,
                column_id,
                name,
                column_type,
                size,
                flags,
                code_page,
                default_value,
            } => CatalogEntry::Column {
                table_id: *table_id,
                column_id: *column_id,
                name: copy_bytes(name),
                column_type: *column_type,
                size: *size,
                flags: *flags,
                code_page: *code_page,
                default_value: copy_bytes(default_value),
            },
            CatalogEntry::Index {
                table_id,
                index_id,
                name,
                root_page,
                flags,
                key_columns,
            } => CatalogEntry::Index {
                table_id: *table_id,
                index_id: *index_id,
                name: copy_bytes(name),
                root_page: *root_page,
                flags: *flags,
                key_columns: copy_bytes(key_columns),
            },
            CatalogEntry::LongValue { table_id, object_id, root_page } => CatalogEntry::LongValue {
                table_id: *table_id,
                object_id: *object_id,
                root_page: *root_page,
            },
        }
    }
}

/// The views of a sequence of entries, element by element.
pub open spec fn entries_view(v: Seq<CatalogEntry>) -> Seq<EntryView> {
    Seq::new(v.len(), |i: int| v[i]@)
}

/// A column definition from its parts.
pub open spec fn column_view(
    id: u32,
    name: Seq<u8>,
    column_type: ColumnType,
    size: u32,
    offset: u32,
    code_page: CodePage,
) -> ColumnView {
    ColumnView {
        id: id,
        name: name,
        column_type: column_type,
        size: size,
        offset: offset,
        code_page: code_page,
        flags: 0,
        default_value: Seq::empty(),
    }
}

/// Builds a column definition without flags or default value.
fn column(
    id: u32,
    name: Vec<u8>,
    column_type: ColumnType,
    size: u32,
    offset: u32,
    code_page: CodePage,
) -> (r: ColumnDef)
    ensures
        r@ == column_view(id, name@, column_type, size, offset, code_page),
{
    ColumnDef {
        id: id,
        name: name,
        column_type: column_type,
        size: size,
        offset: offset,
        code_page: code_page,
        flags: 0,
        default_value: Vec::new(),
    }
}

/// The fixed columns of a catalog row.
pub open spec fn catalog_fixed_columns() -> Seq<ColumnView> {
    seq![
        column_view(
            1,
            seq![79u8, 98, 106, 105, 100, 84, 97, 98, 108, 101],
            ColumnType::UnsignedLong,
            4,
            0,
            CodePage::Other(0),
        ),
        column_view(2, seq![84u8, 121, 112, 101], ColumnType::UnsignedShort, 2, 4, CodePage::Other(0)),
        column_view(3, seq![73u8, 100], ColumnType::UnsignedLong, 4, 6, CodePage::Other(0)),
        column_view(
            4,
            seq![67u8, 111, 108, 116, 121, 112, 79, 114, 80, 103, 110, 111, 70, 68, 80],
            ColumnType::UnsignedLong,
            4,
            10,
            CodePage::Other(0),
        ),
        column_view(
            5,
            seq![83u8, 112, 97, 99, 101, 85, 115, 97, 103, 101],
            ColumnType::UnsignedLong,
            4,
            14,
            CodePage::Other(0),
        ),
        column_view(6, seq![70u8, 108, 97, 103, 115], ColumnType::UnsignedLong, 4, 18, CodePage::Other(0)),
        column_view(
            7,
            seq![80u8, 97, 103, 101, 115, 79, 114, 76, 111, 99, 97, 108, 101],
            ColumnType::UnsignedLong,
            4,
            22,
            CodePage::Other(0),
        ),
        column_view(
            8,
            seq![82u8, 111, 111, 116, 70, 108, 97, 103],
            ColumnType::Bit,
            1,
            26,
            CodePage::Other(0),
        ),
        column_view(
            9,
            seq![82u8, 101, 99, 111, 114, 100, 79, 102, 102, 115, 101, 116],
            ColumnType::Short,
            2,
            27,
            CodePage::Other(0),
        ),
        column_view(
            10,
            seq![76u8, 67, 77, 97, 112, 70, 108, 97, 103, 115],
            ColumnType::UnsignedLong,
            4,
            29,
            CodePage::Other(0),
        ),
        column_view(
            11,
            seq![75u8, 101, 121, 77, 111, 115, 116],
            ColumnType::UnsignedShort,
            2,
            33,
            CodePage::Other(0),
        ),
    ]
}

/// The variable columns of a catalog row.
pub open spec fn catalog_variable_columns() -> Seq<ColumnView> {
    seq![
        column_view(128, seq![78u8, 97, 109, 101], ColumnType::Text, 255, 0, CodePage::Ansi),
        column_view(129, seq![83u8, 116, 97, 116, 115], ColumnType::Binary, 255, 0, CodePage::Other(0)),
        column_view(
            130,
            seq![84u8, 101, 109, 112, 108, 97, 116, 101, 84, 97, 98, 108, 101],
            ColumnType::Text,
            255,
            0,
            CodePage::Ansi,
        ),
        column_view(
            131,
            seq![68u8, 101, 102, 97, 117, 108, 116, 86, 97, 108, 117, 101],
            ColumnType::Binary,
            255,
            0,
            CodePage::Other(0),
        ),
        column_view(
            132,
            seq![75u8, 101, 121, 70, 108, 100, 73, 68, 115],
            ColumnType::Binary,
            255,
            0,
            CodePage::Other(0),
        ),
    ]
}

/// The name of the catalog table.
pub open spec fn catalog_name() -> Seq<u8> {
    seq![77u8, 83, 121, 115, 79, 98, 106, 101, 99, 116, 115]
}

/// The layout of the rows of the catalog: a constant of the format.
pub open spec fn catalog_schema_view() -> SchemaView {
    SchemaView {
        table_id: CATALOG_OBJECT_ID,
        name: catalog_name(),
        root_page: CATALOG_ROOT_PAGE,
        long_value_root: None,
        fixed: catalog_fixed_columns(),
        variable: catalog_variable_columns(),
        tagged: Seq::empty(),
    }
}

/// The layout of the catalog's rows is a valid schema.
pub proof fn lemma_catalog_schema_wf()
    ensures
        catalog_schema_view().wf(),
{
}

/// The layout of the rows of the catalog.
pub fn catalog_schema() -> (r: TableSchema)
    ensures
        r@ == catalog_schema_view(),
        r@.wf(),
        r.root_page == CATALOG_ROOT_PAGE,
{
    proof {
        lemma_catalog_schema_wf();
    }
    let none: CodePage = CodePage::Other(0);
    let fixed: Vec<ColumnDef> = vec![
        column(1, vec![79u8, 98, 106, 105, 100, 84, 97, 98, 108, 101], ColumnType::UnsignedLong, 4, 0, none),
        column(2, vec![84u8, 121, 112, 101], ColumnType::UnsignedShort, 2, 4, none),
        column(3, vec![73u8, 100], ColumnType::UnsignedLong, 4, 6, none),
        column(
            4,
            vec![67u8, 111, 108, 116, 121, 112, 79, 114, 80, 103, 110, 111, 70, 68, 80],
            ColumnType::UnsignedLong,
            4,
            10,
            none,
        ),
        column(5, vec![83u8, 112, 97, 99, 101, 85, 115, 97, 103, 101], ColumnType::UnsignedLong, 4, 14, none),
        column(6, vec![70u8, 108, 97, 103, 115], ColumnType::UnsignedLong, 4, 18, none),
        column(
            7,
            vec![80u8, 97, 103, 101, 115, 79, 114, 76, 111, 99, 97, 108, 101],
            ColumnType::UnsignedLong,
            4,
            22,
            none,
        ),
        column(8, vec![82u8, 111, 111, 116, 70, 108, 97, 103], ColumnType::Bit, 1, 26, none),
        column(
            9,
            vec![82u8, 101, 99, 111, 114, 100, 79, 102, 102, 115, 101, 116],
            ColumnType::Short,
            2,
            27,
            none,
        ),
        column(10, vec![76u8, 67, 77, 97, 112, 70, 108, 97, 103, 115], ColumnType::UnsignedLong, 4, 29, none),
        column(11, vec![75u8, 101, 121, 77, 111, 115, 116], ColumnType::UnsignedShort, 2, 33, none),
    ];
    let variable: Vec<ColumnDef> = vec![
        column(128, vec![78u8, 97, 109, 101], ColumnType::Text, 255, 0, CodePage::Ansi),
        column(129, vec![83u8, 116, 97, 116, 115], ColumnType::Binary, 255, 0, none),
        column(
            130,
            vec![84u8, 101, 109, 112, 108, 97, 116, 101, 84, 97, 98, 108, 101],
            ColumnType::Text,
            255,
            0,
            CodePage::Ansi,
        ),
        column(
            131,
            vec![68u8, 101, 102, 97, 117, 108, 116, 86, 97, 108, 117, 101],
            ColumnType::Binary,
            255,
            0,
            none,
        ),
        column(132, vec![75u8, 101, 121, 70, 108, 100, 73, 68, 115], ColumnType::Binary, 255, 0, none),
    ];
    let tagged: Vec<ColumnDef> = Vec::new();
    let name: Vec<u8> = vec![77u8, 83, 121, 115, 79, 98, 106, 101, 99, 116, 115];
    proof {
        assert(columns_view(fixed@) =~= catalog_fixed_columns());
        assert(columns_view(variable@) =~= catalog_variable_columns());
        assert(columns_view(tagged@) =~= Seq::<ColumnView>::empty());
        assert(name@ =~= catalog_name());
    }
    TableSchema {
        table_id: CATALOG_OBJECT_ID,
        name: name,
        root_page: CATALOG_ROOT_PAGE,
        long_value_root: None,
        fixed: fixed,
        variable: variable,
        tagged: tagged,
    }
}

/// The value that a row holds for column `id`, if it holds the column.
pub open spec fn field_value(row: Seq<FieldView>, id: u32) -> Option<ValueView> {
    let k = field_position(row, id, 0);
    if 0 <= k < row.len() {
        Some(row[k].value)
    } else {
        None
    }
}

/// The unsigned 32-bit number that a row holds for column `id`.
pub open spec fn field_u32(row: Seq<FieldView>, id: u32) -> Option<u32> {
    match field_value(row, id) {
        Some(ValueView::UInt32(v)) => Some(v),
        _ => None,
    }
}

/// The unsigned 16-bit number that a row holds for column `id`.
pub open spec fn field_u16(row: Seq<FieldView>, id: u32) -> Option<u16> {
    match field_value(row, id) {
        Some(ValueView::UInt16(v)) => Some(v),
        _ => None,
    }
}

/// The number that a row holds for column `id`, zero where it holds none.
pub open spec fn field_or_zero(row: Seq<FieldView>, id: u32) -> u32 {
    match field_u32(row, id) {
        Some(v) => v,
        None => 0,
    }
}

/// The low byte of each code unit.
pub open spec fn narrow(units: Seq<u16>) -> Seq<u8> {
    Seq::new(units.len(), |i: int| (units[i] % 256) as u8)
}

/// The bytes that a row holds for column `id`: those of a binary value, the
/// characters of a text of a single-byte code page; none otherwise.
pub open spec fn field_bytes(row: Seq<FieldView>, id: u32) -> Seq<u8> {
    match field_value(row, id) {
        Some(ValueView::Binary(b)) => b,
        Some(ValueView::Text(cp, u)) => narrow(u),
        _ => Seq::empty(),
    }
}

/// The catalog entry that a catalog row stands for: `Ok(None)` for a row that
/// describes a callback, `CatalogCorrupt` for a row without the four numbers
/// that every row has, of an unknown kind, or of a column of unknown type.
pub open spec fn entry_of(row: Seq<FieldView>) -> Result<Option<EntryView>, EseError> {
    match (
        field_u32(row, CAT_TABLE_ID),
        field_u16(row, CAT_TYPE),
        field_u32(row, CAT_ID),
        field_u32(row, CAT_TYPE_OR_ROOT),
    ) {
        (Some(table), Some(kind), Some(id), Some(word)) => match CatalogType::spec_from_code(
            kind,
        ) {
            None => Err(EseError::CatalogCorrupt),
            Some(CatalogType::Callback) => Ok(None),
            Some(CatalogType::Table) => Ok(
                Some(
                    EntryView::Table {
                        object_id: table,
                        name: field_bytes(row, CAT_NAME),
                        root_page: word,
                        flags: field_or_zero(row, CAT_FLAGS),
                    },
                ),
            ),
            Some(CatalogType::Column) => match ColumnType::spec_from_code(word) {
                None => Err(EseError::CatalogCorrupt),
                Some(ty) => Ok(
                    Some(
                        EntryView::Column {
                            table_id: table,
                            column_id: id,
                            name: field_bytes(row, CAT_NAME),
                            column_type: ty,
                            size: field_or_zero(row, CAT_SPACE_USAGE),
                            flags: field_or_zero(row, CAT_FLAGS),
                            code_page: CodePage::spec_from_code(
                                field_or_zero(row, CAT_PAGES_OR_LOCALE),
                            ),
                            default_value: field_bytes(row, CAT_DEFAULT_VALUE),
                        },
                    ),
                ),
            },
            Some(CatalogType::Index) => Ok(
                Some(
                    EntryView::Index {
                        table_id: table,
                        index_id: id,
                        name: field_bytes(row, CAT_NAME),
                        root_page: word,
                        flags: field_or_zero(row, CAT_FLAGS),
                        key_columns: field_bytes(row, CAT_KEY_COLUMNS),
                    },
                ),
            ),
            Some(CatalogType::LongValue) => Ok(
                Some(EntryView::LongValue { table_id: table, object_id: id, root_page: word }),
            ),
        },
        _ => Err(EseError::CatalogCorrupt),
    }
}

/// Reads the unsigned 32-bit number of column `id`.
fn u32_field(rec: &Record, id: u32) -> (r: Option<u32>)
    ensures
        r == field_u32(rec@, id),
{
    match rec.get(id) {
        Some(ColumnValue::UInt32(v)) => Some(*v),
        _ => None,
    }
}

/// Reads the unsigned 16-bit number of column `id`.
fn u16_field(rec: &Record, id: u32) -> (r: Option<u16>)
    ensures
        r == field_u16(rec@, id),
{
    match rec.get(id) {
        Some(ColumnValue::UInt16(v)) => Some(*v),
        _ => None,
    }
}

/// Reads the number of column `id`, zero where the row holds none.
fn number_field(rec: &Record, id: u32) -> (r: u32)
    ensures
        r == field_or_zero(rec@, id),
{
    match u32_field(rec, id) {
        Some(v) => v,
        None => 0,
    }
}

/// Keeps the low byte of each code unit.
fn narrow_units(units: &Vec<u16>) -> (r: Vec<u8>)
    ensures
        r@ == narrow(units@),
{
    let n: usize = units.len();
    let mut out: Vec<u8> = Vec::new();
    let mut i: usize = 0;
    while i < n
        invariant
            n == units@.len(),
            i <= n,
            out@.len() == i,
            forall|k: int| 0 <= k < i ==> out@[k] == (units@[k] % 256) as u8,
        decreases n - i,
    {
        out.push((units[i] % 256) as u8);
        i = i + 1;
    }
    assert(out@ =~= narrow(units@));
    out
}

/// Copies the bytes of column `id`.
fn bytes_field(rec: &Record, id: u32) -> (r: Vec<u8>)
    ensures
        r@ == field_bytes(rec@, id),
{
    match rec.get(id) {
        Some(ColumnValue::Binary(b)) => copy_bytes(b),
        Some(ColumnValue::Text(cp, u)) => narrow_units(u),
        _ => Vec::new(),
    }
}

/// Reads one catalog row as a catalog entry.
pub fn interpret_row(rec: &Record) -> (r: Result<Option<CatalogEntry>, EseError>)
    ensures
        match r {
            Ok(Some(e)) => entry_of(rec@) == Ok::<Option<EntryView>, EseError>(Some(e@)),
            Ok(None) => entry_of(rec@) == Ok::<Option<EntryView>, EseError>(None),
            Err(e) => entry_of(rec@) == Err::<Option<EntryView>, EseError>(e),
        },
{
    let table: u32 = match u32_field(rec, CAT_TABLE_ID) {
        Some(v) => v,
        None => {
            return Err(EseError::CatalogCorrupt);
        },
    };
    let kind: u16 = match u16_field(rec, CAT_TYPE) {
        Some(v) => v,
        None => {
            return Err(EseError::CatalogCorrupt);
        },
    };
    let id: u32 = match u32_field(rec, CAT_ID) {
        Some(v) => v,
        None => {
            return Err(EseError::CatalogCorrupt);
        },
    };
    let word: u32 = match u32_field(rec, CAT_TYPE_OR_ROOT) {
        Some(v) => v,
        None => {
            return Err(EseError::CatalogCorrupt);
        },
    };
    match CatalogType::from_code(kind) {
        None => Err(EseError::CatalogCorrupt),
        Some(CatalogType::Callback) => Ok(None),
        Some(CatalogType::Table) => Ok(
            Some(
                CatalogEntry::Table {
                    object_id: table,
                    name: bytes_field(rec, CAT_NAME),
                    root_page: word,
                    flags: number_field(rec, CAT_FLAGS),
                },
            ),
        ),
        Some(CatalogType::Column) => match ColumnType::from_code(word) {
            None => Err(EseError::CatalogCorrupt),
            Some(ty) => Ok(
                Some(
                    CatalogEntry::Column {
                        table_id: table,
                        column_id: id,
                        name: bytes_field(rec, CAT_NAME),
                        column_type: ty,
                        size: number_field(rec, CAT_SPACE_USAGE),
                        flags: number_field(rec, CAT_FLAGS),
                        code_page: CodePage::from_code(number_field(rec, CAT_PAGES_OR_LOCALE)),
                        default_value: bytes_field(rec, CAT_DEFAULT_VALUE),
                    },
                ),
            ),
        },
        Some(CatalogType::Index) => Ok(
            Some(
                CatalogEntry::Index {
                    table_id: table,
                    index_id: id,
                    name: bytes_field(rec, CAT_NAME),
                    root_page: word,
                    flags: number_field(rec, CAT_FLAGS),
                    key_columns: bytes_field(rec, CAT_KEY_COLUMNS),
                },
            ),
        ),
        Some(CatalogType::LongValue) => Ok(
            Some(CatalogEntry::LongValue { table_id: table, object_id: id, root_page: word }),
        ),
    }
}

/// Whether `e` describes the table with object identifier `id`.
pub open spec fn is_table_with_id(e: EntryView, id: u32) -> bool {
    e matches EntryView::Table { object_id, .. } && object_id == id
}

/// Whether `e` describes a table named `name`.
pub open spec fn is_table_named(e: EntryView, name: Seq<u8>) -> bool {
    e matches EntryView::Table { name: n, .. } && n == name
}

/// Whether one of the first `n` entries describes table `id`.
pub open spec fn has_table(entries: Seq<EntryView>, n: int, id: u32) -> bool {
    exists|j: int| 0 <= j < n && #[trigger] is_table_with_id(entries[j], id)
}

/// Whether one of the first `n` entries describes a table named `name`.
pub open spec fn has_table_named(entries: Seq<EntryView>, n: int, name: Seq<u8>) -> bool {
    exists|j: int| 0 <= j < n && #[trigger] is_table_named(entries[j], name)
}

/// Whether entry `i` fits the entries before it: a table has a name that no
/// earlier table has; a column, an index or a long-value tree belongs to a
/// table described earlier.
pub open spec fn entry_ok(entries: Seq<EntryView>, i: int) -> bool {
    match entries[i] {
        EntryView::Table { name, .. } => !has_table_named(entries, i, name),
        EntryView::Column { table_id, .. } => has_table(entries, i, table_id),
        EntryView::Index { table_id, .. } => has_table(entries, i, table_id),
        EntryView::LongValue { table_id, .. } => has_table(entries, i, table_id),
    }
}

/// Whether every entry fits the entries before it.
pub open spec fn catalog_valid(entries: Seq<EntryView>) -> bool {
    forall|i: int| 0 <= i < entries.len() ==> #[trigger] entry_ok(entries, i)
}

/// The error that the catalog build reports for an error of the cursor: a
/// row that cannot be decoded makes the catalog corrupt.
pub open spec fn catalog_error(e: EseError) -> EseError {
    if e == EseError::RecordDecode {
        EseError::CatalogCorrupt
    } else {
        e
    }
}

/// An optional entry as a sequence.
pub open spec fn head_seq(head: Option<EntryView>) -> Seq<EntryView> {
    match head {
        Some(e) => seq![e],
        None => Seq::empty(),
    }
}

/// Puts `acc` before the entries of `rest`, where `rest` is no error.
pub open spec fn extend(acc: Seq<EntryView>, rest: Result<Seq<EntryView>, EseError>) -> Result<
    Seq<EntryView>,
    EseError,
> {
    match rest {
        Ok(r) => Ok(acc + r),
        Err(e) => Err(e),
    }
}

/// The walk over the catalog table: forward, without bound, with the
/// catalog's constant schema.
pub open spec fn catalog_scan(file: Seq<u8>, fmt: PageFormat) -> Scan {
    Scan {
        file: file,
        fmt: fmt,
        schema: catalog_schema_view(),
        direction: Direction::Forward,
        bound: None,
    }
}

/// The entries that a cursor over the catalog yields from `state` on, in the
/// order of its rows; the first error ends the walk.
#[verifier::opaque]
pub open spec fn entries_from(file: Seq<u8>, fmt: PageFormat, state: CursorState, fuel: nat) -> Result<
    Seq<EntryView>,
    EseError,
>
    decreases fuel,
{
    let s = step(catalog_scan(file, fmt), state, fuel);
    match s.result {
        Ok(None) => Ok(Seq::empty()),
        Err(e) => Err(catalog_error(e)),
        Ok(Some(row)) => match entry_of(row) {
            Err(e) => Err(e),
            Ok(head) => if s.fuel < fuel {
                extend(head_seq(head), entries_from(file, fmt, s.state, s.fuel))
            } else {
                Err(EseError::Format)
            },
        },
    }
}

/// One step of [`entries_from`].
pub proof fn lemma_entries_step(file: Seq<u8>, fmt: PageFormat, state: CursorState, fuel: nat)
    ensures
        entries_from(file, fmt, state, fuel) == ({
            let s = step(catalog_scan(file, fmt), state, fuel);
            match s.result {
                Ok(None) => Ok::<Seq<EntryView>, EseError>(Seq::empty()),
                Err(e) => Err(catalog_error(e)),
                Ok(Some(row)) => match entry_of(row) {
                    Err(e) => Err(e),
                    Ok(head) => if s.fuel < fuel {
                        extend(head_seq(head), entries_from(file, fmt, s.state, s.fuel))
                    } else {
                        Err(EseError::Format)
                    },
                },
            }
        }),
{
    reveal(entries_from);
}

/// Extending in two steps is extending once.
pub proof fn lemma_extend_twice(
    a: Seq<EntryView>,
    b: Seq<EntryView>,
    rest: Result<Seq<EntryView>, EseError>,
)
    ensures
        extend(a, extend(b, rest)) == extend(a + b, rest),
{
    if let Ok(r) = rest {
        assert(a + (b + r) =~= (a + b) + r);
    }
}

/// The catalog of the file: its entries in row order, where every row can be
/// read and every entry fits the entries before it.
pub open spec fn spec_build_catalog(file: Seq<u8>, fmt: PageFormat) -> Result<
    Seq<EntryView>,
    EseError,
> {
    match entries_from(file, fmt, CursorState::BeforeFirst, file.len()) {
        Err(e) => Err(e),
        Ok(es) => if catalog_valid(es) {
            Ok(es)
        } else {
            Err(EseError::CatalogCorrupt)
        },
    }
}

/// Compares two byte strings.
pub fn bytes_equal(a: &[u8], b: &[u8]) -> (r: bool)
    ensures
        r == (a@ == b@),
{
    let n: usize = a.len();
    if n != b.len() {
        return false;
    }
    let mut i: usize = 0;
    while i < n
        invariant
            n == a@.len(),
            n == b@.len(),
            i <= n,
            forall|k: int| 0 <= k < i ==> a@[k] == b@[k],
        decreases n - i,
    {
        if a[i] != b[i] {
            return false;
        }
        i = i + 1;
    }
    assert(a@ =~= b@);
    true
}

/// Whether one of the first `n` entries describes table `id`.
fn knows_table(entries: &Vec<CatalogEntry>, n: usize, id: u32) -> (r: bool)
    requires
        n <= entries@.len(),
    ensures
        r == has_table(entries_view(entries@), n as int, id),
{
    let ghost ev = entries_view(entries@);
    let mut j: usize = 0;
    while j < n
        invariant
            n <= entries@.len(),
            j <= n,
            ev == entries_view(entries@),
            forall|k: int| 0 <= k < j ==> !#[trigger] is_table_with_id(ev[k], id),
        decreases n - j,
    {
        assert(ev[j as int] == entries@[j as int]@);
        match &entries[j] {
            CatalogEntry::Table { object_id, .. } => {
                if *object_id == id {
                    assert(is_table_with_id(ev[j as int], id));
                    return true;
                }
            },
            _ => {},
        }
        j = j + 1;
    }
    false
}

/// The position of the first table named `name` among the first `n`
/// entries, or `n` where there is none.
pub open spec fn table_position(entries: Seq<EntryView>, n: int, name: Seq<u8>, from: int) -> int
    decreases n - from,
{
    if from < 0 || from >= n {
        n
    } else if is_table_named(entries[from], name) {
        from
    } else {
        table_position(entries, n, name, from + 1)
    }
}

/// A position below `n` is the position of a table of that name; the
/// position `n` means that no entry before `n` is one.
pub proof fn lemma_table_position(entries: Seq<EntryView>, n: int, name: Seq<u8>, from: int)
    requires
        0 <= from <= n <= entries.len(),
    ensures
        from <= table_position(entries, n, name, from) <= n,
        table_position(entries, n, name, from) < n ==> is_table_named(
            entries[table_position(entries, n, name, from)],
            name,
        ),
        forall|k: int|
            from <= k < table_position(entries, n, name, from) ==> !#[trigger] is_table_named(
                entries[k],
                name,
            ),
    decreases n - from,
{
    if from < n && !is_table_named(entries[from], name) {
        lemma_table_position(entries, n, name, from + 1);
    }
}

/// Finds the first table named `name` among the first `n` entries.
fn find_named(entries: &Vec<CatalogEntry>, n: usize, name: &[u8]) -> (r: usize)
    requires
        n <= entries@.len(),
    ensures
        r == table_position(entries_view(entries@), n as int, name@, 0),
        r <= n,
        r < n ==> is_table_named(entries_view(entries@)[r as int], name@),
        (r == n) == !has_table_named(entries_view(entries@), n as int, name@),
{
    let ghost ev = entries_view(entries@);
    proof {
        lemma_table_position(ev, n as int, name@, 0);
    }
    let mut j: usize = 0;
    while j < n
        invariant
            n <= entries@.len(),
            j <= n,
            ev == entries_view(entries@),
            table_position(ev, n as int, name@, 0) == table_position(ev, n as int, name@, j as int),
        decreases n - j,
    {
        assert(ev[j as int] == entries@[j as int]@);
        match &entries[j] {
            CatalogEntry::Table { name: n2, .. } => {
                if bytes_equal(n2.as_slice(), name) {
                    return j;
                }
            },
            _ => {},
        }
        j = j + 1;
    }
    n
}

/// Checks that every entry fits the entries before it.
fn check_entries(entries: &Vec<CatalogEntry>) -> (r: bool)
    ensures
        r == catalog_valid(entries_view(entries@)),
{
    let n: usize = entries.len();
    let ghost ev = entries_view(entries@);
    let mut i: usize = 0;
    while i < n
        invariant
            n == entries@.len(),
            i <= n,
            ev == entries_view(entries@),
            forall|k: int| 0 <= k < i ==> #[trigger] entry_ok(ev, k),
        decreases n - i,
    {
        assert(ev[i as int] == entries@[i as int]@);
        let fits: bool = match &entries[i] {
            CatalogEntry::Table { name, .. } => find_named(entries, i, name.as_slice()) == i,
            CatalogEntry::Column { table_id, .. } => knows_table(entries, i, *table_id),
            CatalogEntry::Index { table_id, .. } => knows_table(entries, i, *table_id),
            CatalogEntry::LongValue { table_id, .. } => knows_table(entries, i, *table_id),
        };
        if !fits {
            assert(!entry_ok(ev, i as int));
            return false;
        }
        i = i + 1;
    }
    true
}

/// Walks the catalog table and reads each of its rows as an entry.
fn collect_entries(source: &PageSource) -> (r: Result<Vec<CatalogEntry>, EseError>)
    ensures
        match r {
            Ok(v) => entries_from(
                source.data@,
                source.format,
                CursorState::BeforeFirst,
                source.data@.len(),
            ) == Ok::<Seq<EntryView>, EseError>(entries_view(v@)),
            Err(e) => entries_from(
                source.data@,
                source.format,
                CursorState::BeforeFirst,
                source.data@.len(),
            ) == Err::<Seq<EntryView>, EseError>(e),
        },
{
    let ghost file = source.data@;
    let ghost fmt = source.format;
    let ghost goal = entries_from(file, fmt, CursorState::BeforeFirst, file.len());
    let mut cursor: TableCursor = TableCursor::new(*source, catalog_schema());
    let mut out: Vec<CatalogEntry> = Vec::new();
    proof {
        assert(entries_view(out@) =~= Seq::<EntryView>::empty());
        lemma_extend_twice(Seq::empty(), Seq::empty(), goal);
        assert(Seq::<EntryView>::empty() + Seq::<EntryView>::empty() =~= Seq::<EntryView>::empty());
        if let Ok(g) = goal {
            assert(Seq::<EntryView>::empty() + g =~= g);
        }
    }
    loop
        invariant
            file == source.data@,
            fmt == source.format,
            cursor.source == *source,
            cursor.scan() == catalog_scan(file, fmt),
            goal == entries_from(file, fmt, CursorState::BeforeFirst, file.len()),
            goal == extend(
                entries_view(out@),
                entries_from(file, fmt, cursor.state, cursor.steps_left as nat),
            ),
        decreases cursor.steps_left,
    {
        proof {
            lemma_entries_step(file, fmt, cursor.state, cursor.steps_left as nat);
        }
        let ghost before = entries_view(out@);
        match cursor.next_row() {
            Ok(None) => {
                assert(before + Seq::<EntryView>::empty() =~= before);
                return Ok(out);
            },
            Err(e) => {
                return Err(
                    if e == EseError::RecordDecode {
                        EseError::CatalogCorrupt
                    } else {
                        e
                    },
                );
            },
            Ok(Some(rec)) => {
                let ghost rest = entries_from(file, fmt, cursor.state, cursor.steps_left as nat);
                match interpret_row(&rec) {
                    Err(e) => {
                        return Err(e);
                    },
                    Ok(None) => {
                        proof {
                            lemma_extend_twice(before, Seq::empty(), rest);
                            assert(before + Seq::<EntryView>::empty() =~= before);
                        }
                    },
                    Ok(Some(entry)) => {
                        let ghost ev = entry@;
                        out.push(entry);
                        proof {
                            lemma_extend_twice(before, seq![ev], rest);
                            assert(entries_view(out@) =~= before + seq![ev]);
                        }
                    },
                }
            },
        }
    }
}

/// The catalog of a database: its entries in the order of the catalog's rows.
#[derive(Debug, PartialEq, Eq)]
pub struct Catalog {
    pub entries: Vec<CatalogEntry>,
}

impl View for Catalog {
    type V = Seq<EntryView>;

    open spec fn view(&self) -> Seq<EntryView> {
        entries_view(self.entries@)
    }
}

impl Clone for Catalog {
    /// A copy of the catalog: it has the same view.
    fn clone(&self) -> (r: Catalog)
        ensures
            r@ == self@,
    {
        let n: usize = self.entries.len();
        let mut out: Vec<CatalogEntry> = Vec::new();
        let mut i: usize = 0;
        while i < n
            invariant
                n == self.entries@.len(),
                i <= n,
                out@.len() == i,
                forall|k: int| 0 <= k < i ==> (#[trigger] out@[k])@ == self.entries@[k]@,
            decreases n - i,
        {
            out.push(self.entries[i].clone());
            i = i + 1;
        }
        assert(entries_view(out@) =~= entries_view(self.entries@));
        Catalog { entries: out }
    }
}

impl Catalog {
    /// The validity of a catalog: every entry fits the entries before it.
    pub open spec fn wf(&self) -> bool {
        catalog_valid(self@)
    }
}

/// Builds the catalog of a database from the pages of its file.
///
/// The rows of the catalog table are read in leaf order from the catalog's
/// root page, each decoded against the catalog's constant schema. The result
/// holds one entry per row that describes a table, a column, an index or a
/// long-value tree, in row order: it is a function of the file's bytes alone.
///
/// Fails with `Format` where a page of the catalog is missing or invalid, and
/// with `CatalogCorrupt` where a row cannot be decoded or read as an entry,
/// where a column, an index or a long-value tree belongs to no table
/// described before it, or where two tables share a name.
pub fn build_catalog(source: &PageSource) -> (r: Result<Catalog, EseError>)
    ensures
        match r {
            Ok(c) => spec_build_catalog(source.data@, source.format) == Ok::<
                Seq<EntryView>,
                EseError,
            >(c@) && c.wf(),
            Err(e) => spec_build_catalog(source.data@, source.format) == Err::<
                Seq<EntryView>,
                EseError,
            >(e),
        },
{
    match collect_entries(source) {
        Err(e) => Err(e),
        Ok(entries) => {
            if check_entries(&entries) {
                Ok(Catalog { entries: entries })
            } else {
                Err(EseError::CatalogCorrupt)
            }
        },
    }
}

/// The schema of a table before any of its columns is known.
pub open spec fn empty_schema(table: EntryView) -> SchemaView {
    SchemaView {
        table_id: table->Table_object_id,
        name: table->Table_name,
        root_page: table->Table_root_page,
        long_value_root: None,
        fixed: Seq::empty(),
        variable: Seq::empty(),
        tagged: Seq::empty(),
    }
}

/// The identifier of the last of `cols`, or zero where there is none.
pub open spec fn last_id(cols: Seq<ColumnView>) -> int {
    if cols.len() == 0 {
        0
    } else {
        cols.last().id as int
    }
}

/// Where the next fixed column starts: behind the last one.
pub open spec fn next_offset(cols: Seq<ColumnView>) -> int {
    if cols.len() == 0 {
        0
    } else {
        cols.last().offset + cols.last().size
    }
}

/// The column `c` placed at `offset`.
pub open spec fn placed(c: ColumnView, offset: u32) -> ColumnView {
    ColumnView {
        id: c.id,
        name: c.name,
        column_type: c.column_type,
        size: c.size,
        offset: offset,
        code_page: c.code_page,
        flags: c.flags,
        default_value: c.default_value,
    }
}

/// The schema `s` with column `c` added to the group that its identifier
/// names; `CatalogCorrupt` where the identifier is outside every group or not
/// above the last of its group, or where a fixed column would start beyond
/// the range of an offset.
#[verifier::opaque]
pub open spec fn spec_add_column(s: SchemaView, c: ColumnView) -> Result<SchemaView, EseError> {
    if 1 <= c.id <= LAST_FIXED_ID {
        if c.id <= last_id(s.fixed) || next_offset(s.fixed) > u32::MAX {
            Err(EseError::CatalogCorrupt)
        } else {
            Ok(
                SchemaView {
                    table_id: s.table_id,
                    name: s.name,
                    root_page: s.root_page,
                    long_value_root: s.long_value_root,
                    fixed: s.fixed.push(placed(c, next_offset(s.fixed) as u32)),
                    variable: s.variable,
                    tagged: s.tagged,
                },
            )
        }
    } else if c.id <= LAST_VARIABLE_ID {
        if c.id <= last_id(s.variable) {
            Err(EseError::CatalogCorrupt)
        } else {
            Ok(
                SchemaView {
                    table_id: s.table_id,
                    name: s.name,
                    root_page: s.root_page,
                    long_value_root: s.long_value_root,
                    fixed: s.fixed,
                    variable: s.variable.push(placed(c, 0)),
                    tagged: s.tagged,
                },
            )
        }
    } else if c.id <= LAST_TAGGED_ID {
        if c.id <= last_id(s.tagged) {
            Err(EseError::CatalogCorrupt)
        } else {
            Ok(
                SchemaView {
                    table_id: s.table_id,
                    name: s.name,
                    root_page: s.root_page,
                    long_value_root: s.long_value_root,
                    fixed: s.fixed,
                    variable: s.variable,
                    tagged: s.tagged.push(placed(c, 0)),
                },
            )
        }
    } else {
        Err(EseError::CatalogCorrupt)
    }
}

/// The column that a column entry describes.
pub open spec fn column_of(e: EntryView) -> ColumnView {
    ColumnView {
        id: e->Column_column_id,
        name: e->Column_name,
        column_type: e->Column_column_type,
        size: e->Column_size,
        offset: 0,
        code_page: e->Column_code_page,
        flags: e->Column_flags,
        default_value: e->Column_default_value,
    }
}

/// The schema `s` after entry `e` has been read: a column or a long-value
/// tree of the table of `s` is added to it; any other entry changes nothing.
#[verifier::opaque]
pub open spec fn add_entry(s: SchemaView, e: EntryView) -> Result<SchemaView, EseError> {
    match e {
        EntryView::Column { table_id, .. } => if table_id == s.table_id {
            spec_add_column(s, column_of(e))
        } else {
            Ok(s)
        },
        EntryView::LongValue { table_id, root_page, .. } => if table_id == s.table_id {
            Ok(
                SchemaView {
                    table_id: s.table_id,
                    name: s.name,
                    root_page: s.root_page,
                    long_value_root: Some(root_page),
                    fixed: s.fixed,
                    variable: s.variable,
                    tagged: s.tagged,
                },
            )
        } else {
            Ok(s)
        },
        _ => Ok(s),
    }
}

/// The schema `start` after the first `n` entries have been read.
pub open spec fn schema_upto(entries: Seq<EntryView>, start: SchemaView, n: nat) -> Result<
    SchemaView,
    EseError,
>
    decreases n,
{
    if n == 0 {
        Ok(start)
    } else {
        match schema_upto(entries, start, (n - 1) as nat) {
            Err(e) => Err(e),
            Ok(s) => add_entry(s, entries[n - 1]),
        }
    }
}

/// The schema of the table named `name`: that of the first table of the
/// name, with its columns in catalog order; `TableNotFound` where the catalog
/// describes no table of the name.
pub open spec fn spec_table_schema(entries: Seq<EntryView>, name: Seq<u8>) -> Result<
    SchemaView,
    EseError,
> {
    let k = table_position(entries, entries.len() as int, name, 0);
    if k >= entries.len() {
        Err(EseError::TableNotFound)
    } else {
        schema_upto(entries, empty_schema(entries[k]), entries.len())
    }
}

/// An error met while reading the entries stays the result.
pub proof fn lemma_schema_error_stays(
    entries: Seq<EntryView>,
    start: SchemaView,
    n: nat,
    m: nat,
)
    requires
        n <= m,
        schema_upto(entries, start, n).is_err(),
    ensures
        schema_upto(entries, start, m) == schema_upto(entries, start, n),
    decreases m,
{
    if n < m {
        lemma_schema_error_stays(entries, start, n, (m - 1) as nat);
    }
}

/// A column whose identifier lies above the last one keeps the identifiers
/// ascending.
pub proof fn lemma_push_ascends(cols: Seq<ColumnView>, c: ColumnView, lo: int, hi: int)
    requires
        ids_ascend(cols, lo, hi),
        lo <= c.id <= hi,
        last_id(cols) < c.id,
    ensures
        ids_ascend(cols.push(c), lo, hi),
{
    let next = cols.push(c);
    assert forall|i: int| 0 <= i < next.len() implies #[trigger] id_fits(next, i, lo, hi) by {
        if i < cols.len() {
            assert(id_fits(cols, i, lo, hi));
        }
    }
}

/// A column placed behind the last one keeps the columns packed.
pub proof fn lemma_push_packed(cols: Seq<ColumnView>, c: ColumnView)
    requires
        offsets_packed(cols),
        c.offset == next_offset(cols),
    ensures
        offsets_packed(cols.push(c)),
{
    let next = cols.push(c);
    assert forall|i: int| 0 <= i < next.len() implies #[trigger] follows(next, i) by {
        if i < cols.len() {
            assert(follows(cols, i));
        }
    }
}

/// Adding a column to a valid schema gives a valid schema.
pub proof fn lemma_add_column_wf(s: SchemaView, c: ColumnView)
    requires
        s.wf(),
        spec_add_column(s, c).is_ok(),
    ensures
        spec_add_column(s, c).unwrap().wf(),
{
    reveal(spec_add_column);
    if 1 <= c.id <= 127 {
        let p = placed(c, next_offset(s.fixed) as u32);
        lemma_push_ascends(s.fixed, p, 1, 127);
        lemma_push_packed(s.fixed, p);
    } else if c.id <= 255 {
        lemma_push_ascends(s.variable, placed(c, 0), 128, 255);
    } else {
        lemma_push_ascends(s.tagged, placed(c, 0), 256, 0xffff);
    }
}

/// Reading an entry into a valid schema gives a valid schema.
pub proof fn lemma_add_entry_wf(s: SchemaView, e: EntryView)
    requires
        s.wf(),
        add_entry(s, e).is_ok(),
    ensures
        add_entry(s, e).unwrap().wf(),
{
    reveal(add_entry);
    if let EntryView::Column { table_id, .. } = e {
        if table_id == s.table_id {
            lemma_add_column_wf(s, column_of(e));
        }
    }
}

/// Every schema read from a catalog is valid.
pub proof fn lemma_schema_upto_wf(entries: Seq<EntryView>, start: SchemaView, n: nat)
    requires
        start.wf(),
        schema_upto(entries, start, n).is_ok(),
    ensures
        schema_upto(entries, start, n).unwrap().wf(),
    decreases n,
{
    if n > 0 {
        let before = schema_upto(entries, start, (n - 1) as nat);
        lemma_schema_upto_wf(entries, start, (n - 1) as nat);
        lemma_add_entry_wf(before.unwrap(), entries[n - 1]);
    }
}

/// The identifier of the last column of a group, or zero.
fn last_column_id(cols: &Vec<ColumnDef>) -> (r: u32)
    ensures
        r == last_id(columns_view(cols@)),
{
    let n: usize = cols.len();
    if n == 0 {
        0
    } else {
        cols[n - 1].id
    }
}

/// Adds a column to the group of the schema that its identifier names.
fn add_column(s: &mut TableSchema, c: ColumnDef) -> (r: Result<(), EseError>)
    ensures
        match spec_add_column(old(s)@, c@) {
            Ok(v) => r.is_ok() && final(s)@ == v,
            Err(e) => r == Err::<(), EseError>(e),
        },
{
    let mut c: ColumnDef = c;
    let ghost cv = c@;
    proof {
        reveal(spec_add_column);
    }
    if 1 <= c.id && c.id <= LAST_FIXED_ID {
        let n: usize = s.fixed.len();
        let offset: u64 = if n == 0 {
            0
        } else {
            s.fixed[n - 1].offset as u64 + s.fixed[n - 1].size as u64
        };
        if c.id <= last_column_id(&s.fixed) || offset > u32::MAX as u64 {
            return Err(EseError::CatalogCorrupt);
        }
        c.offset = offset as u32;
        let ghost before = columns_view(s.fixed@);
        s.fixed.push(c);
        assert(columns_view(s.fixed@) =~= before.push(placed(cv, offset as u32)));
        Ok(())
    } else if 1 <= c.id && c.id <= LAST_VARIABLE_ID {
        if c.id <= last_column_id(&s.variable) {
            return Err(EseError::CatalogCorrupt);
        }
        c.offset = 0;
        let ghost before = columns_view(s.variable@);
        s.variable.push(c);
        assert(columns_view(s.variable@) =~= before.push(placed(cv, 0)));
        Ok(())
    } else if 1 <= c.id && c.id <= LAST_TAGGED_ID {
        if c.id <= last_column_id(&s.tagged) {
            return Err(EseError::CatalogCorrupt);
        }
        c.offset = 0;
        let ghost before = columns_view(s.tagged@);
        s.tagged.push(c);
        assert(columns_view(s.tagged@) =~= before.push(placed(cv, 0)));
        Ok(())
    } else {
        Err(EseError::CatalogCorrupt)
    }
}

/// Applies one catalog entry to the schema of a table.
fn apply_entry(s: &mut TableSchema, e: &CatalogEntry) -> (r: Result<(), EseError>)
    ensures
        match add_entry(old(s)@, e@) {
            Ok(v) => r.is_ok() && final(s)@ == v,
            Err(x) => r == Err::<(), EseError>(x),
        },
{
    proof {
        reveal(add_entry);
    }
    match e {
        CatalogEntry::Column {
            table_id,
            column_id,
            name,
            column_type,
            size,
            flags,
            code_page,
            default_value,
        } => {
            if *table_id == s.table_id {
                let c: ColumnDef = ColumnDef {
                    id: *column_id,
                    name: copy_bytes(name),
                    column_type: *column_type,
                    size: *size,
                    offset: 0,
                    code_page: *code_page,
                    flags: *flags,
                    default_value: copy_bytes(default_value),
                };
                add_column(s, c)
            } else {
                Ok(())
            }
        },
        CatalogEntry::LongValue { table_id, root_page, .. } => {
            if *table_id == s.table_id {
                s.long_value_root = Some(*root_page);
            }
            Ok(())
        },
        _ => Ok(()),
    }
}

impl Catalog {
    /// The number of entries.
    pub fn len(&self) -> (r: usize)
        ensures
            r == self@.len(),
    {
        self.entries.len()
    }

    /// The position of the first table named `name`; `None` where the catalog
    /// describes no table of the name. Names are compared byte by byte.
    pub fn find_table(&self, name: &[u8]) -> (r: Option<usize>)
        ensures
            match r {
                Some(k) => k < self@.len() && k == table_position(
                    self@,
                    self@.len() as int,
                    name@,
                    0,
                ) && is_table_named(self@[k as int], name@),
                None => table_position(self@, self@.len() as int, name@, 0) == self@.len(),
            },
    {
        let n: usize = self.entries.len();
        let k: usize = find_named(&self.entries, n, name);
        if k < n {
            Some(k)
        } else {
            None
        }
    }

    /// The schema of the table named `name`: its columns in catalog order,
    /// each in the group that its identifier names, the fixed columns with
    /// their offsets, and the root of its long-value tree.
    ///
    /// Fails with `TableNotFound` where the catalog describes no table of the
    /// name, and with `CatalogCorrupt` where the identifiers of the table's
    /// columns do not ascend within their groups.
    pub fn table_schema(&self, name: &[u8]) -> (r: Result<TableSchema, EseError>)
        ensures
            match spec_table_schema(self@, name@) {
                Ok(v) => r.is_ok() && r.unwrap()@ == v && v.wf(),
                Err(e) => r.is_err() && r.unwrap_err() == e,
            },
    {
        let n: usize = self.entries.len();
        let k: usize = match self.find_table(name) {
            Some(k) => k,
            None => {
                return Err(EseError::TableNotFound);
            },
        };
        let ghost ev = self@;
        assert(ev[k as int] == self.entries@[k as int]@);
        let mut schema: TableSchema = match &self.entries[k] {
            CatalogEntry::Table { object_id, name: table_name, root_page, .. } => TableSchema {
                table_id: *object_id,
                name: copy_bytes(table_name),
                root_page: *root_page,
                long_value_root: None,
                fixed: Vec::new(),
                variable: Vec::new(),
                tagged: Vec::new(),
            },
            _ => {
                return Err(EseError::TableNotFound);
            },
        };
        let ghost start = empty_schema(ev[k as int]);
        proof {
            assert(columns_view(schema.fixed@) =~= Seq::<ColumnView>::empty());
            assert(columns_view(schema.variable@) =~= Seq::<ColumnView>::empty());
            assert(columns_view(schema.tagged@) =~= Seq::<ColumnView>::empty());
            assert(schema@ == start);
        }
        let mut i: usize = 0;
        while i < n
            invariant
                n == self.entries@.len(),
                i <= n,
                ev == self@,
                spec_table_schema(ev, name@) == schema_upto(ev, start, n as nat),
                schema_upto(ev, start, i as nat) == Ok::<SchemaView, EseError>(schema@),
            decreases n - i,
        {
            assert(ev[i as int] == self.entries@[i as int]@);
            let ghost before = schema@;
            match apply_entry(&mut schema, &self.entries[i]) {
                Ok(()) => {},
                Err(e) => {
                    proof {
                        assert(schema_upto(ev, start, (i + 1) as nat) == add_entry(
                            before,
                            ev[i as int],
                        ));
                        lemma_schema_error_stays(ev, start, (i + 1) as nat, n as nat);
                    }
                    return Err(e);
                },
            }
            i = i + 1;
        }
        proof {
            lemma_schema_upto_wf(ev, start, n as nat);
        }
        Ok(schema)
    }

    /// The names of the tables, in catalog order.
    pub fn table_names(&self) -> (r: Vec<Vec<u8>>)
        ensures
            names_view(r@) == table_names_upto(self@, self@.len()),
    {
        let n: usize = self.entries.len();
        let ghost ev = self@;
        let mut out: Vec<Vec<u8>> = Vec::new();
        let mut i: usize = 0;
        assert(names_view(out@) =~= Seq::<Seq<u8>>::empty());
        while i < n
            invariant
                n == self.entries@.len(),
                i <= n,
                ev == self@,
                names_view(out@) == table_names_upto(ev, i as nat),
            decreases n - i,
        {
            assert(ev[i as int] == self.entries@[i as int]@);
            let ghost before = names_view(out@);
            match &self.entries[i] {
                CatalogEntry::Table { name, .. } => {
                    let copy: Vec<u8> = copy_bytes(name);
                    out.push(copy);
                    assert(names_view(out@) =~= before.push(name@));
                },
                _ => {},
            }
            i = i + 1;
        }
        out
    }
}

/// The views of a sequence of names, element by element.
pub open spec fn names_view(v: Seq<Vec<u8>>) -> Seq<Seq<u8>> {
    Seq::new(v.len(), |i: int| v[i]@)
}

/// The names of the tables among the first `n` entries, in order.
pub open spec fn table_names_upto(entries: Seq<EntryView>, n: nat) -> Seq<Seq<u8>>
    decreases n,
{
    if n == 0 {
        Seq::empty()
    } else {
        match entries[n - 1] {
            EntryView::Table { name, .. } => table_names_upto(entries, (n - 1) as nat).push(name),
            _ => table_names_upto(entries, (n - 1) as nat),
        }
    }
}

/// The catalog build is deterministic: two catalogs built from the same
/// bytes hold the same entries in the same order, and give every table the
/// same schema, column by column.
pub proof fn lemma_build_is_deterministic(
    file: Seq<u8>,
    fmt: PageFormat,
    first: Catalog,
    second: Catalog,
    name: Seq<u8>,
)
    requires
        spec_build_catalog(file, fmt) == Ok::<Seq<EntryView>, EseError>(first@),
        spec_build_catalog(file, fmt) == Ok::<Seq<EntryView>, EseError>(second@),
    ensures
        first@ == second@,
        spec_table_schema(first@, name) == spec_table_schema(second@, name),
{
}

} // verus!
