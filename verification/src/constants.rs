//! Type codes, flag bits and structural sizes of the file format.
use vstd::prelude::*;

verus! {

/// The signature stored at offset 4 of the file header; also the seed of the
/// exclusive-or checksums.
pub const HEADER_SIGNATURE: u32 = 0x89ab_cdef;

/// The only format version this parser reads.
pub const FORMAT_VERSION: u32 = 0x620;

/// The newest format revision this parser reads.
pub const MAX_FORMAT_REVISION: u32 = 0x200;

/// From this revision on a page header holds an error-correcting checksum.
pub const REVISION_ECC_CHECKSUM: u32 = 0x0b;

/// From this revision on pages larger than 8 KiB use the extended layout.
pub const REVISION_EXTENDED_PAGE: u32 = 0x11;

/// Number of header bytes that hold decoded fields.
pub const HEADER_MIN_LEN: usize = 240;

/// Length of the page header in the basic layout.
pub const PAGE_HEADER_LEN: usize = 40;

/// Length of the page header in the extended layout.
pub const PAGE_HEADER_LEN_EXTENDED: usize = 80;

/// Largest page size of the basic layout.
pub const SMALL_PAGE_LIMIT: u32 = 8192;

/// Page number of the root of the catalog table.
pub const CATALOG_ROOT_PAGE: u32 = 4;

/// Object identifier of the catalog table.
pub const CATALOG_OBJECT_ID: u32 = 2;

/// Page flag: the page is the root of a tree.
pub const PAGE_FLAG_ROOT: u32 = 0x01;

/// Page flag: the page is a leaf.
pub const PAGE_FLAG_LEAF: u32 = 0x02;

/// Page flag: the page is a branch (it has children).
pub const PAGE_FLAG_PARENT: u32 = 0x04;

/// Page flag: the page holds no nodes.
pub const PAGE_FLAG_EMPTY: u32 = 0x08;

/// Page flag: the page belongs to a space tree.
pub const PAGE_FLAG_SPACE_TREE: u32 = 0x20;

/// Page flag: the page belongs to an index.
pub const PAGE_FLAG_INDEX: u32 = 0x40;

/// Page flag: the page belongs to a long-value tree.
pub const PAGE_FLAG_LONG_VALUE: u32 = 0x80;

/// Node flag: the node has been deleted.
pub const NODE_FLAG_DEFUNCT: u8 = 0x02;

/// Node flag: the node's key starts with bytes of the page's common prefix.
pub const NODE_FLAG_COMMON_KEY: u8 = 0x04;

/// Largest identifier of a fixed column.
pub const LAST_FIXED_ID: u32 = 127;

/// Largest identifier of a variable column.
pub const LAST_VARIABLE_ID: u32 = 255;

/// Largest identifier of a tagged column.
pub const LAST_TAGGED_ID: u32 = 0xffff;

/// Bit of a variable-column offset entry that marks a stored null.
pub const VARIABLE_NULL_BIT: u16 = 0x8000;

/// Bit of a tagged-column offset entry: the value starts with a flags byte.
pub const TAGGED_HAS_FLAGS: u16 = 0x4000;

/// Tagged value flag: the stored bytes are a key into the long-value tree.
pub const TAGGED_FLAG_LONG_VALUE: u8 = 0x04;

/// Tagged value flag: the stored bytes are a list of length-prefixed values.
pub const TAGGED_FLAG_MULTI_VALUE: u8 = 0x08;

/// Whether the bit `mask` (a power of two) is set in `value`.
pub open spec fn flag_set(value: int, mask: int) -> bool {
    mask > 0 && (value / mask) % 2 == 1
}

/// Tests one flag bit; `mask` is a power of two.
pub fn has_flag(value: u32, mask: u32) -> (r: bool)
    ensures
        r == flag_set(value as int, mask as int),
{
    mask > 0 && (value / mask) % 2 == 1
}

/// The type of a column, as the catalog records it.
#[derive(Clone, Copy, Debug, PartialEq, Eq, Structural)]
pub enum ColumnType {
    Nil,
    Bit,
    UnsignedByte,
    Short,
    Long,
    Currency,
    IeeeSingle,
    IeeeDouble,
    DateTime,
    Binary,
    Text,
    LongBinary,
    LongText,
    Slv,
    UnsignedLong,
    LongLong,
    Guid,
    UnsignedShort,
}

impl ColumnType {
    /// The column type that a catalog type code stands for.
    pub open spec fn spec_from_code(code: u32) -> Option<ColumnType> {
        if code == 0 {
            Some(ColumnType::Nil)
        } else if code == 1 {
            Some(ColumnType::Bit)
        } else if code == 2 {
            Some(ColumnType::UnsignedByte)
        } else if code == 3 {
            Some(ColumnType::Short)
        } else if code == 4 {
            Some(ColumnType::Long)
        } else if code == 5 {
            Some(ColumnType::Currency)
        } else if code == 6 {
            Some(ColumnType::IeeeSingle)
        } else if code == 7 {
            Some(ColumnType::IeeeDouble)
        } else if code == 8 {
            Some(ColumnType::DateTime)
        } else if code == 9 {
            Some(ColumnType::Binary)
        } else if code == 10 {
            Some(ColumnType::Text)
        } else if code == 11 {
            Some(ColumnType::LongBinary)
        } else if code == 12 {
            Some(ColumnType::LongText)
        } else if code == 13 {
            Some(ColumnType::Slv)
        } else if code == 14 {
            Some(ColumnType::UnsignedLong)
        } else if code == 15 {
            Some(ColumnType::LongLong)
        } else if code == 16 {
            Some(ColumnType::Guid)
        } else if code == 17 {
            Some(ColumnType::UnsignedShort)
        } else {
            None
        }
    }

    /// Decodes a catalog type code; `None` for a code that names no type.
    #[verifier::when_used_as_spec(spec_from_code)]
    pub fn from_code(code: u32) -> (r: Option<ColumnType>)
        ensures
            r == Self::spec_from_code(code),
    {
        match code {
            0 => Some(ColumnType::Nil),
            1 => Some(ColumnType::Bit),
            2 => Some(ColumnType::UnsignedByte),
            3 => Some(ColumnType::Short),
            4 => Some(ColumnType::Long),
            5 => Some(ColumnType::Currency),
            6 => Some(ColumnType::IeeeSingle),
            7 => Some(ColumnType::IeeeDouble),
            8 => Some(ColumnType::DateTime),
            9 => Some(ColumnType::Binary),
            10 => Some(ColumnType::Text),
            11 => Some(ColumnType::LongBinary),
            12 => Some(ColumnType::LongText),
            13 => Some(ColumnType::Slv),
            14 => Some(ColumnType::UnsignedLong),
            15 => Some(ColumnType::LongLong),
            16 => Some(ColumnType::Guid),
            17 => Some(ColumnType::UnsignedShort),
            _ => None,
        }
    }

    /// The catalog type code of this column type.
    pub open spec fn spec_code(&self) -> u32 {
        match self {
            ColumnType::Nil => 0,
            ColumnType::Bit => 1,
            ColumnType::UnsignedByte => 2,
            ColumnType::Short => 3,
            ColumnType::Long => 4,
            ColumnType::Currency => 5,
            ColumnType::IeeeSingle => 6,
            ColumnType::IeeeDouble => 7,
            ColumnType::DateTime => 8,
            ColumnType::Binary => 9,
            ColumnType::Text => 10,
            ColumnType::LongBinary => 11,
            ColumnType::LongText => 12,
            ColumnType::Slv => 13,
            ColumnType::UnsignedLong => 14,
            ColumnType::LongLong => 15,
            ColumnType::Guid => 16,
            ColumnType::UnsignedShort => 17,
        }
    }

    /// Encodes the column type as the catalog stores it.
    #[verifier::when_used_as_spec(spec_code)]
    pub fn code(&self) -> (r: u32)
        ensures
            r == self.spec_code(),
            Self::spec_from_code(r) == Some(*self),
    {
        match self {
            ColumnType::Nil => 0,
            ColumnType::Bit => 1,
            ColumnType::UnsignedByte => 2,
            ColumnType::Short => 3,
            ColumnType::Long => 4,
            ColumnType::Currency => 5,
            ColumnType::IeeeSingle => 6,
            ColumnType::IeeeDouble => 7,
            ColumnType::DateTime => 8,
            ColumnType::Binary => 9,
            ColumnType::Text => 10,
            ColumnType::LongBinary => 11,
            ColumnType::LongText => 12,
            ColumnType::Slv => 13,
            ColumnType::UnsignedLong => 14,
            ColumnType::LongLong => 15,
            ColumnType::Guid => 16,
            ColumnType::UnsignedShort => 17,
        }
    }

    /// The number of bytes a value of this type occupies, for the types whose
    /// values all have one width; `None` for text and binary types.
    pub open spec fn spec_width(&self) -> Option<usize> {
        match self {
            ColumnType::Bit | ColumnType::UnsignedByte => Some(1usize),
            ColumnType::Short | ColumnType::UnsignedShort => Some(2usize),
            ColumnType::Long | ColumnType::UnsignedLong | ColumnType::IeeeSingle => Some(4usize),
            ColumnType::Currency | ColumnType::IeeeDouble | ColumnType::DateTime
            | ColumnType::LongLong => Some(8usize),
            ColumnType::Guid => Some(16usize),
            _ => None,
        }
    }

    /// The width in bytes of a value of this type, where the type fixes it.
    #[verifier::when_used_as_spec(spec_width)]
    pub fn width(&self) -> (r: Option<usize>)
        ensures
            r == self.spec_width(),
    {
        match self {
            ColumnType::Bit | ColumnType::UnsignedByte => Some(1),
            ColumnType::Short | ColumnType::UnsignedShort => Some(2),
            ColumnType::Long | ColumnType::UnsignedLong | ColumnType::IeeeSingle => Some(4),
            ColumnType::Currency | ColumnType::IeeeDouble | ColumnType::DateTime
            | ColumnType::LongLong => Some(8),
            ColumnType::Guid => Some(16),
            _ => None,
        }
    }

    /// Whether values of this type are text.
    pub open spec fn spec_is_text(&self) -> bool {
        self is Text || self is LongText
    }

    /// Whether values of this type are decoded through a code page.
    #[verifier::when_used_as_spec(spec_is_text)]
    pub fn is_text(&self) -> (r: bool)
        ensures
            r == self.spec_is_text(),
    {
        match self {
            ColumnType::Text | ColumnType::LongText => true,
            _ => false,
        }
    }
}

/// The kind of object a catalog row describes.
#[derive(Clone, Copy, Debug, PartialEq, Eq, Structural)]
pub enum CatalogType {
    Table,
    Column,
    Index,
    LongValue,
    Callback,
}

impl CatalogType {
    /// The object kind that a catalog type code stands for.
    pub open spec fn spec_from_code(code: u16) -> Option<CatalogType> {
        if code == 1 {
            Some(CatalogType::Table)
        } else if code == 2 {
            Some(CatalogType::Column)
        } else if code == 3 {
            Some(CatalogType::Index)
        } else if code == 4 {
            Some(CatalogType::LongValue)
        } else if code == 5 {
            Some(CatalogType::Callback)
        } else {
            None
        }
    }

    /// Decodes the object kind of a catalog row.
    #[verifier::when_used_as_spec(spec_from_code)]
    pub fn from_code(code: u16) -> (r: Option<CatalogType>)
        ensures
            r == Self::spec_from_code(code),
    {
        match code {
            1 => Some(CatalogType::Table),
            2 => Some(CatalogType::Column),
            3 => Some(CatalogType::Index),
            4 => Some(CatalogType::LongValue),
            5 => Some(CatalogType::Callback),
            _ => None,
        }
    }
}

/// The character encoding of a text column.
#[derive(Clone, Copy, Debug, PartialEq, Eq, Structural)]
pub enum CodePage {
    /// Seven-bit ASCII (code page 20127).
    Ascii,
    /// Western European single-byte text (code page 1252).
    Ansi,
    /// UTF-16, least significant byte first (code page 1200).
    Unicode,
    /// Any other code page; its text is kept byte by byte.
    Other(u32),
}

impl CodePage {
    /// The encoding that a code page number stands for.
    pub open spec fn spec_from_code(code: u32) -> CodePage {
        if code == 20127 {
            CodePage::Ascii
        } else if code == 1252 {
            CodePage::Ansi
        } else if code == 1200 {
            CodePage::Unicode
        } else {
            CodePage::Other(code)
        }
    }

    /// Decodes a code page number.
    #[verifier::when_used_as_spec(spec_from_code)]
    pub fn from_code(code: u32) -> (r: CodePage)
        ensures
            r == Self::spec_from_code(code),
    {
        match code {
            20127 => CodePage::Ascii,
            1252 => CodePage::Ansi,
            1200 => CodePage::Unicode,
            _ => CodePage::Other(code),
        }
    }

    /// Whether a character of this encoding takes two bytes.
    pub open spec fn spec_is_wide(&self) -> bool {
        self is Unicode
    }

    /// Whether text of this encoding is stored as 16-bit units.
    #[verifier::when_used_as_spec(spec_is_wide)]
    pub fn is_wide(&self) -> (r: bool)
        ensures
            r == self.spec_is_wide(),
    {
        match self {
            CodePage::Unicode => true,
            _ => false,
        }
    }
}

/// The Unicode code point of a code unit of code page 1252: the units 0x80
/// to 0x9f stand for punctuation and letters outside Latin-1; every other
/// unit is its own code point.
pub open spec fn western_code_point(unit: u16) -> u32 {
    match unit {
        0x80 => 0x20ac,
        0x82 => 0x201a,
        0x83 => 0x0192,
        0x84 => 0x201e,
        0x85 => 0x2026,
        0x86 => 0x2020,
        0x87 => 0x2021,
        0x88 => 0x02c6,
        0x89 => 0x2030,
        0x8a => 0x0160,
        0x8b => 0x2039,
        0x8c => 0x0152,
        0x8e => 0x017d,
        0x91 => 0x2018,
        0x92 => 0x2019,
        0x93 => 0x201c,
        0x94 => 0x201d,
        0x95 => 0x2022,
        0x96 => 0x2013,
        0x97 => 0x2014,
        0x98 => 0x02dc,
        0x99 => 0x2122,
        0x9a => 0x0161,
        0x9b => 0x203a,
        0x9c => 0x0153,
        0x9e => 0x017e,
        0x9f => 0x0178,
        _ => unit as u32,
    }
}

impl CodePage {
    /// The Unicode code point that `unit` stands for in text of this code
    /// page: that of code page 1252 for `Ansi`, the unit itself otherwise (a
    /// UTF-16 unit may be half of a surrogate pair).
    pub open spec fn spec_code_point(&self, unit: u16) -> u32 {
        if self is Ansi {
            western_code_point(unit)
        } else {
            unit as u32
        }
    }

    /// The Unicode code point that a code unit of text of this code page
    /// stands for.
    #[verifier::when_used_as_spec(spec_code_point)]
    pub fn code_point(&self, unit: u16) -> (r: u32)
        ensures
            r == self.spec_code_point(unit),
    {
        match self {
            CodePage::Ansi => match unit {
                0x80 => 0x20ac,
                0x82 => 0x201a,
                0x83 => 0x0192,
                0x84 => 0x201e,
                0x85 => 0x2026,
                0x86 => 0x2020,
                0x87 => 0x2021,
                0x88 => 0x02c6,
                0x89 => 0x2030,
                0x8a => 0x0160,
                0x8b => 0x2039,
                0x8c => 0x0152,
                0x8e => 0x017d,
                0x91 => 0x2018,
                0x92 => 0x2019,
                0x93 => 0x201c,
                0x94 => 0x201d,
                0x95 => 0x2022,
                0x96 => 0x2013,
                0x97 => 0x2014,
                0x98 => 0x02dc,
                0x99 => 0x2122,
                0x9a => 0x0161,
                0x9b => 0x203a,
                0x9c => 0x0153,
                0x9e => 0x017e,
                0x9f => 0x0178,
                _ => unit as u32,
            },
            _ => unit as u32,
        }
    }
}

} // verus!
