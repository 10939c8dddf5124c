//! The error vocabulary shared by every layer of the parser.
use vstd::prelude::*;

verus! {

/// Why an operation on a database image failed.
///
/// `Checksum` and `PageChecksum` describe integrity mismatches that do not
/// stop decoding: they are reported beside an otherwise usable result. The
/// other variants end the operation that returned them.
#[derive(Clone, Copy, Debug, PartialEq, Eq, Structural)]
pub enum EseError {
    /// The file could not be opened or read.
    Io,
    /// The bytes do not have the structure of a database file or page.
    Format,
    /// The file declares a format version or revision outside the known range.
    UnsupportedVersion { version: u32, revision: u32 },
    /// The checksum stored in the file header differs from the recomputed one.
    Checksum { stored: u32, computed: u32 },
    /// The checksum stored in a page differs from the recomputed one.
    PageChecksum { page: u32, stored: u32, computed: u32 },
    /// The catalog holds a reference that cannot be resolved or an ambiguous name.
    CatalogCorrupt,
    /// An offset or a length inside one record violates the record's bounds.
    RecordDecode,
    /// No table of the requested name exists.
    TableNotFound,
    /// No column of the requested name exists.
    ColumnNotFound,
}

impl EseError {
    /// Whether decoding may continue after this error has been reported.
    pub open spec fn spec_is_fatal(&self) -> bool {
        !(self is Checksum || self is PageChecksum)
    }

    /// Integrity mismatches are reported without stopping; everything else
    /// ends the call that produced it.
    #[verifier::when_used_as_spec(spec_is_fatal)]
    pub fn is_fatal(&self) -> (r: bool)
        ensures
            r == self.spec_is_fatal(),
    {
        match self {
            EseError::Checksum { .. } => false,
            EseError::PageChecksum { .. } => false,
            _ => true,
        }
    }

    /// A short description of the error for messages.
    pub fn describe(&self) -> (r: &'static str)
        ensures
            r@ == self.description(),
    {
        match self {
            EseError::Io => "the file could not be read",
            EseError::Format => "not a valid database structure",
            EseError::UnsupportedVersion { .. } => "unsupported format version",
            EseError::Checksum { .. } => "header checksum mismatch",
            EseError::PageChecksum { .. } => "page checksum mismatch",
            EseError::CatalogCorrupt => "the catalog is corrupt",
            EseError::RecordDecode => "a record could not be decoded",
            EseError::TableNotFound => "no such table",
            EseError::ColumnNotFound => "no such column",
        }
    }

    /// The text that [`EseError::describe`] returns.
    pub open spec fn description(&self) -> Seq<char> {
        match self {
            EseError::Io => "the file could not be read"@,
            EseError::Format => "not a valid database structure"@,
            EseError::UnsupportedVersion { .. } => "unsupported format version"@,
            EseError::Checksum { .. } => "header checksum mismatch"@,
            EseError::PageChecksum { .. } => "page checksum mismatch"@,
            EseError::CatalogCorrupt => "the catalog is corrupt"@,
            EseError::RecordDecode => "a record could not be decoded"@,
            EseError::TableNotFound => "no such table"@,
            EseError::ColumnNotFound => "no such column"@,
        }
    }
}

} // verus!
