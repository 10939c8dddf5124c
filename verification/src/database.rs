//! A database image held in memory: its header, its catalog, and the cursors
//! that read its tables.
use crate::catalog::{
    build_catalog, names_view, spec_build_catalog, spec_table_schema, table_names_upto, Catalog,
    EntryView,
};
use crate::constants::{flag_set, PAGE_FLAG_ROOT};
use crate::cursor::{page_bytes, page_ok, CursorState, Direction, PageSource, TableCursor};
use crate::error::EseError;
use crate::header::{
    checksum_verdict, decode, header_fault, header_fields, verify_checksum, FileHeader,
};
use crate::page::{page_flags, Page, PageFormat};
use crate::types::{SchemaView, TableSchema};
use vstd::prelude::*;
use vstd::slice::slice_subrange;

verus! {

/// The page layout that a header declares.
pub open spec fn format_of(h: FileHeader) -> PageFormat {
    PageFormat { page_size: h.page_size, revision: h.format_revision }
}

/// The bytes over which the header checksum is judged: the first page of the
/// file, or all of a file shorter than a page.
pub open spec fn header_region(file: Seq<u8>) -> Seq<u8> {
    let size = header_fields(file).page_size as int;
    if file.len() < size {
        file
    } else {
        file.subrange(0, size)
    }
}

/// The mismatch of the header checksum, where there is one.
pub open spec fn header_report(file: Seq<u8>) -> Option<EseError> {
    match checksum_verdict(header_region(file)) {
        Ok(_) => None,
        Err(e) => Some(e),
    }
}

/// The header and the catalog of a database image, or why it cannot be
/// opened: a header fault first, else what the catalog build reports.
pub open spec fn spec_open(file: Seq<u8>) -> Result<(FileHeader, Seq<EntryView>), EseError> {
    match header_fault(file) {
        Some(e) => Err(e),
        None => match spec_build_catalog(file, format_of(header_fields(file))) {
            Err(e) => Err(e),
            Ok(entries) => Ok((header_fields(file), entries)),
        },
    }
}

/// The schema with which a table is opened, or why it cannot be: no table of
/// the name, a corrupt column list, a root page that the file does not hold,
/// or a root page that is not flagged as the root of a tree.
pub open spec fn spec_open_table(
    file: Seq<u8>,
    fmt: PageFormat,
    entries: Seq<EntryView>,
    name: Seq<u8>,
) -> Result<SchemaView, EseError> {
    match spec_table_schema(entries, name) {
        Err(e) => Err(e),
        Ok(s) => if !page_ok(file, fmt, s.root_page) {
            Err(EseError::Format)
        } else if !flag_set(page_flags(page_bytes(file, fmt, s.root_page)), PAGE_FLAG_ROOT as int) {
            Err(EseError::CatalogCorrupt)
        } else {
            Ok(s)
        },
    }
}

/// An opened database: the bytes of the file, the decoded header and the
/// catalog built from them.
#[derive(Debug)]
pub struct Database {
    pub data: Vec<u8>,
    pub header: FileHeader,
    /// The mismatch of the header checksum, where the file has one. The
    /// database is usable all the same.
    pub checksum_error: Option<EseError>,
    pub catalog: Catalog,
}

impl Database {
    /// The page layout of the file.
    pub open spec fn spec_format(&self) -> PageFormat {
        format_of(self.header)
    }

    /// The validity of a database value: header and catalog are those of its
    /// bytes.
    pub open spec fn wf(&self) -> bool {
        &&& spec_open(self.data@) == Ok::<(FileHeader, Seq<EntryView>), EseError>(
            (self.header, self.catalog@),
        )
        &&& self.checksum_error == header_report(self.data@)
        &&& self.catalog.wf()
    }

    /// Opens the database whose file holds `data`.
    ///
    /// The header is decoded, then the catalog is built. A mismatch of the
    /// header checksum does not fail the call: it is kept in
    /// `checksum_error`. The call fails with what the header decoder reports
    /// (`Format`, `UnsupportedVersion`), else with what the catalog build
    /// reports (`Format`, `CatalogCorrupt`).
    pub fn from_bytes(data: Vec<u8>) -> (r: Result<Database, EseError>)
        ensures
            match spec_open(data@) {
                Ok((h, entries)) => r.is_ok() && r.unwrap().data@ == data@ && r.unwrap().header
                    == h && r.unwrap().catalog@ == entries && r.unwrap().wf(),
                Err(e) => r.is_err() && r.unwrap_err() == e,
            },
    {
        let header: FileHeader = match decode(data.as_slice()) {
            Ok(h) => h,
            Err(e) => {
                return Err(e);
            },
        };
        let total: usize = data.len();
        let size: usize = header.page_size as usize;
        let region: &[u8] = if total < size {
            data.as_slice()
        } else {
            slice_subrange(data.as_slice(), 0, size)
        };
        let report: Option<EseError> = match verify_checksum(region) {
            Ok(()) => None,
            Err(e) => Some(e),
        };
        let source: PageSource = PageSource {
            data: data.as_slice(),
            format: PageFormat { page_size: header.page_size, revision: header.format_revision },
        };
        let catalog: Catalog = match build_catalog(&source) {
            Ok(c) => c,
            Err(e) => {
                return Err(e);
            },
        };
        Ok(Database { data: data, header: header, checksum_error: report, catalog: catalog })
    }

    /// The page layout of the file.
    pub fn format(&self) -> (r: PageFormat)
        ensures
            r == self.spec_format(),
    {
        PageFormat { page_size: self.header.page_size, revision: self.header.format_revision }
    }

    /// The pages of the file.
    pub fn source(&self) -> (r: PageSource<'_>)
        ensures
            r.data@ == self.data@,
            r.format == self.spec_format(),
    {
        PageSource { data: self.data.as_slice(), format: self.format() }
    }

    /// Decodes page `n` of the file.
    pub fn page(&self, n: u32) -> (r: Result<Page<'_>, EseError>)
        ensures
            match r {
                Ok(p) => {
                    &&& page_ok(self.data@, self.spec_format(), n)
                    &&& p.wf()
                    &&& p.raw@ == page_bytes(self.data@, self.spec_format(), n)
                    &&& p.number == n
                    &&& p.format == self.spec_format()
                },
                Err(e) => e == EseError::Format && !page_ok(self.data@, self.spec_format(), n),
            },
    {
        self.source().page(n)
    }

    /// Opens the table named `name`: a cursor before its first row.
    ///
    /// Fails with `TableNotFound` where the catalog describes no table of
    /// exactly this name, with `CatalogCorrupt` where the table's columns are
    /// inconsistent or its root page is not flagged as a root, and with
    /// `Format` where the file does not hold a valid root page.
    pub fn open_table(&self, name: &[u8]) -> (r: Result<TableCursor<'_>, EseError>)
        ensures
            match spec_open_table(self.data@, self.spec_format(), self.catalog@, name@) {
                Ok(s) => {
                    &&& r.is_ok()
                    &&& r.unwrap().schema@ == s
                    &&& s.wf()
                    &&& r.unwrap().source.data@ == self.data@
                    &&& r.unwrap().source.format == self.spec_format()
                    &&& r.unwrap().state == CursorState::BeforeFirst
                    &&& r.unwrap().direction == Direction::Forward
                    &&& r.unwrap().bound.is_none()
                    &&& r.unwrap().steps_left == self.data@.len()
                },
                Err(e) => r.is_err() && r.unwrap_err() == e,
            },
    {
        let schema: TableSchema = match self.catalog.table_schema(name) {
            Ok(s) => s,
            Err(e) => {
                return Err(e);
            },
        };
        let source: PageSource = self.source();
        let root: Page = match source.page(schema.root_page) {
            Ok(p) => p,
            Err(e) => {
                return Err(EseError::Format);
            },
        };
        if !root.is_root() {
            return Err(EseError::CatalogCorrupt);
        }
        Ok(TableCursor::new(source, schema))
    }

    /// The names of the tables of the database, in catalog order.
    pub fn table_names(&self) -> (r: Vec<Vec<u8>>)
        ensures
            names_view(r@) == table_names_upto(self.catalog@, self.catalog@.len()),
    {
        self.catalog.table_names()
    }
}

} // verus!
