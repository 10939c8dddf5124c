//! Read-only parser for Extensible Storage Engine database files.
//!
//! The crate decodes the page-structured file format: the file header, the
//! pages and their nodes, the records stored in leaf nodes, the catalog that
//! describes every table, and a cursor that walks a table's leaf pages.
//! Every function is total on untrusted input: malformed bytes are reported
//! as an [`EseError`], never as a panic.
//!
//! ```no_run
//! use ese_rs::Database;
//!
//! # fn main() -> Result<(), ese_rs::EseError> {
//! let bytes: Vec<u8> = Vec::new(); // the bytes of a database file
//! let db = Database::from_bytes(bytes)?;
//! let mut cursor = db.open_table(b"MyTable")?;
//! while let Some(record) = cursor.next_row()? {
//!     println!("{:?}", record);
//! }
//! # Ok(())
//! # }
//! ```
pub mod catalog;
pub mod constants;
pub mod cursor;
pub mod database;
pub mod encoding;
pub mod error;
pub mod header;
pub mod page;
pub mod record;
pub mod types;
pub mod utils;

pub use constants::{CatalogType, CodePage, ColumnType};
pub use cursor::TableCursor;
pub use database::Database;
pub use error::EseError;
pub use types::ColumnValue;
