//! Extraction of the top-level declarations of one source file into
//! canonical, name-ordered tables.
//!
//! The text of a file is handed to a parser, which reads the mode that the
//! header of the file declares and scans the file once for its classes,
//! functions, type aliases and constants. What the scan comes by is a
//! sequence of named entries for each of the four kinds, in the order of the
//! scan, where a name may occur more than once. [`parse_decls`] turns the
//! four sequences into four tables: in each a name occurs once, with the
//! payload of its last entry, and the entries stand in the order of their
//! names. A scan that produces no syntax root fails the extraction as a
//! whole; the syntax errors that a scan recovers from do not.
//!
//! The parser itself is no part of this crate: it comes in as a
//! [`DeclParser`], and what is proved of the extraction holds for every
//! answer that a parser can give.

pub mod ascending;
pub mod canon;
pub mod decls;
pub mod env;
pub mod extract;
pub mod mode;
pub mod name_order;
pub mod source;
pub mod table;

pub use decls::Decls;
pub use decls::RawDecls;
pub use env::ParserEnv;
pub use extract::decls_of_scan;
pub use extract::parse_decls;
pub use extract::DeclParser;
pub use extract::ScanOutput;
pub use mode::Mode;
pub use mode::ParseMode;
pub use source::Prefix;
pub use source::RelativePath;
pub use source::SourceText;
pub use table::canonicalize;
pub use table::DeclTable;
