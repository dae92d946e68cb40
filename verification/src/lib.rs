//! Line counts for the files of one directory.
//!
//! The library works on what was read: the entries of the directory and the
//! content of its files. It counts the lines of each file, tells text from
//! other content by the signature at the start of a file, orders the files
//! by line count and renders the report.
//!
//! - `lines`: counting lines.
//! - `filetype`: the category of a file's content.
//! - `listing`: the entries of a directory that are files.
//! - `record`: one row of the report.
//! - `order`: ordering the rows.
//! - `report`: from the files to the printed report, and the run as a whole.
//! - `text`: path segments, numerals and padding.

pub mod filetype;
pub mod lines;
pub mod listing;
pub mod order;
pub mod record;
pub mod report;
pub mod text;

pub use filetype::getfiletype;
pub use lines::linecount;
pub use listing::filenames;
pub use record::Filelines;
pub use report::run;
