//! A picker for LSP location results such as find-all-references: the locations of
//! a query's answer, grouped by file, filtered by what is typed, previewed one at a
//! time, and opened by a double click or the Enter key.
//!
//! The crate holds what the picker computes and decides. Buffers, anchors, paths and
//! drawing belong to the editor around it: it hands in plain values (offsets, rows,
//! lines, times in nanoseconds) and carries out what comes back.
//!
//! - [`location`]: the matches of a list of locations, and in which order
//!   ([`sort`]) they are listed;
//! - [`entries`]: the rows of a list of matches, grouped by file;
//! - [`filter`]: which matches a query lets through, on the text functions of
//!   [`text`];
//! - [`rows`]: what a row shows;
//! - [`delegate`]: the state of an open picker;
//! - [`picker`]: how a picker comes up and goes away.

pub mod delegate;
pub mod entries;
pub mod filter;
pub mod kind;
pub mod location;
pub mod picker;
pub mod rows;
pub mod sort;
pub mod text;

pub use delegate::{ConfirmAction, LspLocationsDelegate, OpenRequest, PreviewUpdate, Row};
pub use entries::Entry;
pub use kind::LspPickerKind;
pub use location::{
    BufferSnapshot, LinePosition, Location, LocationMatch, OffsetRange, ProjectPath,
};
pub use picker::{LspLocationsPicker, LspPickerResults, OpenStep};
