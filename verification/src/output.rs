//! Output formatters: thin adapters over a `WorkbookDiff`.

pub mod text;
pub mod view;
