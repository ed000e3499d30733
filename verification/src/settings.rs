//! What the scanner remembers between runs.
use vstd::prelude::*;
use crate::language::Language;

verus! {

/// How results are shown: a grid of cells or a table.
#[derive(Clone, Copy, Debug, PartialEq, Eq, Structural)]
pub enum ResultView {
    Grid,
    Table,
}

/// The settings kept between runs.
#[derive(Debug)]
pub struct AppSettings {
    pub last_range: String,
    pub result_view: ResultView,
    pub resolve_hostnames: bool,
    pub language: Language,
}

impl Default for AppSettings {
    /// No remembered range, the grid view, no name lookups, Korean.
    fn default() -> (r: Self)
        ensures
            r.last_range@ == Seq::<char>::empty(),
            r.result_view == ResultView::Grid,
            !r.resolve_hostnames,
            r.language == Language::Korean,
    {
        AppSettings {
            last_range: String::new(),
            result_view: ResultView::Grid,
            resolve_hostnames: false,
            language: Language::Korean,
        }
    }
}

} // verus!
