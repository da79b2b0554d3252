//! Startup configuration: which input column (if any) supplies the
//! X-axis labels, how series are sorted, and the raw scale string.

use vstd::prelude::*;
use crate::text::str_eq;

verus! {

/// Selector for the X-label column: by 0-based position, by exact
/// title, or none at all.
#[derive(Debug, Clone)]
pub enum Column {
    Index(usize),
    Title(String),
    Unset,
}

/// Whether the selector designates the column with this title at this
/// position.
pub open spec fn col_matches(c: &Column, title: Seq<char>, index: int) -> bool {
    match c {
        Column::Unset => false,
        Column::Index(ci) => index == *ci as int,
        Column::Title(ct) => ct@ == title,
    }
}

impl Column {
    pub fn matches(&self, title: &str, index: usize) -> (r: bool)
        ensures
            r == col_matches(self, title@, index as int),
    {
        match self {
            Column::Unset => false,
            Column::Index(i) => *i == index,
            Column::Title(t) => str_eq(t.as_str(), title),
        }
    }
}

#[derive(Debug, Clone, Copy, PartialEq, Eq, Structural)]
pub enum SortingMode {
    ValuesDesc,
    TitlesNumericAsc,
}

pub struct Settings {
    pub input_file: Option<String>,
    pub x: Column,
    pub scales: Option<String>,
    pub paired: bool,
    pub sort_mode: SortingMode,
}

} // verus!
