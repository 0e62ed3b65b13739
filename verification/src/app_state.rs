//! The filter widgets of the terminal front end: one editable filter per row.
use vstd::prelude::*;

verus! {

/// Kind of a filter widget.
#[derive(Debug, Clone, Copy, PartialEq, Eq, Structural)]
pub enum FilterType {
    Title,
    Pgn,
    Severity,
}

/// One filter row: its name, kind, whether it is enabled, and the text typed into it.
#[derive(Debug, Clone, PartialEq, Eq)]
pub struct FilterWidget {
    pub name: String,
    pub filter_type: FilterType,
    pub enabled: bool,
    pub input_text: String,
}

impl FilterWidget {
    /// A disabled widget with empty text.
    pub fn new(name: &str, filter_type: FilterType) -> (r: Self)
        ensures
            r.name@ == name@,
            r.filter_type == filter_type,
            !r.enabled,
            r.input_text@ == Seq::<char>::empty(),
    {
        FilterWidget { name: String::from_str(name), filter_type, enabled: false, input_text: String::new() }
    }
}

} // verus!
