//! Output records: what a search hands to whoever prints.

use vstd::prelude::*;

verus! {

/// One line of output: the 0-based index of the input line it shows, and
/// the text to print for it.
#[derive(Debug, PartialEq, Eq)]
pub struct OutputRecord {
    pub index: usize,
    pub text: String,
}

/// The 0-based line index of each record.
pub open spec fn indices_of(records: Seq<OutputRecord>) -> Seq<int> {
    records.map_values(|r: OutputRecord| r.index as int)
}

} // verus!
