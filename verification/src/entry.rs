//! The structured log record and its mathematical view.

use vstd::prelude::*;

verus! {

/// Mathematical view of one parsed log record: the 1-based line position and
/// the three captured text fields as character sequences.
pub struct EntryModel {
    pub line_number: int,
    pub severity: Seq<char>,
    pub category: Seq<char>,
    pub message: Seq<char>,
}

/// One structured, immutable record parsed from a single log line.
///
/// `severity` keeps the literal text captured between the first pair of
/// brackets. Mapping it to the closed severity set is deliberately left to the
/// filter gates: a record with an unrecognized label is still produced, it
/// just never satisfies a specific severity filter.
pub struct Entry {
    /// 1-based position of the raw line within its source.
    pub line_number: usize,
    /// Literal severity text captured from the line.
    pub severity: String,
    /// Category label captured from the line.
    pub category: String,
    /// Remainder of the line after the `]: ` delimiter; may be empty.
    pub message: String,
}

impl View for Entry {
    type V = EntryModel;

    open spec fn view(&self) -> EntryModel {
        EntryModel {
            line_number: self.line_number as int,
            severity: self.severity@,
            category: self.category@,
            message: self.message@,
        }
    }
}

impl Clone for Entry {
    fn clone(&self) -> (r: Self)
        ensures
            r == *self,
    {
        Entry {
            line_number: self.line_number,
            severity: self.severity.clone(),
            category: self.category.clone(),
            message: self.message.clone(),
        }
    }
}

} // verus!
