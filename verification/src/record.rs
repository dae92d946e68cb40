//! One row of the report: a file's name and the number of its lines.

use crate::text::{basename, final_segment, SEPARATOR};
use vstd::prelude::*;

verus! {

/// What a row states: the name of a file and how many lines it has.
pub struct Row {
    pub name: Seq<char>,
    pub lines: nat,
}

/// A file of the directory with its line count. The name is the final
/// segment of the file's path and so holds no separator.
#[derive(Debug)]
pub struct Filelines {
    name: String,
    lines: u64,
}

impl View for Filelines {
    type V = Row;

    closed spec fn view(&self) -> Row {
        Row { name: self.name@, lines: self.lines as nat }
    }
}

impl Clone for Filelines {
    fn clone(&self) -> (copy: Filelines)
        ensures
            copy@ == self@,
    {
        proof {
            use_type_invariant(self);
        }
        Filelines { name: self.name.clone(), lines: self.lines }
    }
}

/// The rows that a sequence of records stands for, in the same order.
pub open spec fn rows_of(records: Seq<Filelines>) -> Seq<Row> {
    records.map_values(|f: Filelines| f@)
}

impl Filelines {
    #[verifier::type_invariant]
    spec fn name_is_final_segment(&self) -> bool {
        !self.name@.contains(SEPARATOR)
    }

    /// The record of the file at `path`, which has `lines` lines. Only the
    /// final segment of the path is kept.
    pub fn new(path: &str, lines: u64) -> (record: Filelines)
        ensures
            record@ == (Row { name: final_segment(path@), lines: lines as nat }),
    {
        Filelines { name: basename(path), lines }
    }

    /// The file's name, which holds no separator.
    pub fn name(&self) -> (name: &str)
        ensures
            name@ == self@.name,
            !name@.contains(SEPARATOR),
    {
        proof {
            use_type_invariant(self);
        }
        self.name.as_str()
    }

    /// The number of lines in the file.
    pub fn lines(&self) -> (lines: u64)
        ensures
            lines == self@.lines,
    {
        self.lines
    }
}

} // verus!
