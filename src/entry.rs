//! One recognised annotation and its normalised parts.

use vstd::prelude::*;
use crate::text::{lower_case, lower_of, to_lower, to_upper, upper_case, upper_of};

verus! {

/// The category of an annotation, folded to upper case (`TODO`, `FIXME`).
pub struct Keyword(pub String);

impl Keyword {
    pub fn new(k: &str) -> (r: Self)
        ensures
            r.0@ == upper_of(k@),
            r.0@ == upper_case(k@),
    {
        Keyword(to_upper(k))
    }
}

/// The optional person or tag in parentheses, folded to lower case.
pub struct Name(pub String);

impl Name {
    pub fn new(n: &str) -> (r: Self)
        ensures
            r.0@ == lower_of(n@),
            r.0@ == lower_case(n@),
    {
        Name(to_lower(n))
    }
}

/// What an entry is, as plain values.
pub struct EntryView {
    pub keyword: Seq<char>,
    pub name: Option<Seq<char>>,
    pub file_path: Seq<char>,
    pub line: nat,
    pub message: Seq<char>,
}

/// One annotation found at `line` (counted from 1) of `file_path`.
pub struct TodoItem {
    pub keyword: Keyword,
    pub name: Option<Name>,
    pub file_path: String,
    pub line: usize,
    pub message: String,
}

pub open spec fn name_view(n: Option<Name>) -> Option<Seq<char>> {
    match n {
        Some(x) => Some(x.0@),
        None => None,
    }
}

impl View for TodoItem {
    type V = EntryView;

    open spec fn view(&self) -> EntryView {
        EntryView {
            keyword: self.keyword.0@,
            name: name_view(self.name),
            file_path: self.file_path@,
            line: self.line as nat,
            message: self.message@,
        }
    }
}

/// The views of a sequence of entries.
pub open spec fn views(s: Seq<TodoItem>) -> Seq<EntryView> {
    s.map_values(|e: TodoItem| e@)
}

} // verus!
