use vstd::prelude::*;

verus! {

/// A location in the source files of a compile session.
#[derive(Clone, Copy, Debug, PartialEq, Eq, Structural)]
pub struct Pos {
    /// Index of the file in the session's file table.
    pub file: usize,
    /// Line, starting at 0.
    pub line: usize,
    /// Column, starting at 0.
    pub column: usize,
}

impl Pos {
    pub fn new(file: usize, line: usize, column: usize) -> (r: Pos)
        ensures
            r == (Pos { file, line, column }),
    {
        Pos { file, line, column }
    }
}

/// The view of an optional borrowed name.
pub open spec fn opt_str_view(s: Option<&str>) -> Option<Seq<char>> {
    match s {
        Some(t) => Some(t@),
        None => None,
    }
}

/// The view of an optional owned name.
pub open spec fn opt_string_view(s: Option<String>) -> Option<Seq<char>> {
    match s {
        Some(t) => Some(t@),
        None => None,
    }
}

/// Something declared at a position, with an optional name.
pub trait HasPos {
    spec fn name_view(&self) -> Option<Seq<char>>;

    spec fn pos_view(&self) -> Pos;

    fn name(&self) -> (r: Option<&str>)
        ensures
            opt_str_view(r) == self.name_view(),
    ;

    fn position(&self) -> (r: Pos)
        ensures
            r == self.pos_view(),
    ;
}

/// Copies an optional borrowed name into an owned one.
pub fn to_owned_name(s: Option<&str>) -> (r: Option<String>)
    ensures
        opt_string_view(r) == opt_str_view(s),
{
    match s {
        Some(t) => Some(t.to_owned()),
        None => None,
    }
}

/// Compares two optional names by their characters.
pub fn same_name(a: &Option<String>, b: &Option<String>) -> (r: bool)
    ensures
        r == (opt_string_view(*a) == opt_string_view(*b)),
{
    match (a, b) {
        (Some(x), Some(y)) => x.eq(y),
        (None, None) => true,
        _ => false,
    }
}

} // verus!
