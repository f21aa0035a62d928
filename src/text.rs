use vstd::prelude::*;

verus! {

/// Text that either borrows a source buffer or owns its characters. Two texts are equal
/// when their characters are, whatever their storage.
pub trait Text<'a>: Sized {
    spec fn text_view(&self) -> Seq<char>;

    fn from_str_slice(s: &'a str) -> (r: Self)
        ensures
            r.text_view() == s@,
    ;

    fn as_text(&self) -> (r: &str)
        ensures
            r@ == self.text_view(),
    ;
}

impl<'a> Text<'a> for &'a str {
    open spec fn text_view(&self) -> Seq<char> {
        (*self)@
    }

    fn from_str_slice(s: &'a str) -> (r: Self) {
        s
    }

    fn as_text(&self) -> (r: &str) {
        *self
    }
}

impl<'a> Text<'a> for String {
    open spec fn text_view(&self) -> Seq<char> {
        self@
    }

    fn from_str_slice(s: &'a str) -> (r: Self) {
        s.to_owned()
    }

    fn as_text(&self) -> (r: &str) {
        self.as_str()
    }
}

/// Compares two texts by their characters, whatever their storage.
pub fn text_eq<'a, 'b, A: Text<'a>, B: Text<'b>>(a: &A, b: &B) -> (r: bool)
    ensures
        r == (a.text_view() == b.text_view()),
{
    let x: String = a.as_text().to_owned();
    let y: String = b.as_text().to_owned();
    x.eq(&y)
}

} // verus!
