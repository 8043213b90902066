//! The value cell: a single stored parameter value, able to render itself to
//! text and to be duplicated independently of its owner.

use vstd::prelude::*;

verus! {

/// A payload that can be stored in a parameter store: anything that can
/// render itself to text. `spec_get` is the mathematical statement of what
/// the payload renders to; `get` must produce exactly that text.
pub trait Param: Sized {
    /// The text this payload renders to.
    spec fn spec_get(&self) -> Seq<char>;

    /// Render the payload to text.
    fn get(&self) -> (r: String)
        ensures
            r@ == self.spec_get(),
    ;
}

/// The full capability set a dynamic payload needs: rendering plus
/// duplication. A duplicate renders to the same text as the original and is
/// independent of it.
pub trait ParamFull: Param {
    /// Produce an independent payload that renders to the same text.
    fn boxed_clone(&self) -> (r: Self)
        ensures
            r.spec_get() == self.spec_get(),
    ;
}

/// The built-in payload: a plain string that renders to itself.
#[derive(Debug)]
pub struct StringParam {
    value: String,
}

impl StringParam {
    /// Wrap a string as a payload.
    pub fn new(value: String) -> (r: StringParam)
        ensures
            r.spec_get() == value@,
    {
        StringParam { value }
    }
}

impl Param for StringParam {
    closed spec fn spec_get(&self) -> Seq<char> {
        self.value@
    }

    fn get(&self) -> (r: String)
    {
        self.value.clone()
    }
}

impl ParamFull for StringParam {
    fn boxed_clone(&self) -> (r: StringParam)
    {
        StringParam { value: self.value.clone() }
    }
}

/// One stored cell of a parameter store. The tag records how the value was
/// supplied; equality of stores never looks at the tag, only at the text the
/// cell resolves to.
#[derive(Debug)]
pub enum ValueCell {
    /// A built-in text payload, stored as given.
    Text(String),
    /// The text a caller-supplied dynamic payload rendered to when it was
    /// inserted.
    Rendered(String),
}

impl View for ValueCell {
    type V = Seq<char>;

    /// The text this cell resolves to.
    open spec fn view(&self) -> Seq<char> {
        match self {
            ValueCell::Text(s) => s@,
            ValueCell::Rendered(s) => s@,
        }
    }
}

impl ValueCell {
    /// Resolve the cell to its text. Never fails and never changes the cell.
    pub fn render(&self) -> (r: String)
        ensures
            r@ == self@,
    {
        match self {
            ValueCell::Text(s) => s.clone(),
            ValueCell::Rendered(s) => s.clone(),
        }
    }

    /// Produce an independent cell resolving to the same text.
    pub fn duplicate(&self) -> (r: ValueCell)
        ensures
            r == *self,
    {
        match self {
            ValueCell::Text(s) => ValueCell::Text(s.clone()),
            ValueCell::Rendered(s) => ValueCell::Rendered(s.clone()),
        }
    }
}

} // verus!
