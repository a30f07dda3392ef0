use vstd::prelude::*;

verus! {

/// A plain text value.
#[derive(Debug)]
pub struct StringStore {
    value: String,
}

impl View for StringStore {
    type V = Seq<char>;

    closed spec fn view(&self) -> Seq<char> {
        self.value@
    }
}

impl StringStore {
    pub fn new(value: String) -> (r: StringStore)
        ensures
            r@ == value@,
    {
        StringStore { value }
    }

    pub fn get_value(&self) -> (r: &String)
        ensures
            r@ == self@,
    {
        &self.value
    }
}

} // verus!
