use vstd::prelude::*;

verus! {

/// The form for a new page, with its name filled in.
pub struct New<'name> {
    pub name: &'name str,
}

impl<'name> New<'name> {
    pub fn new(name: &'name str) -> (new: New<'name>)
        ensures
            new.name@ == name@,
    {
        New { name }
    }
}

} // verus!
