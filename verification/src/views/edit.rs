use vstd::prelude::*;

verus! {

/// The edit form of a page.
pub struct Edit {
    pub markdown: String,
}

impl Edit {
    pub fn new(markdown: String) -> (edit: Edit)
        ensures
            edit.markdown@ == markdown@,
    {
        Edit { markdown }
    }
}

} // verus!
