use vstd::prelude::*;
use crate::page::Page;

verus! {

/// The pages offered by the jump box.
pub struct Jump {
    pub pages: Vec<Page>,
}

impl Jump {
    pub fn new(pages: Vec<Page>) -> (jump: Jump)
        ensures
            jump.pages@ == pages@,
    {
        Jump { pages }
    }
}

} // verus!
