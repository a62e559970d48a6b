use vstd::prelude::*;
use crate::page::Page;

verus! {

/// The list of all wiki pages; a hint is shown where there are none.
pub struct Index {
    pub pages: Vec<Page>,
    pub hide_hint: bool,
}

impl Index {
    pub fn new(pages: Vec<Page>) -> (index: Index)
        ensures
            index.pages@ == pages@,
            index.hide_hint == (pages@.len() == 0),
    {
        Index { hide_hint: pages.len() == 0, pages }
    }
}

} // verus!
