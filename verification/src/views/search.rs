use vstd::prelude::*;
use crate::page::Page;

verus! {

/// The pages found with a tag.
pub struct Search<'env> {
    pub tag: &'env str,
    pub pages: Vec<Page>,
}

impl<'env> Search<'env> {
    pub fn new(tag: &'env str, pages: Vec<Page>) -> (search: Search<'env>)
        ensures
            search.tag@ == tag@,
            search.pages@ == pages@,
    {
        Search { tag, pages }
    }
}

} // verus!
