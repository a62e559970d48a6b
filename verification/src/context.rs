//! What the page templates are filled with.

use vstd::prelude::*;
use crate::page::Page;

verus! {

/// A plain page: its title, and whether it is shown inside the desktop app.
pub struct Context {
    pub title: &'static str,
    pub is_app: bool,
}

impl Context {
    pub fn new(title: &'static str) -> (ctx: Context)
        ensures
            ctx.title@ == title@,
            !ctx.is_app,
    {
        Context { title, is_app: false }
    }
}

/// A wiki page shown with a title.
pub struct PageContext<'p> {
    pub page: &'p Page,
    pub title: String,
    pub is_app: bool,
}

impl<'p> PageContext<'p> {
    pub fn new(title: String, page: &'p Page) -> (ctx: PageContext<'p>)
        ensures
            ctx.title@ == title@,
            ctx.page@ == page@,
            !ctx.is_app,
    {
        PageContext { title, page, is_app: false }
    }
}

/// The form for a new page, with pages to show beside it.
pub struct NewContext<'p> {
    pub results: &'p [Page],
    pub title: &'p str,
    pub is_app: bool,
}

impl<'p> NewContext<'p> {
    /// Builds the context of the new-page form, which is shown as a list of
    /// pages with a title.
    pub fn new(title: &'p str, results: &'p [Page]) -> (ctx: SearchContext<'p>)
        ensures
            ctx.title@ == title@,
            ctx.results@ == results@,
            !ctx.is_app,
    {
        SearchContext { results, title, is_app: false }
    }
}

/// A list of pages found, with a title.
pub struct SearchContext<'p> {
    pub results: &'p [Page],
    pub title: &'p str,
    pub is_app: bool,
}

impl<'p> SearchContext<'p> {
    pub fn new(title: &'p str, results: &'p [Page]) -> (ctx: SearchContext<'p>)
        ensures
            ctx.title@ == title@,
            ctx.results@ == results@,
            !ctx.is_app,
    {
        SearchContext { results, title, is_app: false }
    }
}

} // verus!
