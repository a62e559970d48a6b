use vstd::prelude::*;

verus! {

/// The frame around every page.
pub struct Layout<'env> {
    pub title: &'env str,
    pub body: &'env str,
    pub webview_app: &'env str,
    pub pages_json: String,
    pub nav: &'env str,
}

impl<'env> Layout<'env> {
    pub fn new(
        title: &'env str,
        body: &'env str,
        webview_app: &'env str,
        pages_json: String,
        nav: &'env str,
    ) -> (layout: Layout<'env>)
        ensures
            layout.title@ == title@,
            layout.body@ == body@,
            layout.webview_app@ == webview_app@,
            layout.pages_json@ == pages_json@,
            layout.nav@ == nav@,
    {
        Layout { title, body, webview_app, pages_json, nav }
    }
}

} // verus!
