//! Templates shared by the web requests.

use vstd::prelude::*;
use crate::text::{replace, replace_all};

verus! {

/// The template of a page inside the layout: the layout's `{body}`
/// replaced by the page's own template.
pub fn layout_template(layout_html: &str, page_html: &str) -> (template: String)
    ensures
        template@ == replace_all(layout_html@, "{body}"@, page_html@),
{
    proof {
        reveal_strlit("{body}");
    }
    replace(layout_html, "{body}", page_html)
}

} // verus!
