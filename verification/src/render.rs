//! Rendering "logic".

use vstd::prelude::*;
use crate::text::{append_str, replace, replace_all};

verus! {

/// A chunk of HTML inside the layout: `{title}`, `{body}`, `{webview-app}`
/// (empty: this build is no desktop app) and `{nav}` replaced in turn;
/// without a layout, the body alone.
pub open spec fn framed(
    layout: Option<Seq<char>>,
    title: Seq<char>,
    body: Seq<char>,
    nav: Option<Seq<char>>,
) -> Seq<char> {
    match layout {
        Some(t) => replace_all(
            replace_all(
                replace_all(replace_all(t, "{title}"@, title), "{body}"@, body),
                "{webview-app}"@,
                Seq::<char>::empty(),
            ),
            "{nav}"@,
            match nav {
                Some(n) => n,
                None => Seq::<char>::empty(),
            },
        ),
        None => body,
    }
}

/// Renders a chunk of HTML surrounded by `static/html/layout.html` (its
/// text, where the asset exists).
pub fn layout(template: Option<&str>, title: &str, body: &str, nav: Option<&str>) -> (html: String)
    ensures
        html@ == framed(
            match template {
                Some(t) => Some(t@),
                None => None,
            },
            title@,
            body@,
            match nav {
                Some(n) => Some(n@),
                None => None,
            },
        ),
{
    match template {
        Some(t) => {
            proof {
                reveal_strlit("{title}");
                reveal_strlit("{body}");
                reveal_strlit("{webview-app}");
                reveal_strlit("{nav}");
                reveal_strlit("");
            }
            assert(""@ =~= Seq::<char>::empty());
            let a = replace(t, "{title}", title);
            let b = replace(a.as_str(), "{body}", body);
            let c = replace(b.as_str(), "{webview-app}", "");
            match nav {
                Some(n) => replace(c.as_str(), "{nav}", n),
                None => replace(c.as_str(), "{nav}", ""),
            }
        },
        None => {
            let mut html = String::new();
            append_str(&mut html, body);
            html
        },
    }
}

/// Without navigation the layout's `{nav}` is filled with nothing, just as
/// with an empty navigation.
pub proof fn lemma_no_nav_is_empty_nav(t: Seq<char>, title: Seq<char>, body: Seq<char>)
    ensures
        framed(Some(t), title, body, None) == framed(Some(t), title, body, Some(Seq::<char>::empty())),
{
}

/// Without a layout the page is the body alone, whatever the title and the
/// navigation.
pub proof fn lemma_no_layout_is_bare_body(title: Seq<char>, body: Seq<char>, nav: Option<Seq<char>>)
    ensures
        framed(None, title, body, nav) == body,
{
}

} // verus!
