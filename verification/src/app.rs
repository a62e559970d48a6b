//! What the wiki's routes decide.

use vstd::prelude::*;
use crate::text::{append_str, trim_end, trim_end_matches};

verus! {

/// The name of the page a new-page form creates (`note.md` where the form
/// names none).
pub fn new_page_name(form_name: Option<&str>) -> (name: &str)
    ensures
        name@ == match form_name {
            Some(n) => n@,
            None => "note.md"@,
        },
{
    match form_name {
        Some(n) => n,
        None => "note.md",
    }
}

/// The page shown for a URL name: `.md` at the end is ignored.
pub fn page_to_show(name: &str) -> (page: String)
    ensures
        page@ == trim_end(name@, ".md"@),
{
    trim_end_matches(name, ".md")
}

/// The entries of the jump box: every page name, then every tag, each with
/// its position as id.
pub fn jump_links(names: &Vec<String>, tags: &Vec<String>) -> (links: Vec<(usize, String)>)
    requires
        names.len() + tags.len() <= usize::MAX,
    ensures
        links@.len() == names@.len() + tags@.len(),
        forall|i: int|
            0 <= i < links@.len() ==> (#[trigger] links@[i]).0 == i && links@[i].1@ == (
            if i < names@.len() {
                names@[i]@
            } else {
                tags@[i - names@.len()]@
            }),
{
    let mut links: Vec<(usize, String)> = Vec::new();
    let mut i: usize = 0;
    while i < names.len()
        invariant
            i <= names.len(),
            links@.len() == i,
            forall|k: int|
                0 <= k < i ==> (#[trigger] links@[k]).0 == k && links@[k].1@ == names@[k]@,
        decreases names.len() - i,
    {
        let mut link = String::new();
        append_str(&mut link, names[i].as_str());
        links.push((i, link));
        i += 1;
    }
    let mut j: usize = 0;
    while j < tags.len()
        invariant
            names.len() + tags.len() <= usize::MAX,
            j <= tags.len(),
            links@.len() == names@.len() + j,
            forall|k: int|
                0 <= k < links@.len() ==> (#[trigger] links@[k]).0 == k && links@[k].1@ == (
                if k < names@.len() {
                    names@[k]@
                } else {
                    tags@[k - names@.len()]@
                }),
        decreases tags.len() - j,
    {
        let mut link = String::new();
        append_str(&mut link, tags[j].as_str());
        links.push((names.len() + j, link));
        j += 1;
    }
    links
}

} // verus!
