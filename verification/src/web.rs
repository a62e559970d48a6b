//! The wiki's web front: where pages and assets live on disk, how request
//! URLs and form bodies are read, and what each request is answered.

use vstd::prelude::*;
use pulldown_cmark::{Event, Options, Parser};
use crate::page::{capitalize, capitalized};
use crate::text::{
    after_first, append_str, before_first, chars_of, collapse_dot_runs, collapse_dots, ends_with,
    lemma_collapse_leaves_no_double_dot, has_prefix, has_suffix, join, join_with,
    lemma_replace_char_absent, lemma_split_str_nonempty, lowercase_of, replace, replace_all,
    split_char, split_first, split_on, split_str, split_string, str_eq, str_to_lowercase,
    trim_end, trim_end_matches, trim_start, trim_start_matches, views,
};

verus! {

// ---------------------------------------------------------------------
// Titles
// ---------------------------------------------------------------------

/// The title of a page at a URL path: `/` removed from the front, `_`
/// separating words, each capitalized, joined by spaces.
pub open spec fn path_title(path: Seq<char>) -> Seq<char> {
    join(
        split_on(trim_start(path, seq!['/']), '_').map_values(|p: Seq<char>| capitalized(p)),
        seq![' '],
    )
}

/// some_page -> Some Page
pub fn path_to_title(path: &str) -> (title: String)
    ensures
        title@ == path_title(path@),
{
    let trimmed = trim_start_matches(path, "/");
    proof {
        reveal_strlit("/");
        assert("/"@ =~= seq!['/']);
    }
    let parts = split_char(trimmed.as_str(), '_');
    let ghost spec_parts = split_on(trimmed@, '_');
    let mut words: Vec<String> = Vec::new();
    let mut i: usize = 0;
    while i < parts.len()
        invariant
            i <= parts.len(),
            views(parts@) == spec_parts,
            views(words@) == spec_parts.take(i as int).map_values(|p: Seq<char>| capitalized(p)),
        decreases parts.len() - i,
    {
        let ghost before = views(words@);
        assert(views(parts@)[i as int] == parts@[i as int]@);
        let w = capitalize(parts[i].as_str());
        words.push(w);
        assert(views(words@) =~= before.push(w@));
        i += 1;
        assert(spec_parts.take(i as int) =~= spec_parts.take(i - 1).push(spec_parts[i - 1]));
        assert(views(words@) =~= spec_parts.take(i as int).map_values(
            |p: Seq<char>| capitalized(p),
        ));
    }
    assert(spec_parts.take(parts@.len() as int) =~= spec_parts);
    join_with(&words, ' ')
}

// ---------------------------------------------------------------------
// Where pages and assets live
// ---------------------------------------------------------------------

/// The file of the wiki page at a URL path: lower-cased, leading `/`
/// removed, `..` replaced by `.`, inside `wiki/`, with `.md` added. Where
/// that file would still name a parent directory (`..`), and so lie outside
/// `wiki/`, runs of dots are collapsed until none is left.
pub open spec fn wiki_file(path: Seq<char>) -> Seq<char> {
    let t = trim_start(lowercase_of(path), seq!['/']);
    let f = "wiki/"@ + replace_all(t, seq!['.', '.'], seq!['.']) + ".md"@;
    if has_parent_component(f) {
        "wiki/"@ + collapse_dots(t) + ".md"@
    } else {
        f
    }
}

/// The file of the asset at a URL path: leading `/` removed, `..` replaced
/// by `.`, inside `web/`. Where that file would still name a parent
/// directory (`..`), and so lie outside `web/`, runs of dots are collapsed
/// until none is left.
pub open spec fn web_file(path: Seq<char>) -> Seq<char> {
    let t = trim_start(path, seq!['/']);
    let f = "web/"@ + replace_all(t, seq!['.', '.'], seq!['.']);
    if has_parent_component(f) {
        "web/"@ + collapse_dots(t)
    } else {
        f
    }
}

/// Does `v` name a parent directory (`..`) among its components?
fn holds_parent_component(v: &Vec<char>) -> (b: bool)
    ensures
        b == has_parent_component(v@),
{
    let mut i: usize = 0;
    while i < v.len() && i + 1 < v.len()
        invariant
            i <= v.len(),
            forall|k: int|
                0 <= k < i ==> !(0 <= k && k + 1 < v@.len() && #[trigger] v@[k] == '.' && v@[k + 1]
                    == '.' && (k == 0 || v@[k - 1] == '/') && (k + 2 == v@.len() || v@[k + 2]
                    == '/')),
        decreases v.len() - i,
    {
        if v[i] == '.' && v[i + 1] == '.' && (i == 0 || v[i - 1] == '/') && (i + 2 == v.len()
            || v[i + 2] == '/') {
            return true;
        }
        i += 1;
    }
    false
}

/// The file made of a directory, a tidied path and an ending, as
/// `wiki_file` and `web_file` make it.
fn file_in(dir: &str, path: &str, ending: &str) -> (file: String)
    ensures
        ({
            let t = trim_start(path@, seq!['/']);
            let f = dir@ + replace_all(t, seq!['.', '.'], seq!['.']) + ending@;
            file@ == if has_parent_component(f) {
                dir@ + collapse_dots(t) + ending@
            } else {
                f
            }
        }),
{
    let trimmed = trim_start_matches(path, "/");
    proof {
        reveal_strlit("/");
        reveal_strlit("..");
        reveal_strlit(".");
    }
    assert("/"@ =~= seq!['/']);
    assert(".."@ =~= seq!['.', '.']);
    assert("."@ =~= seq!['.']);
    let once = replace(trimmed.as_str(), "..", ".");
    let mut file = String::new();
    append_str(&mut file, dir);
    append_str(&mut file, once.as_str());
    append_str(&mut file, ending);
    let v = chars_of(file.as_str());
    if holds_parent_component(&v) {
        let all = collapse_dot_runs(trimmed.as_str());
        let mut safe = String::new();
        append_str(&mut safe, dir);
        append_str(&mut safe, all.as_str());
        append_str(&mut safe, ending);
        safe
    } else {
        file
    }
}

/// Does a path name a parent directory (`..`) among its components?
pub open spec fn has_parent_component(s: Seq<char>) -> bool {
    exists|i: int|
        0 <= i && i + 1 < s.len() && #[trigger] s[i] == '.' && s[i + 1] == '.' && (i == 0 || s[i
            - 1] == '/') && (i + 2 == s.len() || s[i + 2] == '/')
}

/// Returns a wiki path on disk, regardless of whether it exists or
/// not already.
pub fn wiki_disk_path(path: &str) -> (file: String)
    ensures
        file@ == wiki_file(path@),
{
    let lower = str_to_lowercase(path);
    file_in("wiki/", lower.as_str(), ".md")
}

/// The file of an existing page: none where the page does not exist.
pub open spec fn existing_page_file(path: Seq<char>, page_exists: bool) -> Option<Seq<char>> {
    if page_exists {
        Some(wiki_file(path))
    } else {
        None
    }
}

/// The file for a new page: none where the page exists already.
pub open spec fn new_page_file(path: Seq<char>, page_exists: bool) -> Option<Seq<char>> {
    if page_exists {
        None
    } else {
        Some(wiki_file(path))
    }
}

/// The view of an optional string.
pub open spec fn opt_view(s: Option<String>) -> Option<Seq<char>> {
    match s {
        Some(t) => Some(t@),
        None => None,
    }
}

/// Path of wiki page on disk, if it exists (`page_exists` says whether
/// `wiki_disk_path(path)` exists). Always in the `wiki/` directory.
/// Eg. wiki_path("Welcome") -> "wiki/welcome.md"
pub fn wiki_path(path: &str, page_exists: bool) -> (file: Option<String>)
    ensures
        opt_view(file) == existing_page_file(path@, page_exists),
{
    if page_exists {
        Some(wiki_disk_path(path))
    } else {
        None
    }
}

/// Returns a path on disk to a new wiki page (`page_exists` says whether
/// `wiki_disk_path(path)` exists). Nothing if the page already exists.
pub fn new_wiki_path(path: &str, page_exists: bool) -> (file: Option<String>)
    ensures
        opt_view(file) == new_page_file(path@, page_exists),
{
    if wiki_path(path, page_exists).is_none() {
        Some(wiki_disk_path(path))
    } else {
        None
    }
}

/// The path on disk of an asset, whether it exists or not.
pub fn web_disk_path(path: &str) -> (file: String)
    ensures
        file@ == web_file(path@),
{
    let file = file_in("web/", path, "");
    proof {
        reveal_strlit("");
    }
    assert(""@ =~= Seq::<char>::empty());
    assert(web_file(path@) =~= file@) by {
        let t = trim_start(path@, seq!['/']);
        assert("web/"@ + replace_all(t, seq!['.', '.'], seq!['.']) + ""@ =~= "web/"@
            + replace_all(t, seq!['.', '.'], seq!['.']));
        assert("web/"@ + collapse_dots(t) + ""@ =~= "web/"@ + collapse_dots(t));
    }
    file
}

/// Path of asset on disk, if it exists (`asset_exists` says whether
/// `web_disk_path(path)` exists). Always in the `web/` directory.
/// Eg web_path("style.css") -> "web/style.css"
pub fn web_path(path: &str, asset_exists: bool) -> (file: Option<String>)
    ensures
        match file {
            Some(f) => asset_exists && f@ == web_file(path@),
            None => !asset_exists,
        },
{
    if asset_exists {
        Some(web_disk_path(path))
    } else {
        None
    }
}

// ---------------------------------------------------------------------
// Content types
// ---------------------------------------------------------------------

/// The last piece of a path, between `/`, that is neither empty nor `.`.
pub open spec fn last_component(pieces: Seq<Seq<char>>) -> Option<Seq<char>>
    decreases pieces.len(),
{
    if pieces.len() == 0 {
        None
    } else if pieces.last().len() == 0 || pieces.last() == seq!['.'] {
        last_component(pieces.drop_last())
    } else {
        Some(pieces.last())
    }
}

/// The file name of a path (`Path::file_name`): its last component, none
/// where there is none or it is `..`.
pub open spec fn file_name(path: Seq<char>) -> Option<Seq<char>> {
    match last_component(split_on(path, '/')) {
        Some(c) => if c == seq!['.', '.'] {
            None
        } else {
            Some(c)
        },
        None => None,
    }
}

/// The extension of a path (`Path::extension`): the text after the last
/// `.` of its file name; none where there is no file name, no `.` in it,
/// or only a `.` at its start.
pub open spec fn path_extension(path: Seq<char>) -> Option<Seq<char>> {
    match file_name(path) {
        Some(name) => {
            let after = split_on(name, '.').last();
            if name.contains('.') && name.len() > after.len() + 1 {
                Some(after)
            } else {
                None
            }
        },
        None => None,
    }
}

/// Calls `std::path::Path::extension` on `path`, which its documentation
/// describes: the part of the file name after its last `.`, none where
/// there is no file name, no `.`, or a name that begins with `.` and holds
/// no other. The file name is the last component, where `.` components
/// and empty ones (repeated or trailing `/`) are not components, and none
/// where that is `..`.
#[verifier::external_body]
fn extension_of(path: &str) -> (ext: Option<String>)
    ensures
        match ext {
            Some(e) => path_extension(path@) == Some(e@),
            None => path_extension(path@) is None,
        },
{
    match std::path::Path::new(path).extension() {
        Some(e) => Some(e.to_string_lossy().into_owned()),
        None => None,
    }
}

/// The content type served for a file with the given extension.
pub open spec fn content_type(ext: Option<Seq<char>>) -> Seq<char> {
    match ext {
        None => "text/plain"@,
        Some(e) => if e == "gif"@ {
            "image/gif"@
        } else if e == "jpg"@ || e == "jpeg"@ {
            "image/jpeg"@
        } else if e == "png"@ {
            "image/png"@
        } else if e == "pdf"@ {
            "application/pdf"@
        } else if e == "css"@ {
            "text/css; charset=utf8"@
        } else if e == "htm"@ || e == "html"@ {
            "text/html; charset=utf8"@
        } else {
            "text/plain; charset=utf8"@
        },
    }
}

/// The content type served for a file with the given extension.
pub fn content_type_for(ext: Option<&str>) -> (ct: &'static str)
    ensures
        ct@ == content_type(
            match ext {
                Some(e) => Some(e@),
                None => None,
            },
        ),
{
    match ext {
        None => "text/plain",
        Some(e) => {
            if str_eq(e, "gif") {
                "image/gif"
            } else if str_eq(e, "jpg") || str_eq(e, "jpeg") {
                "image/jpeg"
            } else if str_eq(e, "png") {
                "image/png"
            } else if str_eq(e, "pdf") {
                "application/pdf"
            } else if str_eq(e, "css") {
                "text/css; charset=utf8"
            } else if str_eq(e, "htm") || str_eq(e, "html") {
                "text/html; charset=utf8"
            } else {
                "text/plain; charset=utf8"
            }
        },
    }
}

/// Content type for a file on disk. We only look in `web/` (`asset_exists`
/// says whether `web_disk_path(path)` exists).
pub fn get_content_type(path: &str, asset_exists: bool) -> (ct: Option<&'static str>)
    ensures
        match ct {
            Some(c) => asset_exists && c@ == content_type(path_extension(web_file(path@))),
            None => !asset_exists,
        },
{
    let disk_path = web_path(path, asset_exists);
    match disk_path {
        None => None,
        Some(disk_path) => {
            let ext = extension_of(disk_path.as_str());
            match ext {
                None => Some(content_type_for(None)),
                Some(e) => Some(content_type_for(Some(e.as_str()))),
            }
        },
    }
}

// ---------------------------------------------------------------------
// Form values and URLs
// ---------------------------------------------------------------------

/// What `percent_encoding::percent_decode(s.as_bytes()).decode_utf8_lossy()`
/// returns for a text.
pub uninterp spec fn percent_decoded(s: Seq<char>) -> Seq<char>;

/// Calls `percent_encoding::percent_decode` on the bytes of `s`, then
/// `decode_utf8_lossy`. The result is named `percent_decoded(s@)`; stated
/// of it is only what the crate's source shows for a text without `%`:
/// every byte is passed through, so the text comes back unchanged.
#[verifier::external_body]
fn percent_decode_lossy(s: &str) -> (r: String)
    ensures
        r@ == percent_decoded(s@),
        !s@.contains('%') ==> r@ == s@,
{
    percent_encoding::percent_decode(s.as_bytes()).decode_utf8_lossy().into_owned()
}

/// A form value as it is read (form decoding): `+` read as a space, then
/// the `%XX` escapes decoded.
pub open spec fn form_value(post: Seq<char>) -> Seq<char> {
    percent_decoded(replace_all(post, seq!['+'], seq![' ']))
}

/// Does what it says: decodes a value of a submitted form.
pub fn decode_form_value(post: &str) -> (value: String)
    ensures
        value@ == form_value(post@),
        !post@.contains('%') ==> value@ == replace_all(post@, seq!['+'], seq![' ']),
{
    proof {
        reveal_strlit("+");
        reveal_strlit(" ");
        assert("+"@ =~= seq!['+']);
        assert(" "@ =~= seq![' ']);
        if !post@.contains('%') {
            lemma_replace_char_absent(post@, '+', seq![' '], '%');
        }
    }
    let spaced = replace(post, "+", " ");
    percent_decode_lossy(spaced.as_str())
}


/// The path of a request URL: what comes before the first `?`.
pub open spec fn url_path(full: Seq<char>) -> Seq<char> {
    before_first(full, '?')
}

/// The query of a request URL: what comes after the first `?` (empty if
/// there is none).
pub open spec fn url_query(full: Seq<char>) -> Seq<char> {
    match after_first(full, '?') {
        Some(q) => q,
        None => Seq::<char>::empty(),
    }
}

/// Splits a request URL into its path and its query.
pub fn split_url(full: &str) -> (parts: (String, String))
    ensures
        parts.0@ == url_path(full@),
        parts.1@ == url_query(full@),
{
    let (path, query) = split_first(full, '?');
    match query {
        Some(q) => (path, q),
        None => (path, String::new()),
    }
}

/// The field name of one `field=value` pair of a form body.
pub open spec fn pair_field(pair: Seq<char>) -> Seq<char> {
    before_first(pair, '=')
}

/// The raw value of one `field=value` pair (empty where there is no `=`).
pub open spec fn pair_value(pair: Seq<char>) -> Seq<char> {
    match after_first(pair, '=') {
        Some(v) => v,
        None => Seq::<char>::empty(),
    }
}

/// The decoded value of the last pair named `key` (empty if none is).
pub open spec fn last_form_value(pairs: Seq<Seq<char>>, key: Seq<char>) -> Seq<char>
    decreases pairs.len(),
{
    if pairs.len() == 0 {
        Seq::<char>::empty()
    } else if pair_field(pairs.last()) == key {
        form_value(pair_value(pairs.last()))
    } else {
        last_form_value(pairs.drop_last(), key)
    }
}

/// Reads the body of the form that creates a page: the decoded `name` and
/// `markdown` fields (the last of each wins; a missing one is empty).
pub fn new_page_form(content: &str) -> (fields: (String, String))
    ensures
        fields.0@ == last_form_value(split_on(content@, '&'), "name"@),
        fields.1@ == last_form_value(split_on(content@, '&'), "markdown"@),
{
    let pairs = split_char(content, '&');
    let ghost all = split_on(content@, '&');
    let mut path = String::new();
    let mut mdown = String::new();
    let mut i: usize = 0;
    while i < pairs.len()
        invariant
            i <= pairs.len(),
            views(pairs@) == all,
            path@ == last_form_value(all.take(i as int), "name"@),
            mdown@ == last_form_value(all.take(i as int), "markdown"@),
        decreases pairs.len() - i,
    {
        assert(views(pairs@)[i as int] == pairs@[i as int]@);
        let (field, value) = split_first(pairs[i].as_str(), '=');
        let raw = match value {
            Some(v) => v,
            None => String::new(),
        };
        let ghost pre = all.take(i as int);
        let ghost pair = all[i as int];
        assert(field@ == pair_field(pair));
        assert(raw@ == pair_value(pair));
        assert("name"@ != "markdown"@) by {
            reveal_strlit("name");
            reveal_strlit("markdown");
            assert("name"@.len() != "markdown"@.len());
        }
        if str_eq(field.as_str(), "name") {
            path = decode_form_value(raw.as_str());
        } else if str_eq(field.as_str(), "markdown") {
            mdown = decode_form_value(raw.as_str());
        }
        i += 1;
        assert(all.take(i as int).drop_last() =~= pre);
        assert(all.take(i as int).last() == pair);
    }
    assert(all.take(pairs@.len() as int) =~= all);
    (path, mdown)
}

/// The markdown posted to an existing page: the decoded text after the last
/// `markdown=` of the body.
pub fn posted_markdown(content: &str) -> (mdown: String)
    ensures
        mdown@ == form_value(split_str(content@, "markdown="@).last()),
{
    proof {
        reveal_strlit("markdown=");
        lemma_split_str_nonempty(content@, "markdown="@);
    }
    let pieces = split_string(content, "markdown=");
    assert(views(pieces@)[pieces@.len() - 1] == pieces@[pieces@.len() - 1]@);
    decode_form_value(pieces[pieces.len() - 1].as_str())
}

// ---------------------------------------------------------------------
// Pages of HTML
// ---------------------------------------------------------------------

/// One entry of the list of pages.
pub open spec fn list_item(name: Seq<char>) -> Seq<char> {
    "<li><a href=\""@ + name + "\">"@ + name + "</a></li>"@
}

/// The entries of the list of pages, in order.
pub open spec fn list_items(names: Seq<Seq<char>>) -> Seq<char>
    decreases names.len(),
{
    if names.len() == 0 {
        Seq::<char>::empty()
    } else {
        list_items(names.drop_last()) + list_item(names.last())
    }
}

/// The list of all wiki pages shown on the front page.
pub fn page_list_html(names: &Vec<String>) -> (html: String)
    ensures
        html@ == "<ul>"@ + list_items(views(names@)) + "</ul>"@,
{
    let mut html = String::new();
    append_str(&mut html, "<ul>");
    let mut i: usize = 0;
    while i < names.len()
        invariant
            i <= names.len(),
            html@ == "<ul>"@ + list_items(views(names@).take(i as int)),
        decreases names.len() - i,
    {
        let ghost before = html@;
        append_str(&mut html, "<li><a href=\"");
        append_str(&mut html, names[i].as_str());
        append_str(&mut html, "\">");
        append_str(&mut html, names[i].as_str());
        append_str(&mut html, "</a></li>");
        i += 1;
        assert(views(names@).take(i as int).drop_last() =~= views(names@).take(i - 1));
        assert(views(names@).take(i as int).last() == names@[i - 1]@);
        assert(html@ =~= "<ul>"@ + list_items(views(names@).take(i as int)));
    }
    append_str(&mut html, "</ul>");
    assert(views(names@).take(names@.len() as int) =~= views(names@));
    html
}

/// A page inside the site's layout: `{title}`, then `{body}`, then `{nav}`
/// replaced; without a layout, the body alone.
pub open spec fn laid_out(
    layout: Option<Seq<char>>,
    title: Seq<char>,
    body: Seq<char>,
    nav: Option<Seq<char>>,
) -> Seq<char> {
    match layout {
        Some(t) => replace_all(
            replace_all(replace_all(t, "{title}"@, title), "{body}"@, body),
            "{nav}"@,
            match nav {
                Some(n) => n,
                None => Seq::<char>::empty(),
            },
        ),
        None => body,
    }
}

/// Renders a chunk of HTML surrounded by the layout (the text of
/// `web/layout.html`, where it exists).
pub fn render_with_layout(layout: Option<&str>, title: &str, body: &str, nav: Option<&str>) -> (html:
    String)
    ensures
        html@ == laid_out(
            match layout {
                Some(t) => Some(t@),
                None => None,
            },
            title@,
            body@,
            match nav {
                Some(n) => Some(n@),
                None => None,
            },
        ),
{
    match layout {
        Some(t) => {
            proof {
                reveal_strlit("{title}");
                reveal_strlit("{body}");
                reveal_strlit("{nav}");
                reveal_strlit("");
            }
            let a = replace(t, "{title}", title);
            let b = replace(a.as_str(), "{body}", body);
            match nav {
                Some(n) => replace(b.as_str(), "{nav}", n),
                None => {
                    assert(""@ =~= Seq::<char>::empty());
                    replace(b.as_str(), "{nav}", "")
                },
            }
        },
        None => {
            let mut html = String::new();
            append_str(&mut html, body);
            html
        },
    }
}

/// A request for a wiki page: `.md` at the end asks for the page's raw text.
pub struct WikiRequest {
    /// The page's path, without `.md`.
    pub page: String,
    /// Is the raw text asked for?
    pub raw: bool,
    /// The title shown above the page.
    pub title: String,
}

/// The file of the page shown for a request path: `.md` at the end asks
/// for the same page's raw text.
pub open spec fn shown_file(path: Seq<char>) -> Seq<char> {
    wiki_file(if has_suffix(path, ".md"@) { trim_end(path, ".md"@) } else { path })
}

/// Reads the path of a request for a wiki page.
pub fn wiki_request(path: &str) -> (req: WikiRequest)
    ensures
        req.raw == has_suffix(path@, ".md"@),
        req.page@ == (if req.raw {
            trim_end(path@, ".md"@)
        } else {
            path@
        }),
        req.title@ == path_title(req.page@),
{
    let raw = ends_with(path, ".md");
    let page = if raw {
        trim_end_matches(path, ".md")
    } else {
        let mut p = String::new();
        append_str(&mut p, path);
        p
    };
    let title = path_to_title(page.as_str());
    WikiRequest { page, raw, title }
}

/// The raw text of a page, shown as preformatted HTML.
pub fn raw_page(text: &str) -> (html: String)
    ensures
        html@ == "<pre>"@ + text@ + "</pre>"@,
{
    let mut html = String::new();
    append_str(&mut html, "<pre>");
    append_str(&mut html, text);
    append_str(&mut html, "</pre>");
    html
}


// ---------------------------------------------------------------------
// Routing
// ---------------------------------------------------------------------

/// The request methods the wiki tells apart.
#[derive(PartialEq, Eq, Structural)]
pub enum Method {
    Get,
    Post,
    Other,
}

/// What a request is answered with.
pub enum Action {
    /// The list of all pages, in the layout.
    Index,
    /// The form for a new page, in the layout.
    NewPageForm,
    /// A slow answer.
    Sleep,
    /// The not-found page.
    NotFound,
    /// Create the page posted by the new-page form.
    Create,
    /// Save the posted markdown to the page's file.
    Save(String),
    /// Show the page.
    Show,
    /// The edit form for the page's file.
    Edit(String),
    /// A page was asked for with a query other than `edit`.
    OtherQuery,
    /// Serve the asset's file with its content type.
    Asset(String, &'static str),
    /// A method the wiki does not serve.
    Unhandled,
}

/// What a request for `url` (with `query`) is answered with;
/// `page_exists` and `asset_exists` say whether `wiki_disk_path(url)` and
/// `web_disk_path(url)` exist.
pub open spec fn routes_to(
    method: Method,
    url: Seq<char>,
    query: Seq<char>,
    page_exists: bool,
    asset_exists: bool,
    action: Action,
) -> bool {
    match method {
        Method::Get => if url == "/"@ {
            action is Index
        } else if url == "/new"@ {
            action is NewPageForm
        } else if url == "/sleep"@ {
            action is Sleep
        } else if url == "/404"@ {
            action is NotFound
        } else if page_exists {
            if query.len() == 0 {
                action is Show
            } else if query == "edit"@ {
                action matches Action::Edit(f) && f@ == wiki_file(url)
            } else {
                action is OtherQuery
            }
        } else if asset_exists {
            action matches Action::Asset(f, ct) && f@ == web_file(url) && ct@ == content_type(
                path_extension(web_file(url)),
            )
        } else {
            action is NotFound
        },
        Method::Post => if url == "/new"@ {
            action is Create
        } else if query.len() == 0 {
            action is NotFound
        } else if page_exists {
            action matches Action::Save(f) && f@ == wiki_file(url)
        } else {
            action is NotFound
        },
        Method::Other => action is Unhandled,
    }
}

/// Route a request.
pub fn route_action(
    method: Method,
    url: &str,
    query: &str,
    page_exists: bool,
    asset_exists: bool,
) -> (action: Action)
    ensures
        routes_to(method, url@, query@, page_exists, asset_exists, action),
{
    match method {
        Method::Get => {
            if str_eq(url, "/") {
                Action::Index
            } else if str_eq(url, "/new") {
                Action::NewPageForm
            } else if str_eq(url, "/sleep") {
                Action::Sleep
            } else if str_eq(url, "/404") {
                Action::NotFound
            } else if let Some(disk_path) = wiki_path(url, page_exists) {
                if query.is_empty() {
                    Action::Show
                } else if str_eq(query, "edit") {
                    Action::Edit(disk_path)
                } else {
                    Action::OtherQuery
                }
            } else if let Some(disk_path) = web_path(url, asset_exists) {
                match get_content_type(url, asset_exists) {
                    Some(ct) => Action::Asset(disk_path, ct),
                    None => Action::Asset(disk_path, "text/plain"),
                }
            } else {
                Action::NotFound
            }
        },
        Method::Post => {
            if str_eq(url, "/new") {
                Action::Create
            } else if query.is_empty() {
                Action::NotFound
            } else if let Some(disk_path) = wiki_path(url, page_exists) {
                Action::Save(disk_path)
            } else {
                Action::NotFound
            }
        },
        Method::Other => Action::Unhandled,
    }
}

/// The status of the answer to an action (before a created page turns it
/// into a redirect).
pub open spec fn action_status(action: Action) -> i32 {
    match action {
        Action::Index | Action::NewPageForm | Action::Sleep | Action::Show | Action::Edit(_)
        | Action::OtherQuery | Action::Asset(_, _) => 200i32,
        Action::Save(_) => 302i32,
        Action::NotFound | Action::Create | Action::Unhandled => 404i32,
    }
}

impl Action {
    /// The status of the answer (before a created page turns it into a
    /// redirect).
    pub fn status(&self) -> (status: i32)
        ensures
            status == action_status(*self),
    {
        match self {
            Action::Index | Action::NewPageForm | Action::Sleep | Action::Show | Action::Edit(_)
            | Action::OtherQuery | Action::Asset(_, _) => 200,
            Action::Save(_) => 302,
            Action::NotFound | Action::Create | Action::Unhandled => 404,
        }
    }
}

/// Does `names` hold `name`?
fn holds_name(names: &Vec<String>, name: &str) -> (b: bool)
    ensures
        b == views(names@).contains(name@),
{
    let mut i: usize = 0;
    while i < names.len()
        invariant
            i <= names.len(),
            forall|k: int| 0 <= k < i ==> names@[k]@ != name@,
        decreases names.len() - i,
    {
        if str_eq(names[i].as_str(), name) {
            assert(views(names@)[i as int] == name@);
            return true;
        }
        i += 1;
    }
    assert(!views(names@).contains(name@)) by {
        if views(names@).contains(name@) {
            let k = choose|k: int| 0 <= k < views(names@).len() && views(names@)[k] == name@;
            assert(names@[k]@ == name@);
        }
    }
    false
}

/// The file a new page named `path` is created in: none where a page of
/// that (lower-cased) name is listed or its file exists.
pub open spec fn page_to_create(names: Seq<Seq<char>>, path: Seq<char>, page_exists: bool) -> Option<
    Seq<char>,
> {
    if names.contains(lowercase_of(path)) || page_exists {
        None
    } else {
        Some(wiki_file(path))
    }
}

/// The file to create for a new page named `path`, if any: none where a
/// page of that (lower-cased) name is listed in `names` or the page's file
/// exists (`page_exists`).
pub fn create_target(names: &Vec<String>, path: &str, page_exists: bool) -> (file: Option<String>)
    ensures
        opt_view(file) == page_to_create(views(names@), path@, page_exists),
{
    let lower = str_to_lowercase(path);
    if !holds_name(names, lower.as_str()) {
        if let Some(disk_path) = new_wiki_path(path, page_exists) {
            return Some(disk_path);
        }
    }
    None
}

/// What the server read for an action.
pub enum Fetched {
    /// Nothing was needed.
    Nothing,
    /// The names of the wiki pages (for the list of all pages).
    PageNames(Vec<String>),
    /// The text of a file: the new-page form, the not-found page, an asset.
    FileText(String),
    /// The name of the page created from the new-page form, if one was.
    Created(Option<String>),
    /// The page as shown, if it was found.
    Shown(Option<String>),
    /// The edit form's template (where it exists) and the page's markdown.
    EditForm(Option<String>, String),
}

/// What a request is answered: status, body and content type.
pub struct Answer {
    pub status: i32,
    pub body: String,
    pub content_type: &'static str,
}

/// The answer to an action for the URL path `url`, given what was read for
/// it and the site's layout. Where what was read does not fit the action
/// (or a page was not created), the action's status with the body
/// `404 Not Found`.
pub open spec fn answered(
    action: Action,
    url: Seq<char>,
    fetched: Fetched,
    layout: Option<Seq<char>>,
) -> (i32, Seq<char>, Seq<char>) {
    let html = "text/html; charset=utf8"@;
    match (action, fetched) {
        (Action::Index, Fetched::PageNames(names)) => (
            200i32,
            laid_out(layout, "deadwiki"@, "<ul>"@ + list_items(views(names@)) + "</ul>"@, None),
            html,
        ),
        (Action::NewPageForm, Fetched::FileText(form)) => (
            200i32,
            laid_out(layout, "new page"@, form@, None),
            html,
        ),
        (Action::Sleep, _) => (200i32, "Zzzzz..."@, html),
        (Action::NotFound, Fetched::FileText(page)) => (404i32, page@, html),
        (Action::Create, Fetched::Created(Some(name))) => (302i32, name@, html),
        (Action::Save(_), _) => (302i32, url, html),
        (Action::Show, Fetched::Shown(page)) => (
            200i32,
            match page {
                Some(p) => p@,
                None => Seq::<char>::empty(),
            },
            html,
        ),
        (Action::Edit(_), Fetched::EditForm(template, markdown)) => (
            200i32,
            laid_out(
                layout,
                "Edit"@,
                replace_all(
                    match template {
                        Some(t) => t@,
                        None => Seq::<char>::empty(),
                    },
                    "{markdown}"@,
                    markdown@,
                ),
                None,
            ),
            html,
        ),
        (Action::Asset(_, ct), Fetched::FileText(text)) => (200i32, text@, ct@),
        _ => (action_status(action), "404 Not Found"@, html),
    }
}

/// A copy of `s`.
fn owned(s: &str) -> (r: String)
    ensures
        r@ == s@,
{
    let mut r = String::new();
    append_str(&mut r, s);
    r
}

/// The answer to an action for the URL path `url`, given what was read for
/// it and the site's layout (the text of `web/layout.html`, where it
/// exists).
pub fn answer(action: &Action, url: &str, fetched: Fetched, layout: Option<&str>) -> (a: Answer)
    ensures
        !(*action is Asset) ==> a.content_type@ == "text/html; charset=utf8"@,
        (a.status, a.body@, a.content_type@) == answered(
            *action,
            url@,
            fetched,
            match layout {
                Some(l) => Some(l@),
                None => None,
            },
        ),
{
    let html = "text/html; charset=utf8";
    let fallback = Answer { status: action.status(), body: owned("404 Not Found"), content_type: html };
    match action {
        Action::Index => match fetched {
            Fetched::PageNames(names) => {
                let list = page_list_html(&names);
                Answer {
                    status: 200,
                    body: render_with_layout(layout, "deadwiki", list.as_str(), None),
                    content_type: html,
                }
            },
            _ => fallback,
        },
        Action::NewPageForm => match fetched {
            Fetched::FileText(form) => Answer {
                status: 200,
                body: render_with_layout(layout, "new page", form.as_str(), None),
                content_type: html,
            },
            _ => fallback,
        },
        Action::Sleep => Answer { status: 200, body: owned("Zzzzz..."), content_type: html },
        Action::NotFound => match fetched {
            Fetched::FileText(page) => Answer { status: 404, body: page, content_type: html },
            _ => fallback,
        },
        Action::Create => match fetched {
            Fetched::Created(Some(name)) => Answer { status: 302, body: name, content_type: html },
            _ => fallback,
        },
        Action::Save(_) => Answer { status: 302, body: owned(url), content_type: html },
        Action::Show => match fetched {
            Fetched::Shown(Some(page)) => Answer { status: 200, body: page, content_type: html },
            Fetched::Shown(None) => Answer { status: 200, body: String::new(), content_type: html },
            _ => fallback,
        },
        Action::Edit(_) => match fetched {
            Fetched::EditForm(template, markdown) => {
                let t = match template {
                    Some(t) => t,
                    None => String::new(),
                };
                proof {
                    reveal_strlit("{markdown}");
                }
                let form = replace(t.as_str(), "{markdown}", markdown.as_str());
                Answer {
                    status: 200,
                    body: render_with_layout(layout, "Edit", form.as_str(), None),
                    content_type: html,
                }
            },
            _ => fallback,
        },
        Action::Asset(_, ct) => match fetched {
            Fetched::FileText(text) => Answer { status: 200, body: text, content_type: *ct },
            _ => fallback,
        },
        Action::OtherQuery | Action::Unhandled => fallback,
    }
}

/// How a finished answer is sent: status, body and one header.
pub struct ResponsePlan {
    pub status: i32,
    pub body: String,
    pub header_field: &'static str,
    pub header_value: String,
}

/// What an answer is sent as: an error becomes a 500 page; a redirect
/// carries its target in `Location`; anything else its content type.
pub fn plan_response(outcome: Result<(i32, String, &'static str), String>) -> (plan: ResponsePlan)
    ensures
        match outcome {
            Ok((status, body, ct)) => plan.status == status && if status == 302 {
                &&& plan.body@ == "Redirected to "@ + body@
                &&& plan.header_field@ == "Location"@
                &&& plan.header_value@ == body@
            } else {
                &&& plan.body@ == body@
                &&& plan.header_field@ == "Content-Type"@
                &&& plan.header_value@ == ct@
            },
            Err(e) => {
                &&& plan.status == 500
                &&& plan.body@ == "<h1>500 Internal Error</h1><pre>"@ + e@ + "</pre>"@
                &&& plan.header_field@ == "Content-Type"@
                &&& plan.header_value@ == "text/html"@
            },
        },
{
    let (status, body, content_type) = match outcome {
        Ok(res) => res,
        Err(e) => {
            let mut body = String::new();
            append_str(&mut body, "<h1>500 Internal Error</h1><pre>");
            append_str(&mut body, e.as_str());
            append_str(&mut body, "</pre>");
            (500, body, "text/html")
        },
    };
    if status == 302 {
        let mut text = String::new();
        append_str(&mut text, "Redirected to ");
        append_str(&mut text, body.as_str());
        ResponsePlan { status, body: text, header_field: "Location", header_value: body }
    } else {
        let mut value = String::new();
        append_str(&mut value, content_type);
        ResponsePlan { status, body, header_field: "Content-Type", header_value: value }
    }
}

/// The lower-case page name of an entry of the `./wiki` directory (`?`
/// where its path is not text): the path without `./wiki/` in front and
/// `.md` at the end, lower-cased.
pub fn page_name_of_entry(entry: Option<&str>) -> (name: String)
    ensures
        name@ == lowercase_of(
            trim_end(
                trim_start(
                    match entry {
                        Some(e) => e@,
                        None => "?"@,
                    },
                    "./wiki/"@,
                ),
                ".md"@,
            ),
        ),
{
    let path = match entry {
        Some(e) => e,
        None => "?",
    };
    let trimmed = trim_start_matches(path, "./wiki/");
    let name = trim_end_matches(trimmed.as_str(), ".md");
    str_to_lowercase(name.as_str())
}


// ---------------------------------------------------------------------
// Wiki links inside markdown
// ---------------------------------------------------------------------

/// What `autolink::auto_link(text, &[])` returns for a text.
pub uninterp spec fn auto_linked(text: Seq<char>) -> Seq<char>;

/// Calls `autolink::auto_link` with no extra attributes. The result is
/// named `auto_linked(text@)`; stated of it is only what the crate's source
/// shows for a text with neither `:` nor `.`: its pattern cannot match
/// (every link holds `://`, `:/` or `www.`), so the text comes back
/// unchanged. Which URLs are found is left unstated.
#[verifier::external_body]
fn auto_link(text: &str) -> (linked: String)
    ensures
        linked@ == auto_linked(text@),
        !text@.contains(':') && !text@.contains('.') ==> linked@ == text@,
{
    autolink::auto_link(text, &[])
}

/// The length in bytes of a text's UTF-8 encoding, as `str::len` gives it.
pub open spec fn byte_len(s: Seq<char>) -> usize {
    vstd::utf8::encode_utf8(s).len() as usize
}

/// The page a wiki link `[Some Text]` points to: lower case, spaces as `_`.
pub open spec fn link_target(text: Seq<char>) -> Seq<char> {
    replace_all(lowercase_of(text), seq![' '], seq!['_'])
}

/// The HTML of a wiki link: class `new` where the page does not exist yet.
pub open spec fn wiki_link_html(text: Seq<char>, page_names: Seq<Seq<char>>) -> Seq<char> {
    "<a href=\"/"@ + link_target(text) + "\" class=\""@ + (if page_names.contains(
        link_target(text),
    ) {
        Seq::<char>::empty()
    } else {
        "new"@
    }) + "\">"@ + text + "</a>"@
}

/// What a text event of the markdown becomes, as a value.
pub enum Emitted {
    Keep,
    Empty,
    Html(Seq<char>),
}

/// One text event read by the wiki-link reader: from whether a link is
/// open and the text collected in it, to the same after the event and what
/// the event becomes. `[` opens a link and `]` closes an open one, giving
/// the link to the page named by the collected text; text inside a link is
/// collected; other text is auto-linked, and kept as it is where that
/// changes nothing of its length in bytes.
pub open spec fn text_step(open: bool, collected: Seq<char>, text: Seq<char>, page_names: Seq<
    Seq<char>,
>) -> (bool, Seq<char>, Emitted) {
    if text == seq!['['] && !open {
        (true, collected, Emitted::Empty)
    } else if text == seq![']'] && open {
        (false, Seq::<char>::empty(), Emitted::Html(wiki_link_html(collected, page_names)))
    } else if open {
        (true, collected + text, Emitted::Empty)
    } else {
        (
            false,
            collected,
            if byte_len(auto_linked(text)) == byte_len(text) {
                Emitted::Keep
            } else {
                Emitted::Html(auto_linked(text))
            },
        )
    }
}

/// The texts concatenated.
pub open spec fn concat_all(texts: Seq<Seq<char>>) -> Seq<char>
    decreases texts.len(),
{
    if texts.len() == 0 {
        Seq::<char>::empty()
    } else {
        concat_all(texts.drop_last()) + texts.last()
    }
}

/// Reads the text events in turn: the state after them and what each
/// became.
pub open spec fn run_texts(
    open: bool,
    collected: Seq<char>,
    texts: Seq<Seq<char>>,
    page_names: Seq<Seq<char>>,
) -> (bool, Seq<char>, Seq<Emitted>)
    decreases texts.len(),
{
    if texts.len() == 0 {
        (open, collected, Seq::<Emitted>::empty())
    } else {
        let (o, c, e) = run_texts(open, collected, texts.drop_last(), page_names);
        let (o2, c2, x) = text_step(o, c, texts.last(), page_names);
        (o2, c2, e.push(x))
    }
}

/// What a text event of the markdown becomes.
pub enum TextOut {
    /// The text as it is.
    Keep,
    /// Nothing (the text is part of a wiki link).
    Empty,
    /// This HTML in place of the text.
    Html(String),
}

impl TextOut {
    /// What the text event became, as a value.
    pub open spec fn emitted(&self) -> Emitted {
        match *self {
            TextOut::Keep => Emitted::Keep,
            TextOut::Empty => Emitted::Empty,
            TextOut::Html(h) => Emitted::Html(h@),
        }
    }
}

/// The state of the wiki-link reader: inside `[`..`]` or not, and the text
/// read since the `[`.
pub struct WikiLinks {
    pub open: bool,
    pub text: String,
}

impl WikiLinks {
    /// Outside any link, with no text read.
    pub fn new() -> (links: WikiLinks)
        ensures
            !links.open,
            links.text@ == Seq::<char>::empty(),
    {
        WikiLinks { open: false, text: String::new() }
    }

    /// Reads one text event of the markdown. `[` opens a wiki link and `]`
    /// closes it, giving a link to the page named by the text between (an
    /// existing page where `page_names` lists it); text inside a link is
    /// collected; other text is auto-linked, and kept as it is where that
    /// changes nothing of its length.
    pub fn on_text(&mut self, text: &str, page_names: &Vec<String>) -> (out: TextOut)
        ensures
            text_step(old(self).open, old(self).text@, text@, views(page_names@)) == (
                final(self).open,
                final(self).text@,
                out.emitted(),
            ),
            !old(self).open && text@ != seq!['['] && !text@.contains(':') && !text@.contains('.')
                ==> out is Keep,
    {
        proof {
            reveal_strlit("[");
            reveal_strlit("]");
        }
        assert("["@ =~= seq!['[']);
        assert("]"@ =~= seq![']']);
        if str_eq(text, "[") && !self.open {
            self.open = true;
            TextOut::Empty
        } else if str_eq(text, "]") && self.open {
            self.open = false;
            let mut link_text = String::new();
            std::mem::swap(&mut link_text, &mut self.text);
            let lower = str_to_lowercase(link_text.as_str());
            proof {
                reveal_strlit(" ");
                reveal_strlit("_");
            }
            assert(" "@ =~= seq![' ']);
            assert("_"@ =~= seq!['_']);
            let page_name = replace(lower.as_str(), " ", "_");
            let mut html = String::new();
            append_str(&mut html, "<a href=\"/");
            append_str(&mut html, page_name.as_str());
            append_str(&mut html, "\" class=\"");
            let ghost head = html@;
            if !holds_name(page_names, page_name.as_str()) {
                append_str(&mut html, "new");
            } else {
                assert(html@ =~= head + Seq::<char>::empty());
            }
            append_str(&mut html, "\">");
            append_str(&mut html, link_text.as_str());
            append_str(&mut html, "</a>");
            assert(link_text@ == old(self).text@);
            assert(page_name@ == link_target(link_text@));
            assert(html@ =~= wiki_link_html(link_text@, views(page_names@)));
            TextOut::Html(html)
        } else if self.open {
            append_str(&mut self.text, text);
            TextOut::Empty
        } else {
            let linked = auto_link(text);
            linked_text(text, linked)
        }
    }
}

/// What a text outside any wiki link becomes, given the text that
/// auto-linking made of it: the text as it is where the length in bytes did
/// not change, else the linked HTML.
pub fn linked_text(text: &str, linked: String) -> (out: TextOut)
    ensures
        if byte_len(linked@) == byte_len(text@) {
            out is Keep
        } else {
            out matches TextOut::Html(h) && h@ == linked@
        },
{
    if linked.as_str().len() == text.len() {
        TextOut::Keep
    } else {
        TextOut::Html(linked)
    }
}


// ---------------------------------------------------------------------
// Markdown
// ---------------------------------------------------------------------

/// What the wiki-link reader does with one markdown event: a text event
/// (`Some(text)`) is read as `text_step` says; any other event passes
/// through (`None`) and leaves the reader as it was.
pub open spec fn event_step(
    open: bool,
    collected: Seq<char>,
    event: Option<Seq<char>>,
    page_names: Seq<Seq<char>>,
) -> (bool, Seq<char>, Option<Emitted>) {
    match event {
        None => (open, collected, None),
        Some(t) => {
            let (o, c, x) = text_step(open, collected, t, page_names);
            (o, c, Some(x))
        },
    }
}

/// Reads the markdown events in turn: the state after them and what each
/// became.
pub open spec fn run_events(
    open: bool,
    collected: Seq<char>,
    events: Seq<Option<Seq<char>>>,
    page_names: Seq<Seq<char>>,
) -> (bool, Seq<char>, Seq<Option<Emitted>>)
    decreases events.len(),
{
    if events.len() == 0 {
        (open, collected, Seq::<Option<Emitted>>::empty())
    } else {
        let (o, c, e) = run_events(open, collected, events.drop_last(), page_names);
        let (o2, c2, x) = event_step(o, c, events.last(), page_names);
        (o2, c2, e.push(x))
    }
}

/// Every text event kept as it is; other events pass through.
pub open spec fn all_kept(events: Seq<Option<Seq<char>>>) -> Seq<Option<Emitted>> {
    events.map_values(
        |e: Option<Seq<char>>|
            match e {
                Some(_) => Some(Emitted::Keep),
                None => None,
            },
    )
}

/// Is a text event plain: neither `[` nor anything auto-linking could
/// change (no `:` and no `.`)?
pub open spec fn plain_event(e: Option<Seq<char>>) -> bool {
    match e {
        Some(t) => t != seq!['['] && !t.contains(':') && !t.contains('.'),
        None => true,
    }
}

/// The events that `pulldown_cmark::Parser::new_ext` reads in a markdown
/// text (with task lists and footnotes): the text of each text event, and
/// `None` for every other event.
pub uninterp spec fn markdown_events(md: Seq<char>) -> Seq<Option<Seq<char>>>;

/// The HTML that `pulldown_cmark::html::push_html` writes for the events of
/// a markdown text, where the text event at position `i` is kept as it is
/// (`Some(Keep)`), emptied (`Some(Empty)`) or replaced by raw HTML
/// (`Some(Html(h))`), and every other event passes through.
pub uninterp spec fn markdown_html(md: Seq<char>, outs: Seq<Option<Emitted>>) -> Seq<char>;

/// The views of optional strings.
pub open spec fn opt_views(v: Seq<Option<String>>) -> Seq<Option<Seq<char>>> {
    v.map_values(|e: Option<String>| opt_view(e))
}

/// What each text event became, as values.
pub open spec fn emitted_all(outs: Seq<Option<TextOut>>) -> Seq<Option<Emitted>> {
    outs.map_values(
        |o: Option<TextOut>|
            match o {
                Some(x) => Some(x.emitted()),
                None => None,
            },
    )
}

/// Calls `pulldown_cmark::Parser::new_ext` with task lists and footnotes,
/// and gives for each event the text of a text event, or `None`. The result
/// is named `markdown_events(md@)`; how markdown is parsed is left unstated.
#[verifier::external_body]
fn parse_events(md: &str) -> (events: Vec<Option<String>>)
    ensures
        opt_views(events@) == markdown_events(md@),
{
    let options = Options::ENABLE_TASKLISTS | Options::ENABLE_FOOTNOTES;
    Parser::new_ext(md, options).map(|e| match e {
        Event::Text(t) => Some(t.into_string()),
        _ => None,
    }).collect()
}

/// Calls `pulldown_cmark::Parser::new_ext` (task lists and footnotes) and
/// `pulldown_cmark::html::push_html`, the text event at position `i`
/// turned into what `outs[i]` says. The result is named
/// `markdown_html(md@, ..)`; how HTML is written is left unstated.
#[verifier::external_body]
fn render_events(md: &str, outs: &Vec<Option<TextOut>>) -> (html: String)
    ensures
        html@ == markdown_html(md@, emitted_all(outs@)),
{
    let options = Options::ENABLE_TASKLISTS | Options::ENABLE_FOOTNOTES;
    let events = Parser::new_ext(md, options).enumerate().map(|(i, e)| match (e, outs.get(i)) {
        (Event::Text(_), Some(Some(TextOut::Empty))) => Event::Text("".into()),
        (Event::Text(_), Some(Some(TextOut::Html(h)))) => Event::Html(h.clone().into()),
        (e, _) => e,
    });
    let mut html = String::new();
    pulldown_cmark::html::push_html(&mut html, events);
    html
}

/// Reads the text events of a markdown text with the wiki-link reader,
/// starting outside any link: what each event becomes (`None` for the
/// events that are not text). Where no text event is `[` or holds `:` or
/// `.`, every text is kept as it is.
pub fn link_events(events: &Vec<Option<String>>, page_names: &Vec<String>) -> (outs: Vec<
    Option<TextOut>,
>)
    ensures
        emitted_all(outs@) == run_events(
            false,
            Seq::<char>::empty(),
            opt_views(events@),
            views(page_names@),
        ).2,
        (forall|i: int|
            0 <= i < events@.len() ==> plain_event(#[trigger] opt_views(events@)[i]))
            ==> emitted_all(outs@) == all_kept(opt_views(events@)),
{
    let ghost evs = opt_views(events@);
    let ghost names = views(page_names@);
    let mut links = WikiLinks::new();
    let mut outs: Vec<Option<TextOut>> = Vec::new();
    let mut i: usize = 0;
    assert(evs.take(0) =~= Seq::<Option<Seq<char>>>::empty());
    assert(emitted_all(outs@) =~= Seq::<Option<Emitted>>::empty());
    assert(all_kept(evs.take(0)) =~= Seq::<Option<Emitted>>::empty());
    while i < events.len()
        invariant
            i <= events.len(),
            opt_views(events@) == evs,
            names == views(page_names@),
            run_events(false, Seq::<char>::empty(), evs.take(i as int), names) == (
                links.open,
                links.text@,
                emitted_all(outs@),
            ),
            (forall|k: int| 0 <= k < i ==> plain_event(#[trigger] evs[k])) ==> !links.open
                && emitted_all(outs@) == all_kept(evs.take(i as int)),
        decreases events.len() - i,
    {
        let ghost pre = evs.take(i as int);
        let ghost before = emitted_all(outs@);
        let ghost was_open = links.open;
        assert(evs.take(i + 1).drop_last() =~= pre);
        assert(evs.take(i + 1).last() == evs[i as int]);
        assert(opt_views(events@)[i as int] == opt_view(events@[i as int]));
        match &events[i] {
            Some(t) => {
                let out = links.on_text(t.as_str(), page_names);
                outs.push(Some(out));
            },
            None => {
                outs.push(None);
            },
        }
        assert(emitted_all(outs@) =~= before.push(emitted_all(outs@).last()));
        i += 1;
        proof {
            if forall|k: int| 0 <= k < i ==> plain_event(#[trigger] evs[k]) {
                assert(plain_event(evs[i - 1]));
                assert(!was_open);
                assert(all_kept(evs.take(i as int)) =~= all_kept(pre).push(
                    all_kept(evs.take(i as int)).last(),
                ));
                assert(emitted_all(outs@) =~= all_kept(evs.take(i as int)));
            }
        }
    }
    assert(evs.take(events@.len() as int) =~= evs);
    outs
}

/// Convert raw Markdown into HTML, with `[Some Page]` turned into a link to
/// the wiki page `some_page` (of class `new` where `page_names` does not
/// list it) and URLs into links. Markdown without `[` and without text that
/// auto-linking could touch is written as it is.
pub fn markdown_to_html(md: &str, page_names: &Vec<String>) -> (html: String)
    ensures
        html@ == markdown_html(
            md@,
            run_events(false, Seq::<char>::empty(), markdown_events(md@), views(page_names@)).2,
        ),
        (forall|i: int|
            0 <= i < markdown_events(md@).len() ==> plain_event(#[trigger] markdown_events(md@)[i]))
            ==> html@ == markdown_html(md@, all_kept(markdown_events(md@))),
{
    let events = parse_events(md);
    let outs = link_events(&events, page_names);
    render_events(md, &outs)
}

/// The page shown for a request for a wiki page, given the page's text
/// (the file's contents, or what its script printed): the raw text as
/// preformatted HTML where `.md` asked for it, else the text rendered from
/// markdown inside the layout, with the request's title and the site's
/// navigation.
pub fn shown_page(
    req: &WikiRequest,
    text: &str,
    layout: Option<&str>,
    nav: &str,
    page_names: &Vec<String>,
) -> (html: String)
    ensures
        html@ == if req.raw {
            "<pre>"@ + text@ + "</pre>"@
        } else {
            laid_out(
                match layout {
                    Some(l) => Some(l@),
                    None => None,
                },
                req.title@,
                markdown_html(
                    text@,
                    run_events(
                        false,
                        Seq::<char>::empty(),
                        markdown_events(text@),
                        views(page_names@),
                    ).2,
                ),
                Some(nav@),
            )
        },
{
    if req.raw {
        raw_page(text)
    } else {
        let body = markdown_to_html(text, page_names);
        render_with_layout(layout, req.title.as_str(), body.as_str(), Some(nav))
    }
}

// ---------------------------------------------------------------------
// Laws
// ---------------------------------------------------------------------

/// Every wiki page's file is in the `wiki/` directory and ends with `.md`;
/// every asset's file is in the `web/` directory: each begins with its
/// directory and names no parent directory (`..`) that could lead out of it.
pub proof fn lemma_files_stay_in_their_directories(path: Seq<char>)
    ensures
        has_prefix(wiki_file(path), "wiki/"@),
        has_suffix(wiki_file(path), ".md"@),
        !has_parent_component(wiki_file(path)),
        has_prefix(web_file(path), "web/"@),
        !has_parent_component(web_file(path)),
{
    reveal_strlit("wiki/");
    reveal_strlit("web/");
    reveal_strlit(".md");
    let t = trim_start(lowercase_of(path), seq!['/']);
    let once = "wiki/"@ + replace_all(t, seq!['.', '.'], seq!['.']) + ".md"@;
    let w = "wiki/"@ + collapse_dots(t) + ".md"@;
    let m = collapse_dots(t);
    lemma_collapse_leaves_no_double_dot(t);
    assert(w.take("wiki/"@.len() as int) =~= "wiki/"@);
    assert(w.skip(w.len() - ".md"@.len()) =~= ".md"@);
    assert(once.take("wiki/"@.len() as int) =~= "wiki/"@);
    assert(once.skip(once.len() - ".md"@.len()) =~= ".md"@);
    assert(!has_parent_component(w)) by {
        if has_parent_component(w) {
            let i = choose|i: int|
                0 <= i && i + 1 < w.len() && #[trigger] w[i] == '.' && w[i + 1] == '.' && (i == 0
                    || w[i - 1] == '/') && (i + 2 == w.len() || w[i + 2] == '/');
            if i + 1 < 5 {
                assert(w[i] == "wiki/"@[i]);
            } else if i < 5 {
                assert(w[i] == "wiki/"@[i]);
            } else if i + 1 < 5 + m.len() {
                assert(w[i] == m[i - 5]);
                assert(w[i + 1] == m[(i - 5) + 1]);
            } else if i < 5 + m.len() {
                assert(w[i + 1] == ".md"@[0]);
                assert(w[i + 2] == ".md"@[1]);
            } else {
                assert(w[i + 1] == ".md"@[i + 1 - 5 - m.len()]);
            }
        }
    }
    let u = trim_start(path, seq!['/']);
    let bonce = "web/"@ + replace_all(u, seq!['.', '.'], seq!['.']);
    let b = "web/"@ + collapse_dots(u);
    let n = collapse_dots(u);
    lemma_collapse_leaves_no_double_dot(u);
    assert(b.take("web/"@.len() as int) =~= "web/"@);
    assert(bonce.take("web/"@.len() as int) =~= "web/"@);
    assert(!has_parent_component(b)) by {
        if has_parent_component(b) {
            let i = choose|i: int|
                0 <= i && i + 1 < b.len() && #[trigger] b[i] == '.' && b[i + 1] == '.' && (i == 0
                    || b[i - 1] == '/') && (i + 2 == b.len() || b[i + 2] == '/');
            if i < 4 {
                assert(b[i] == "web/"@[i]);
            } else {
                assert(b[i] == n[i - 4]);
                assert(b[i + 1] == n[(i - 4) + 1]);
            }
        }
    }
}

/// For any page, exactly one of `wiki_path` and `new_wiki_path` gives a
/// file, and it is the same file.
pub proof fn lemma_existing_or_new(path: Seq<char>, page_exists: bool)
    ensures
        existing_page_file(path, page_exists) is Some != new_page_file(path, page_exists) is Some,
        existing_page_file(path, page_exists) is Some ==> existing_page_file(path, page_exists)
            == Some(wiki_file(path)),
        new_page_file(path, page_exists) is Some ==> new_page_file(path, page_exists) == Some(
            wiki_file(path),
        ),
{
}

/// Markdown saved to a page is written to the file that its edit form
/// reads.
pub proof fn lemma_save_writes_what_edit_reads(
    url: Seq<char>,
    query: Seq<char>,
    asset_exists: bool,
    save: Action,
    edit: Action,
)
    requires
        url != "/"@,
        url != "/new"@,
        url != "/sleep"@,
        url != "/404"@,
        query.len() > 0,
        routes_to(Method::Post, url, query, true, asset_exists, save),
        routes_to(Method::Get, url, "edit"@, true, asset_exists, edit),
    ensures
        save matches Action::Save(f) && edit matches Action::Edit(g) && f@ == g@,
{
    assert("edit"@.len() > 0) by {
        reveal_strlit("edit");
    }
}

/// A page created by the new-page form, or saved through its edit form, is
/// shown from the file just written when the browser follows the redirect
/// (whose target is the page's name, or the saved URL): provided that
/// address holds no `?`, does not end with `.md` and is none of the
/// server's own addresses.
pub proof fn lemma_written_page_is_shown(
    names: Seq<Seq<char>>,
    address: Seq<char>,
    asset_exists: bool,
    shown: Action,
)
    requires
        !address.contains('?'),
        !has_suffix(address, ".md"@),
        address != "/"@,
        address != "/new"@,
        address != "/sleep"@,
        address != "/404"@,
        routes_to(
            Method::Get,
            url_path(address),
            url_query(address),
            true,
            asset_exists,
            shown,
        ),
    ensures
        shown is Show,
        shown_file(url_path(address)) == wiki_file(address),
        page_to_create(names, address, false) is Some ==> page_to_create(names, address, false)
            == Some(shown_file(url_path(address))),
{
    crate::text::lemma_first_piece(address, '?');
    assert(url_path(address) == address);
    assert(url_query(address) == Seq::<char>::empty());
}

/// Text between `[` and `]` (`[Solar Power]`, which the markdown reader
/// may hand over in several pieces) becomes one link to the page named by
/// the whole text: every piece up to the `]` becomes nothing, the `]` the
/// link, and the reader is left outside any link with nothing collected.
pub proof fn lemma_bracketed_text_is_one_link(inner: Seq<Seq<char>>, page_names: Seq<Seq<char>>)
    requires
        forall|i: int| 0 <= i < inner.len() ==> inner[i] != seq![']'],
    ensures
        run_texts(
            false,
            Seq::<char>::empty(),
            seq![seq!['[']] + inner + seq![seq![']']],
            page_names,
        ) == (
            false,
            Seq::<char>::empty(),
            Seq::new(inner.len() + 1, |i: int| Emitted::Empty).push(
                Emitted::Html(wiki_link_html(concat_all(inner), page_names)),
            ),
        ),
{
    lemma_open_link_collects(inner, page_names);
    let all = seq![seq!['[']] + inner + seq![seq![']']];
    assert(all.drop_last() =~= seq![seq!['[']] + inner);
    assert(all.last() == seq![']']);
    assert(Seq::new(inner.len() + 1, |i: int| Emitted::Empty).push(
        Emitted::Html(wiki_link_html(concat_all(inner), page_names)),
    ) =~= Seq::new(inner.len() + 1, |i: int| Emitted::Empty).push(
        Emitted::Html(wiki_link_html(concat_all(inner), page_names)),
    ));
}

/// Outside a link the reader holds no collected text, whatever text events
/// it has read since it was made.
pub proof fn lemma_closed_reader_holds_nothing(texts: Seq<Seq<char>>, page_names: Seq<Seq<char>>)
    ensures
        !run_texts(false, Seq::<char>::empty(), texts, page_names).0 ==> run_texts(
            false,
            Seq::<char>::empty(),
            texts,
            page_names,
        ).1 == Seq::<char>::empty(),
    decreases texts.len(),
{
    if texts.len() > 0 {
        lemma_closed_reader_holds_nothing(texts.drop_last(), page_names);
    }
}

/// After `[` and pieces without `]`, a link is open holding all the pieces.
proof fn lemma_open_link_collects(inner: Seq<Seq<char>>, page_names: Seq<Seq<char>>)
    requires
        forall|i: int| 0 <= i < inner.len() ==> inner[i] != seq![']'],
    ensures
        run_texts(false, Seq::<char>::empty(), seq![seq!['[']] + inner, page_names) == (
            true,
            concat_all(inner),
            Seq::new(inner.len() + 1, |i: int| Emitted::Empty),
        ),
    decreases inner.len(),
{
    let all = seq![seq!['[']] + inner;
    if inner.len() == 0 {
        assert(all =~= seq![seq!['[']]);
        assert(all.drop_last() =~= Seq::<Seq<char>>::empty());
        assert(all.last() == seq!['[']);
        let prev = run_texts(false, Seq::<char>::empty(), all.drop_last(), page_names);
        assert(prev == (false, Seq::<char>::empty(), Seq::<Emitted>::empty()));
        assert(concat_all(inner) == Seq::<char>::empty());
        let r = run_texts(false, Seq::<char>::empty(), all, page_names);
        assert(r.0);
        assert(r.1 =~= concat_all(inner));
        assert(r.2 =~= Seq::new(1, |i: int| Emitted::Empty));
    } else {
        let front = inner.drop_last();
        lemma_open_link_collects(front, page_names);
        assert(all.drop_last() =~= seq![seq!['[']] + front);
        assert(all.last() == inner.last());
        assert(inner.last() == inner[inner.len() - 1]);
        assert(inner.last() != seq![']']);
        assert(inner.drop_last() == front);
        let prev = run_texts(false, Seq::<char>::empty(), all.drop_last(), page_names);
        assert(prev.0);
        let r = run_texts(false, Seq::<char>::empty(), all, page_names);
        assert(r.0);
        assert(r.1 =~= concat_all(inner));
        assert(r.2 =~= Seq::new(inner.len() + 1, |i: int| Emitted::Empty));
    }
}

/// A page whose name holds no `/` has the title that its URL path gives.
pub proof fn lemma_page_title_is_url_title(path: Seq<char>, root: Seq<char>)
    requires
        !crate::page::page_name(path, root).contains('/'),
    ensures
        crate::page::title_of(crate::page::page_name(path, root)) == path_title(
            crate::page::page_name(path, root),
        ),
{
    let name = crate::page::page_name(path, root);
    crate::page::lemma_page_name_shape(path, root);
    crate::page::lemma_title_of_plain_name(name);
    if name.len() > 0 {
        assert(!has_prefix(name, seq!['/'])) by {
            if has_prefix(name, seq!['/']) {
                assert(name.take(1)[0] == name[0]);
            }
        }
    }
    assert(trim_start(name, seq!['/']) == name);
}


/// Only an asset's answer carries a content type of its own: every other
/// answer, a shown wiki page among them, is sent as
/// `text/html; charset=utf8`.
pub proof fn lemma_pages_are_sent_as_html(
    action: Action,
    url: Seq<char>,
    fetched: Fetched,
    layout: Option<Seq<char>>,
)
    requires
        !(action is Asset),
    ensures
        answered(action, url, fetched, layout).2 == "text/html; charset=utf8"@,
{
}

/// An asset is sent with the content type that routing chose for it, when
/// its text was read.
pub proof fn lemma_assets_keep_their_content_type(
    file: String,
    ct: &'static str,
    url: Seq<char>,
    text: String,
    layout: Option<Seq<char>>,
)
    ensures
        answered(Action::Asset(file, ct), url, Fetched::FileText(text), layout) == (
            200i32,
            text@,
            ct@,
        ),
{
}

/// A `GET` of one of the server's own addresses is routed by the URL path
/// alone, whatever the query and whatever pages or assets exist: `/` lists
/// the pages, `/new` is the new-page form, `/sleep` the slow answer and
/// `/404` the not-found page; a `POST` to `/new` creates a page.
pub proof fn lemma_fixed_routes_ignore_the_query(
    query: Seq<char>,
    page_exists: bool,
    asset_exists: bool,
    action: Action,
)
    ensures
        routes_to(Method::Get, "/"@, query, page_exists, asset_exists, action) ==> action is Index,
        routes_to(Method::Get, "/new"@, query, page_exists, asset_exists, action) ==> action is NewPageForm,
        routes_to(Method::Get, "/sleep"@, query, page_exists, asset_exists, action) ==> action is Sleep,
        routes_to(Method::Get, "/404"@, query, page_exists, asset_exists, action) ==> action is NotFound,
        routes_to(Method::Post, "/new"@, query, page_exists, asset_exists, action) ==> action is Create,
{
    reveal_strlit("/");
    reveal_strlit("/new");
    reveal_strlit("/sleep");
    reveal_strlit("/404");
    assert("/new"@ != "/"@) by {
        assert("/new"@.len() != "/"@.len());
    }
    assert("/sleep"@ != "/"@ && "/sleep"@ != "/new"@) by {
        assert("/sleep"@.len() != "/"@.len());
        assert("/sleep"@.len() != "/new"@.len());
    }
    assert("/404"@ != "/"@ && "/404"@ != "/new"@ && "/404"@ != "/sleep"@) by {
        assert("/404"@.len() != "/"@.len());
        assert("/404"@[1] != "/new"@[1]);
        assert("/404"@.len() != "/sleep"@.len());
    }
}

/// Without navigation the layout's `{nav}` is filled with nothing, just as
/// with an empty navigation.
pub proof fn lemma_no_nav_is_empty_nav(t: Seq<char>, title: Seq<char>, body: Seq<char>)
    ensures
        laid_out(Some(t), title, body, None) == laid_out(Some(t), title, body, Some(Seq::<char>::empty())),
{
}

} // verus!
