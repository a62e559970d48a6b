use deadwiki::app::{jump_links, new_page_name, page_to_show};
use deadwiki::context::{Context, NewContext, PageContext, SearchContext};
use deadwiki::page::Page;
use deadwiki::render::layout;
use deadwiki::state::layout_template;
use deadwiki::views::edit::Edit;
use deadwiki::views::index::Index;
use deadwiki::views::jump::Jump;
use deadwiki::views::layout::Layout;
use deadwiki::views::new::New;
use deadwiki::views::search::Search;

#[test]
fn contexts_hold_what_they_are_given() {
    let ctx = Context::new("Home");
    assert_eq!(ctx.title, "Home");
    assert!(!ctx.is_app);
    let page = Page::new("./wiki", "./wiki/home.md");
    let ctx = PageContext::new("Home".to_string(), &page);
    assert_eq!(ctx.title, "Home");
    assert_eq!(ctx.page.name(), "home");
    let pages = vec![Page::new("./wiki", "./wiki/a.md")];
    let ctx = SearchContext::new("found", &pages);
    assert_eq!(ctx.title, "found");
    assert_eq!(ctx.results.len(), 1);
    let ctx = NewContext::new("new", &pages);
    assert_eq!(ctx.title, "new");
    assert_eq!(ctx.results[0].name(), "a");
}

#[test]
fn views_hold_what_they_are_given() {
    assert_eq!(Edit::new("# hi".to_string()).markdown, "# hi");
    let index = Index::new(vec![]);
    assert!(index.hide_hint);
    let index = Index::new(vec![Page::new("./wiki", "./wiki/a.md")]);
    assert!(!index.hide_hint);
    assert_eq!(index.pages.len(), 1);
    assert_eq!(Jump::new(vec![]).pages.len(), 0);
    let l = Layout::new("t", "b", "w", "[]".to_string(), "n");
    assert_eq!((l.title, l.body, l.webview_app, l.pages_json.as_str(), l.nav), ("t", "b", "w", "[]", "n"));
    assert_eq!(New::new("note").name, "note");
    let s = Search::new("tag", vec![Page::new("./wiki", "./wiki/a.md")]);
    assert_eq!(s.tag, "tag");
    assert_eq!(s.pages[0].name(), "a");
}

#[test]
fn render_layout() {
    let t = "<h1>{title}</h1>{nav}<div class=\"{webview-app}\">{body}</div>";
    assert_eq!(
        layout(Some(t), "Home", "<p>x</p>", Some("<nav/>")),
        "<h1>Home</h1><nav/><div class=\"\"><p>x</p></div>"
    );
    assert_eq!(layout(None, "Home", "<p>x</p>", None), "<p>x</p>");
}

#[test]
fn layout_templates() {
    assert_eq!(layout_template("<main>{body}</main>", "{{page}}"), "<main>{{page}}</main>");
    assert_eq!(layout_template("<main></main>", "x"), "<main></main>");
}

#[test]
fn route_helpers() {
    assert_eq!(new_page_name(Some("garden")), "garden");
    assert_eq!(new_page_name(None), "note.md");
    assert_eq!(page_to_show("home.md"), "home");
    assert_eq!(page_to_show("home"), "home");
    let names = vec!["home".to_string(), "todo".to_string()];
    let tags = vec!["#rust".to_string()];
    let links = jump_links(&names, &tags);
    assert_eq!(links, vec![(0, "home".to_string()), (1, "todo".to_string()), (2, "#rust".to_string())]);
}
