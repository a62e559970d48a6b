use deadwiki::page::Page;
use deadwiki::web::{
    create_target, decode_form_value, new_wiki_path, path_to_title, route_action, split_url,
    web_disk_path, wiki_disk_path, wiki_path, wiki_request, Action, Method, TextOut, WikiLinks,
};

#[test]
fn files_stay_in_their_directories() {
    for p in ["Home", "/../../etc/passwd", "", "a/b/c", "....."] {
        let w = wiki_disk_path(p);
        assert!(w.starts_with("wiki/") && w.ends_with(".md"), "{}", w);
        assert!(web_disk_path(p).starts_with("web/"));
    }
}

#[test]
fn existing_or_new_page_file() {
    for exists in [true, false] {
        let old = wiki_path("Garden", exists);
        let new = new_wiki_path("Garden", exists);
        assert_ne!(old.is_some(), new.is_some());
        assert_eq!(old.or(new).as_deref(), Some("wiki/garden.md"));
    }
}

#[test]
fn page_names_have_no_extension_or_leading_slash() {
    let page = Page::new("./wiki", "./wiki//notes.md.md");
    assert_eq!(page.name(), "notes");
    assert!(!page.name().ends_with(".md"));
    assert!(!page.name().starts_with('/'));
    assert_eq!(page.url(), format!("/{}", page.name()));
}

#[test]
fn page_title_is_url_title() {
    for path in ["./wiki/linux_laptops.md", "./wiki/a__b.md", "./wiki/solar_power_2.md"] {
        let page = Page::new("./wiki", path);
        assert_eq!(page.title(), path_to_title(page.name()));
    }
}

#[test]
fn form_values_read_plus_before_escapes() {
    assert_eq!(decode_form_value("a+b"), "a b");
    assert_eq!(decode_form_value("%2B"), "+");
    assert_eq!(decode_form_value("1%2b1+2"), "1+1 2");
    assert_eq!(decode_form_value("no+escapes+here"), "no escapes here");
}

#[test]
fn files_name_no_parent_directory() {
    for p in ["..../x", "../../etc/passwd", "a/../../b", "...", "x/..", "/.."] {
        for f in [wiki_disk_path(p), web_disk_path(p)] {
            assert!(!f.split('/').any(|c| c == ".."), "{}", f);
        }
    }
}

#[test]
fn ascii_titles() {
    let page = Page::new("./wiki", "./wiki/notes/big_ideas.md");
    assert_eq!(page.title(), "notes/Big Ideas");
}

#[test]
fn path_without_root_is_an_end_of_the_path() {
    for (root, path, rest) in [("./wiki", "./wiki/info.md", "info.md"), ("srv", "srv/a/b", "a/b")] {
        let page = Page::new(root, path);
        let r = page.path_without_root();
        assert!(path.ends_with(r) && !r.starts_with('/'));
        assert_eq!(r, rest);
    }
}

#[test]
fn markdown_without_links_is_written_as_it_is() {
    let md = "# Plain\n\nsome *text* here";
    assert_eq!(deadwiki::web::markdown_to_html(md, &vec![]), "<h1>Plain</h1>\n<p>some <em>text</em> here</p>\n");
}

#[test]
fn save_writes_what_edit_reads() {
    let saved = route_action(Method::Post, "/Garden", "edit", true, false);
    let edited = route_action(Method::Get, "/Garden", "edit", true, false);
    match (saved, edited) {
        (Action::Save(f), Action::Edit(g)) => assert_eq!(f, g),
        _ => panic!("save and edit expected"),
    }
}

#[test]
fn written_page_is_shown() {
    let names = vec!["home".to_string()];
    let created = create_target(&names, "Garden", false).unwrap();
    let (url, query) = split_url("Garden");
    assert!(matches!(route_action(Method::Get, &url, &query, true, false), Action::Show));
    let req = wiki_request(&url);
    assert_eq!(wiki_path(&req.page, true).unwrap(), created);
}

#[test]
fn bracketed_text_is_one_link() {
    let names: Vec<String> = vec![];
    let mut links = WikiLinks::new();
    for piece in ["[", "a", "[", "b c"] {
        assert!(matches!(links.on_text(piece, &names), TextOut::Empty));
    }
    match links.on_text("]", &names) {
        TextOut::Html(h) => assert_eq!(h, "<a href=\"/a[b_c\" class=\"new\">a[b c</a>"),
        _ => panic!("link expected"),
    }
    assert!(!links.open);
    assert_eq!(links.text, "");
}
