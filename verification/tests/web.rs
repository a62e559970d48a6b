use deadwiki::web::{
    answer, create_target, decode_form_value, get_content_type, markdown_to_html, Fetched,
    linked_text, new_page_form, new_wiki_path, page_list_html, page_name_of_entry, path_to_title,
    plan_response, posted_markdown, raw_page, render_with_layout, route_action, split_url,
    web_disk_path, web_path, wiki_disk_path, wiki_path, wiki_request, Action, Method, TextOut,
    WikiLinks, content_type_for, shown_page,
};

#[test]
fn path_to_title_example() {
    assert_eq!(path_to_title("some_page"), "Some Page");
    assert_eq!(path_to_title("/linux_laptops"), "Linux Laptops");
    assert_eq!(path_to_title("//a/b_c"), "A/b C");
    assert_eq!(path_to_title(""), "?");
}

#[test]
fn wiki_path_example() {
    assert_eq!(wiki_disk_path("Welcome"), "wiki/welcome.md");
    assert_eq!(wiki_path("Welcome", true).as_deref(), Some("wiki/welcome.md"));
    assert_eq!(wiki_path("Welcome", false), None);
}

#[test]
fn wiki_disk_path_collapses_dots_and_slashes() {
    assert_eq!(wiki_disk_path("/Solar_Power"), "wiki/solar_power.md");
    assert_eq!(wiki_disk_path("../secret"), "wiki/./secret.md");
    assert_eq!(wiki_disk_path("a....b"), "wiki/a..b.md");
    assert_eq!(wiki_disk_path("a...b"), "wiki/a..b.md");
    assert_eq!(wiki_disk_path("x/.."), "wiki/x/..md");
    assert_eq!(wiki_disk_path("..../x"), "wiki/./x.md");
    assert_eq!(wiki_disk_path("a/.../b"), "wiki/a/./b.md");
}

#[test]
fn new_wiki_path_only_for_missing_pages() {
    assert_eq!(new_wiki_path("Fresh", false).as_deref(), Some("wiki/fresh.md"));
    assert_eq!(new_wiki_path("Fresh", true), None);
}

#[test]
fn web_path_example() {
    assert_eq!(web_disk_path("style.css"), "web/style.css");
    assert_eq!(web_path("/style.css", true).as_deref(), Some("web/style.css"));
    assert_eq!(web_path("style.css", false), None);
    assert_eq!(web_disk_path("../etc/passwd"), "web/./etc/passwd");
    assert_eq!(web_disk_path("..../x"), "web/./x");
    assert_eq!(web_disk_path("x/...."), "web/x/.");
    assert_eq!(web_disk_path("a...b.css"), "web/a..b.css");
}

#[test]
fn content_types() {
    assert_eq!(content_type_for(None), "text/plain");
    assert_eq!(content_type_for(Some("gif")), "image/gif");
    assert_eq!(content_type_for(Some("jpg")), "image/jpeg");
    assert_eq!(content_type_for(Some("jpeg")), "image/jpeg");
    assert_eq!(content_type_for(Some("png")), "image/png");
    assert_eq!(content_type_for(Some("pdf")), "application/pdf");
    assert_eq!(content_type_for(Some("css")), "text/css; charset=utf8");
    assert_eq!(content_type_for(Some("htm")), "text/html; charset=utf8");
    assert_eq!(content_type_for(Some("html")), "text/html; charset=utf8");
    assert_eq!(content_type_for(Some("txt")), "text/plain; charset=utf8");
    assert_eq!(content_type_for(Some("rs")), "text/plain; charset=utf8");
}

#[test]
fn get_content_type_reads_the_extension() {
    assert_eq!(get_content_type("style.css", true), Some("text/css; charset=utf8"));
    assert_eq!(get_content_type("img/cat.png", true), Some("image/png"));
    assert_eq!(get_content_type("README", true), Some("text/plain"));
    assert_eq!(get_content_type("style.css", false), None);
}

#[test]
fn decode_form_value_examples() {
    assert_eq!(decode_form_value("hello+world"), "hello world");
    assert_eq!(decode_form_value("hello+world%21"), "hello world!");
    assert_eq!(decode_form_value("a%20b%2Bc"), "a b+c");
    assert_eq!(decode_form_value("1%2B1"), "1+1");
    assert_eq!(decode_form_value("100%"), "100%");
    assert_eq!(decode_form_value("plain"), "plain");
}

#[test]
fn split_url_examples() {
    let (path, query) = split_url("/page?edit");
    assert_eq!(path, "/page");
    assert_eq!(query, "edit");
    let (path, query) = split_url("/page");
    assert_eq!(path, "/page");
    assert_eq!(query, "");
    let (path, query) = split_url("/p?a?b");
    assert_eq!(path, "/p");
    assert_eq!(query, "a?b");
}

#[test]
fn new_page_form_reads_last_fields() {
    let (name, mdown) = new_page_form("name=Solar+Power&markdown=%23+Hi&other=1");
    assert_eq!(name, "Solar Power");
    assert_eq!(mdown, "# Hi");
    let (name, mdown) = new_page_form("name=a&name=b&markdown");
    assert_eq!(name, "b");
    assert_eq!(mdown, "");
    let (name, mdown) = new_page_form("");
    assert_eq!(name, "");
    assert_eq!(mdown, "");
}

#[test]
fn posted_markdown_after_last_marker() {
    assert_eq!(posted_markdown("x=1&markdown=hello+there"), "hello there");
    assert_eq!(posted_markdown("markdown=a&markdown=b"), "b");
    assert_eq!(posted_markdown("nothing"), "nothing");
}

#[test]
fn page_list() {
    let names = vec!["home".to_string(), "todo".to_string()];
    assert_eq!(
        page_list_html(&names),
        "<ul><li><a href=\"home\">home</a></li><li><a href=\"todo\">todo</a></li></ul>"
    );
    assert_eq!(page_list_html(&vec![]), "<ul></ul>");
}

#[test]
fn layout_replacements() {
    let layout = "<title>{title}</title><nav>{nav}</nav><main>{body}</main>";
    assert_eq!(
        render_with_layout(Some(layout), "T", "B", Some("N")),
        "<title>T</title><nav>N</nav><main>B</main>"
    );
    assert_eq!(
        render_with_layout(Some(layout), "T", "B", None),
        "<title>T</title><nav></nav><main>B</main>"
    );
    assert_eq!(render_with_layout(None, "T", "B", None), "B");
    // a title holding a placeholder is itself filled in
    assert_eq!(render_with_layout(Some("{title}"), "{body}", "x", None), "x");
}

#[test]
fn wiki_requests() {
    let req = wiki_request("/solar_power.md");
    assert!(req.raw);
    assert_eq!(req.page, "/solar_power");
    assert_eq!(req.title, "Solar Power");
    let req = wiki_request("/solar_power");
    assert!(!req.raw);
    assert_eq!(req.page, "/solar_power");
    assert_eq!(raw_page("# x"), "<pre># x</pre>");
}

#[test]
fn routes() {
    assert!(matches!(route_action(Method::Get, "/", "", false, false), Action::Index));
    assert!(matches!(route_action(Method::Get, "/new", "", true, true), Action::NewPageForm));
    assert!(matches!(route_action(Method::Get, "/sleep", "", false, false), Action::Sleep));
    assert!(matches!(route_action(Method::Get, "/404", "", true, false), Action::NotFound));
    assert!(matches!(route_action(Method::Get, "/home", "", true, false), Action::Show));
    match route_action(Method::Get, "/Home", "edit", true, false) {
        Action::Edit(f) => assert_eq!(f, "wiki/home.md"),
        _ => panic!("edit expected"),
    }
    assert!(matches!(route_action(Method::Get, "/home", "raw", true, false), Action::OtherQuery));
    match route_action(Method::Get, "/style.css", "", false, true) {
        Action::Asset(f, ct) => {
            assert_eq!(f, "web/style.css");
            assert_eq!(ct, "text/css; charset=utf8");
        }
        _ => panic!("asset expected"),
    }
    assert!(matches!(route_action(Method::Get, "/nope", "", false, false), Action::NotFound));
    assert!(matches!(route_action(Method::Post, "/new", "", false, false), Action::Create));
    assert!(matches!(route_action(Method::Post, "/home", "", true, false), Action::NotFound));
    match route_action(Method::Post, "/home", "edit", true, false) {
        Action::Save(f) => assert_eq!(f, "wiki/home.md"),
        _ => panic!("save expected"),
    }
    assert!(matches!(route_action(Method::Post, "/home", "edit", false, true), Action::NotFound));
    assert!(matches!(route_action(Method::Other, "/", "", true, true), Action::Unhandled));
}

#[test]
fn statuses() {
    assert_eq!(Action::Index.status(), 200);
    assert_eq!(Action::NotFound.status(), 404);
    assert_eq!(Action::Create.status(), 404);
    assert_eq!(Action::Save("f".to_string()).status(), 302);
    assert_eq!(Action::Unhandled.status(), 404);
    assert_eq!(Action::OtherQuery.status(), 200);
}

#[test]
fn answers() {
    let layout = Some("<t>{title}</t>{body}");
    let a = answer(&Action::Index, "/", Fetched::PageNames(vec!["home".to_string()]), layout);
    assert_eq!(a.status, 200);
    assert_eq!(a.body, "<t>deadwiki</t><ul><li><a href=\"home\">home</a></li></ul>");
    assert_eq!(a.content_type, "text/html; charset=utf8");
    let a = answer(&Action::NewPageForm, "/new", Fetched::FileText("<form/>".to_string()), None);
    assert_eq!((a.status, a.body.as_str()), (200, "<form/>"));
    let a = answer(&Action::Sleep, "/sleep", Fetched::Nothing, layout);
    assert_eq!((a.status, a.body.as_str()), (200, "Zzzzz..."));
    let a = answer(&Action::NotFound, "/x", Fetched::FileText("gone".to_string()), layout);
    assert_eq!((a.status, a.body.as_str()), (404, "gone"));
    let a = answer(&Action::Create, "/new", Fetched::Created(Some("Garden".to_string())), layout);
    assert_eq!((a.status, a.body.as_str()), (302, "Garden"));
    let a = answer(&Action::Create, "/new", Fetched::Created(None), layout);
    assert_eq!((a.status, a.body.as_str()), (404, "404 Not Found"));
    let a = answer(&Action::Save("wiki/home.md".to_string()), "/home", Fetched::Nothing, layout);
    assert_eq!((a.status, a.body.as_str()), (302, "/home"));
    let a = answer(&Action::Show, "/home", Fetched::Shown(Some("<p>hi</p>".to_string())), layout);
    assert_eq!((a.status, a.body.as_str()), (200, "<p>hi</p>"));
    let a = answer(&Action::Show, "/home", Fetched::Shown(None), layout);
    assert_eq!((a.status, a.body.as_str()), (200, ""));
    let a = answer(
        &Action::Edit("wiki/home.md".to_string()),
        "/home",
        Fetched::EditForm(Some("<textarea>{markdown}</textarea>".to_string()), "# hi".to_string()),
        layout,
    );
    assert_eq!((a.status, a.body.as_str()), (200, "<t>Edit</t><textarea># hi</textarea>"));
    let a = answer(&Action::Asset("web/s.css".to_string(), "text/css; charset=utf8"), "/s.css", Fetched::FileText("b{}".to_string()), layout);
    assert_eq!((a.status, a.body.as_str(), a.content_type), (200, "b{}", "text/css; charset=utf8"));
    let a = answer(&Action::OtherQuery, "/home", Fetched::Nothing, layout);
    assert_eq!((a.status, a.body.as_str()), (200, "404 Not Found"));
    let a = answer(&Action::Unhandled, "/home", Fetched::Nothing, layout);
    assert_eq!((a.status, a.body.as_str()), (404, "404 Not Found"));
}

#[test]
fn markdown_with_wiki_links() {
    let names = vec!["solar_power".to_string()];
    assert_eq!(
        markdown_to_html("See [Solar Power] and [Wind].", &names),
        "<p>See <a href=\"/solar_power\" class=\"\">Solar Power</a> and <a href=\"/wind\" class=\"new\">Wind</a>.</p>\n"
    );
    assert_eq!(markdown_to_html("# Title\n\nplain text", &names), "<h1>Title</h1>\n<p>plain text</p>\n");
    assert_eq!(
        markdown_to_html("go to https://example.com", &names),
        "<p>go to <a href=\"https://example.com\">https://example.com</a></p>\n"
    );
}

#[test]
fn create_targets() {
    let names = vec!["home".to_string(), "solar power".to_string()];
    assert_eq!(create_target(&names, "Home", false), None);
    assert_eq!(create_target(&names, "Garden", true), None);
    assert_eq!(create_target(&names, "Garden", false).as_deref(), Some("wiki/garden.md"));
}

#[test]
fn response_plans() {
    let plan = plan_response(Ok((302, "/home".to_string(), "text/html")));
    assert_eq!(plan.status, 302);
    assert_eq!(plan.body, "Redirected to /home");
    assert_eq!(plan.header_field, "Location");
    assert_eq!(plan.header_value, "/home");
    let plan = plan_response(Ok((200, "hi".to_string(), "text/css")));
    assert_eq!(plan.body, "hi");
    assert_eq!(plan.header_field, "Content-Type");
    assert_eq!(plan.header_value, "text/css");
    let plan = plan_response(Err("boom".to_string()));
    assert_eq!(plan.status, 500);
    assert_eq!(plan.body, "<h1>500 Internal Error</h1><pre>boom</pre>");
    assert_eq!(plan.header_value, "text/html");
}

#[test]
fn entry_names() {
    assert_eq!(page_name_of_entry(Some("./wiki/home.md")), "home");
    assert_eq!(page_name_of_entry(Some("./wiki/Notes")), "notes");
    assert_eq!(page_name_of_entry(None), "?");
}

#[test]
fn wiki_links_in_markdown() {
    let names = vec!["solar_power".to_string()];
    let mut links = WikiLinks::new();
    assert!(matches!(links.on_text("[", &names), TextOut::Empty));
    assert!(links.open);
    assert!(matches!(links.on_text("Solar ", &names), TextOut::Empty));
    assert!(matches!(links.on_text("Power", &names), TextOut::Empty));
    match links.on_text("]", &names) {
        TextOut::Html(h) => {
            assert_eq!(h, "<a href=\"/solar_power\" class=\"\">Solar Power</a>")
        }
        _ => panic!("link expected"),
    }
    assert!(!links.open);
    assert_eq!(links.text, "");
    links.on_text("[", &names);
    links.on_text("Wind", &names);
    match links.on_text("]", &names) {
        TextOut::Html(h) => assert_eq!(h, "<a href=\"/wind\" class=\"new\">Wind</a>"),
        _ => panic!("link expected"),
    }
    assert!(matches!(links.on_text("plain words", &names), TextOut::Keep));
    assert!(matches!(links.on_text("]", &names), TextOut::Keep));
    match links.on_text("see https://example.com now", &names) {
        TextOut::Html(h) => assert_eq!(
            h,
            "see <a href=\"https://example.com\">https://example.com</a> now"
        ),
        _ => panic!("auto link expected"),
    }
}

#[test]
fn linked_text_by_length() {
    assert!(matches!(linked_text("ab", "ab".to_string()), TextOut::Keep));
    assert!(matches!(linked_text("ab", "xy".to_string()), TextOut::Keep));
    match linked_text("ab", "abc".to_string()) {
        TextOut::Html(h) => assert_eq!(h, "abc"),
        _ => panic!("html expected"),
    }
}

#[test]
fn link_events_reads_text_events() {
    let events = vec![
        Some("See ".to_string()),
        Some("[".to_string()),
        Some("Wind".to_string()),
        None,
        Some("]".to_string()),
        None,
    ];
    let outs = deadwiki::web::link_events(&events, &vec![]);
    assert_eq!(outs.len(), 6);
    assert!(matches!(outs[0], Some(TextOut::Keep)));
    assert!(matches!(outs[1], Some(TextOut::Empty)));
    assert!(matches!(outs[2], Some(TextOut::Empty)));
    assert!(outs[3].is_none());
    match &outs[4] {
        Some(TextOut::Html(h)) => assert_eq!(h, "<a href=\"/wind\" class=\"new\">Wind</a>"),
        _ => panic!("link expected"),
    }
    assert!(outs[5].is_none());
}

#[test]
fn shown_pages() {
    let names = vec!["wind".to_string()];
    let raw = wiki_request("/solar_power.md");
    assert_eq!(shown_page(&raw, "# [Wind]", Some("<t>{title}</t>{nav}{body}"), "<n/>", &names), "<pre># [Wind]</pre>");
    let req = wiki_request("/solar_power");
    assert_eq!(
        shown_page(&req, "see [Wind]", Some("<t>{title}</t>{nav}{body}"), "<n/>", &names),
        "<t>Solar Power</t><n/><p>see <a href=\"/wind\" class=\"\">Wind</a></p>\n"
    );
    assert_eq!(shown_page(&req, "x", None, "<n/>", &names), "<p>x</p>\n");
}
