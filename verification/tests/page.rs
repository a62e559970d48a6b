use deadwiki::page::Page;

#[test]
fn test_name() {
    let page = Page::new("./wiki", "./wiki/info.md");
    assert_eq!(page.name(), "info");
    assert_eq!(page.title(), "Info");
    assert_eq!(page.url(), "/info");
    assert_eq!(page.path(), "./wiki/info.md");

    let page = Page::new("./wiki", "./wiki/linux_laptops.md");
    assert_eq!(page.name(), "linux_laptops");
    assert_eq!(page.title(), "Linux Laptops");
    assert_eq!(page.url(), "/linux_laptops");
    assert_eq!(page.path(), "./wiki/linux_laptops.md");
}

#[test]
fn page_name_trims_root_dots_slashes_and_extensions() {
    let page = Page::new("/srv/wiki", "/srv/wiki/./notes/todo.md.md");
    // the dots are trimmed before the slashes, so this dot stays
    assert_eq!(page.path_without_root(), "./notes/todo.md.md");
    assert_eq!(page.name(), "./notes/todo");
    assert_eq!(page.url(), "/./notes/todo");
}

#[test]
fn page_root_repeats_are_all_trimmed() {
    let page = Page::new("ab", "ababab.md");
    assert_eq!(page.path_without_root(), "md");
    assert_eq!(page.name(), "md");
    assert_eq!(page.url(), "/md");
}

#[test]
fn page_with_empty_root_keeps_path() {
    let page = Page::new("", "hello.md");
    assert_eq!(page.path_without_root(), "hello.md");
    assert_eq!(page.name(), "hello");
}

#[test]
fn page_title_capitalizes_after_last_slash() {
    let page = Page::new("./wiki", "./wiki/projects/rust_notes/big_ideas.md");
    assert_eq!(page.name(), "projects/rust_notes/big_ideas");
    assert_eq!(page.title(), "projects/Rust notes/Big Ideas");
}

#[test]
fn page_title_of_empty_words_is_question_mark() {
    let page = Page::new("./wiki", "./wiki/a__b.md");
    assert_eq!(page.title(), "A ? B");
    let page = Page::new("./wiki", "./wiki/.md");
    assert_eq!(page.name(), "");
    assert_eq!(page.title(), "?");
}

#[test]
fn page_title_uppercases_non_ascii() {
    let page = Page::new("./wiki", "./wiki/élan_vital.md");
    assert_eq!(page.title(), "Élan Vital");
}
