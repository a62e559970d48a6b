use deadwiki::text::{
    ends_with, join_with, replace, split_char, split_first, split_string, str_eq,
    trim_end_matches, trim_start_matches,
};

#[test]
fn trims_match_std() {
    for (s, p) in [("aaab", "a"), ("ababx", "ab"), ("x", ""), ("", "a"), ("aaa", "aa")] {
        assert_eq!(trim_start_matches(s, p), s.trim_start_matches(p));
        assert_eq!(trim_end_matches(s, p), s.trim_end_matches(p));
    }
}

#[test]
fn replace_matches_std() {
    for (s, f, t) in [("a..b", "..", "."), ("....", "..", "."), ("aaa", "aa", "b"), ("xyz", "q", "r")] {
        assert_eq!(replace(s, f, t), s.replace(f, t));
    }
}

#[test]
fn splits_match_std() {
    for s in ["a_b__c", "", "_", "abc", "é_ü"] {
        let ours = split_char(s, '_');
        let theirs: Vec<String> = s.split('_').map(|x| x.to_string()).collect();
        assert_eq!(ours, theirs);
        assert_eq!(join_with(&ours, '_'), s);
    }
    for (s, p) in [("xmarkdown=ymarkdown=z", "markdown="), ("aaa", "aa"), ("", "x"), ("ab", "ab")] {
        let theirs: Vec<String> = s.split(p).map(|x| x.to_string()).collect();
        assert_eq!(split_string(s, p), theirs);
    }
}

#[test]
fn split_first_matches_splitn() {
    for s in ["a=b=c", "abc", "=", ""] {
        let mut parts = s.splitn(2, '=');
        let head = parts.next().unwrap().to_string();
        let rest = parts.next().map(|r| r.to_string());
        assert_eq!(split_first(s, '='), (head, rest));
    }
}

#[test]
fn small_predicates() {
    assert!(ends_with("page.md", ".md"));
    assert!(!ends_with("md", ".md"));
    assert!(str_eq("gif", "gif"));
    assert!(!str_eq("gif", "gifs"));
}
