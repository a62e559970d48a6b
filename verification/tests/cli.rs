use deadwiki::cli::{parse_args, parse_i32, wiki_root, Command};

fn args(list: &[&str]) -> Vec<String> {
    list.iter().map(|a| a.to_string()).collect()
}

#[test]
fn defaults_without_arguments() {
    match parse_args(&args(&[])) {
        Command::Run(o) => {
            assert_eq!(o.path, "");
            assert_eq!(o.host, "0.0.0.0");
            assert_eq!(o.port, 8000);
            assert!(!o.sync);
        }
        _ => panic!("run expected"),
    }
}

#[test]
fn full_command_line() {
    match parse_args(&args(&["-s", "--host", "127.0.0.1", "-p", "9000", "~/notes"])) {
        Command::Run(o) => {
            assert_eq!(o.path, "~/notes");
            assert_eq!(o.host, "127.0.0.1");
            assert_eq!(o.port, 9000);
            assert!(o.sync);
        }
        _ => panic!("run expected"),
    }
}

#[test]
fn last_path_wins() {
    match parse_args(&args(&["one", "two"])) {
        Command::Run(o) => assert_eq!(o.path, "two"),
        _ => panic!("run expected"),
    }
}

#[test]
fn version_and_help_stop_reading() {
    assert!(matches!(parse_args(&args(&["-v", "--bogus"])), Command::Version));
    assert!(matches!(parse_args(&args(&["wiki", "--version"])), Command::Version));
    assert!(matches!(parse_args(&args(&["-help", "-v"])), Command::Help));
}

#[test]
fn errors() {
    match parse_args(&args(&["--host"])) {
        Command::Fail(m) => assert_eq!(m, "--host needs a value"),
        _ => panic!("failure expected"),
    }
    match parse_args(&args(&["-port"])) {
        Command::Fail(m) => assert_eq!(m, "--port needs a value"),
        _ => panic!("failure expected"),
    }
    match parse_args(&args(&["wiki", "-x"])) {
        Command::Fail(m) => assert_eq!(m, "unknown option: -x"),
        _ => panic!("failure expected"),
    }
    match parse_args(&args(&["-p", "eighty"])) {
        Command::BadPort(p) => assert_eq!(p, "eighty"),
        _ => panic!("bad port expected"),
    }
}

#[test]
fn i32_parsing_matches_std() {
    for s in [
        "0", "8000", "+12", "-12", "2147483647", "-2147483648", "2147483648", "-2147483649",
        "", "+", "-", "1a", " 1", "99999999999999999999", "007", "--1",
    ] {
        assert_eq!(parse_i32(s), s.parse::<i32>().ok(), "parsing {:?}", s);
    }
}

#[test]
fn wiki_roots() {
    assert_eq!(wiki_root("~/notes", "/home/me"), "/home/me/notes/");
    assert_eq!(wiki_root("/srv/wiki/", "/home/me"), "/srv/wiki/");
    assert_eq!(wiki_root("wiki", "/home/me"), "wiki/");
}

#[test]
fn default_host_and_port_without_flags() {
    match parse_args(&args(&["-s", "wiki"])) {
        Command::Run(o) => {
            assert_eq!(o.host, "0.0.0.0");
            assert_eq!(o.port, 8000);
        }
        _ => panic!("run expected"),
    }
}
