use reactor_core::search::{case_insensitive_search, search, Config};

#[test]
fn one_result() {
    let query = "ductive";
    let content = "\n
        Rust:\n
        safe, fast, productive\n
        Pick three.";

    assert_eq!(vec!["safe, fast, productive"], search(query, content))
}

#[test]
fn case_sensitive() {
    let query = "and";
    let content = "
        When, in disgrace with fortune and men’s eyes,
        I all alone beweep my outcast state,
        And trouble deaf heaven with my bootless cries";

    assert_eq!(
        vec!["When, in disgrace with fortune and men’s eyes,"],
        search(query, content)
    );
}

#[test]
fn case_insensitive() {
    let query = "and";
    let content = "When, in disgrace with fortune and men’s eyes,
        I all alone beweep my outcast state,
        And trouble deaf heaven with my bootless cries";

    assert_eq!(
        vec![
            "When, in disgrace with fortune and men’s eyes,",
            "And trouble deaf heaven with my bootless cries"
        ],
        case_insensitive_search(query, content)
    )
}

#[test]
fn empty_query_matches_every_line() {
    let lines = search("", "alpha\nbeta");
    assert_eq!(vec!["alpha", "beta"], lines);
}

#[test]
fn no_match_is_empty() {
    let lines = search("zebra", "alpha\nbeta");
    assert!(lines.is_empty());
}

#[test]
fn empty_content_has_no_lines() {
    let lines = search("a", "");
    assert!(lines.is_empty());
}

#[test]
fn crlf_line_endings_are_stripped() {
    let lines = search("b", "abc\r\nxbx\r\n");
    assert_eq!(vec!["abc", "xbx"], lines);
}

#[test]
fn config_needs_three_arguments() {
    let args = vec![String::from("grep"), String::from("file.txt")];
    let r = Config::new(&args, true);
    assert_eq!(r.err(), Some("Not enough arguments"));
}

#[test]
fn config_takes_path_then_pattern() {
    let args = vec![
        String::from("grep"),
        String::from("file.txt"),
        String::from("needle"),
    ];
    let c = Config::new(&args, false).ok().unwrap();
    assert_eq!(c.path, "file.txt");
    assert_eq!(c.pattern, "needle");
    assert!(!c.is_case_sensitive);
}

#[test]
fn search_in_follows_case_sensitivity() {
    let args = vec![
        String::from("grep"),
        String::from("file.txt"),
        String::from("AND"),
    ];
    let content = "and below\nAND above";
    let sensitive = Config::new(&args, true).ok().unwrap();
    assert_eq!(vec!["AND above"], sensitive.search_in(content));
    let insensitive = Config::new(&args, false).ok().unwrap();
    assert_eq!(vec!["and below", "AND above"], insensitive.search_in(content));
}
