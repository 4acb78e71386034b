use settle::extract::{find_links, find_tags, strip_multiple_whitespace};

#[test]
fn links_simple() {
    let links = find_links("see [[Alpha]] and [[Beta Gamma]].");
    assert_eq!(links, vec!["Alpha".to_string(), "Beta Gamma".to_string()]);
}

#[test]
fn links_collapse_inner_whitespace() {
    let links = find_links("a [[foo\n\tbar]] b");
    assert_eq!(links, vec!["foo bar".to_string()]);
}

#[test]
fn links_across_lines() {
    let links = find_links("x [[one\ntwo]] y [[three]]");
    assert_eq!(links, vec!["one two".to_string(), "three".to_string()]);
}

#[test]
fn links_malformed_yield_nothing() {
    assert_eq!(find_links("[[unclosed"), Vec::<String>::new());
    assert_eq!(find_links("no brackets ]] here"), Vec::<String>::new());
    assert_eq!(find_links(""), Vec::<String>::new());
}

#[test]
fn links_nongreedy_first_close_wins() {
    // the scan is non-greedy: the first `]]` closes the link
    let links = find_links("[[a[[b]]");
    assert_eq!(links, vec!["a[[b".to_string()]);
}

#[test]
fn tags_simple() {
    let tags = find_tags("x #gardening y #note-taking z");
    assert_eq!(tags, vec!["gardening".to_string(), "note-taking".to_string()]);
}

#[test]
fn tags_hierarchical() {
    let tags = find_tags("intro #proj/x outro");
    assert_eq!(tags, vec!["proj/x".to_string()]);
}

#[test]
fn tags_must_be_delimited() {
    assert_eq!(find_tags("a#b "), Vec::<String>::new());
    assert_eq!(find_tags("#leading no ws before"), Vec::<String>::new());
    assert_eq!(find_tags("trailing #tag"), Vec::<String>::new());
}

#[test]
fn tags_consume_their_trailing_delimiter() {
    // the whitespace after a tag belongs to its match, so two tags
    // cannot share one delimiter
    let tags = find_tags(" #a #b ");
    assert_eq!(tags, vec!["a".to_string()]);
}

#[test]
fn strip_whitespace_runs() {
    assert_eq!(strip_multiple_whitespace("a \t\n b"), "a b".to_string());
    assert_eq!(strip_multiple_whitespace("ab"), "ab".to_string());
    assert_eq!(strip_multiple_whitespace(""), "".to_string());
}

#[test]
fn extraction_idempotent_on_wellformed_text() {
    // normalization happens once: re-running the extractor over text
    // that only holds well-formed markers changes nothing
    let text = "start [[a b]] mid #t/u end";
    let first_links = find_links(text);
    let second_links = find_links(text);
    assert_eq!(first_links, second_links);
    let first_tags = find_tags(text);
    let second_tags = find_tags(text);
    assert_eq!(first_tags, second_tags);
    let collapsed = strip_multiple_whitespace("x \n\t y");
    assert_eq!(strip_multiple_whitespace(&collapsed), collapsed);
}
