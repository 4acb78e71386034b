use settle::config::ConfigOptions;
use settle::errors::EngineError;
use settle::fmt::{format_line, join_strings, replace_literals, replace_str, Printer};
use settle::graph::{gen_graph, to_petgraph, Edge};
use settle::paths::{basename, dirname, replace_extension};
use settle::patterns::glob_matches;
use settle::template::{fill_template, format_date};
use settle::zettel::Zettel;

fn cfg() -> ConfigOptions {
    ConfigOptions::new("/zk".to_string(), "".to_string())
}

fn note(title: &str, project: &str, links: &[&str], tags: &[&str]) -> Zettel {
    let mut z = Zettel::new(title, project);
    for l in links {
        z.links.push(l.to_string());
    }
    for t in tags {
        z.tags.push(t.to_string());
    }
    z
}

#[test]
fn format_tokens_substituted() {
    let z = note("T", "p", &["A", "B"], &[]);
    let line = format_line(
        &"%t|%p|%P|%l|%a".to_string(),
        &z,
        &cfg(),
        &",".to_string(),
        &"hit".to_string(),
        &vec!["C".to_string()],
    );
    assert_eq!(line, "T|p|/zk/p/T.md|A,B|hit".to_string());
}

#[test]
fn backlink_token_joins_titles() {
    let z = note("T", "", &[], &[]);
    let line = format_line(
        &"%b".to_string(),
        &z,
        &cfg(),
        &" | ".to_string(),
        &"".to_string(),
        &vec!["X".to_string(), "Y".to_string()],
    );
    assert_eq!(line, "X | Y".to_string());
}

#[test]
fn printer_renders_in_title_order() {
    let mut p = Printer::default();
    p.set_zettelkasten(vec![note("b", "", &[], &[]), note("a", "", &[], &[])]);
    let lines = p.render(&cfg());
    assert_eq!(lines, vec!["[] a".to_string(), "[] b".to_string()]);
}

#[test]
fn printer_format_and_separator_settable() {
    let mut p = Printer::default();
    p.set_zettelkasten(vec![note("n", "proj", &["x", "y"], &[])]);
    p.set_format("%t: %l".to_string());
    p.set_link_separator("+".to_string());
    p.set_additional(vec![]);
    assert_eq!(p.render(&cfg()), vec!["n: x+y".to_string()]);
}

#[test]
fn replace_and_literals() {
    assert_eq!(replace_str("aXbXc", "X", "-"), "a-b-c".to_string());
    assert_eq!(replace_literals("a\\nb\\tc"), "a\nb\tc".to_string());
    assert_eq!(join_strings(&vec!["a".to_string(), "b".to_string()], &"; ".to_string()), "a; b");
}

#[test]
fn filename_mapping() {
    let root_note = note("N", "", &[], &[]);
    assert_eq!(root_note.filename(&cfg()), "/zk/N.md".to_string());
    let project_note = note("N", "p", &[], &[]);
    assert_eq!(project_note.filename(&cfg()), "/zk/p/N.md".to_string());
}

#[test]
fn path_helpers() {
    assert_eq!(basename("/a/b/c.md"), "c.md".to_string());
    assert_eq!(basename("plain"), "plain".to_string());
    assert_eq!(dirname("/a/b/c.md"), "/a/b".to_string());
    assert_eq!(dirname("plain"), "".to_string());
    assert_eq!(replace_extension("/a/b/c.md", ""), "/a/b/c".to_string());
    assert_eq!(replace_extension("/a/b/c.md", "txt"), "/a/b/c.txt".to_string());
    assert_eq!(replace_extension("/a/.hidden", ""), "/a/.hidden".to_string());
}

#[test]
fn glob_language() {
    assert!(glob_matches("a*c", "abbbc"));
    assert!(glob_matches("*", ""));
    assert!(!glob_matches("a*c", "ab"));
    assert!(glob_matches("exact", "exact"));
}

#[test]
fn config_db_file_location() {
    assert_eq!(cfg().db_file(), "/zk/.settle.sql".to_string());
}

#[test]
fn expand_path_keeps_plain_absolute_paths() {
    assert_eq!(settle::config::expand_path("/a/b"), Some("/a/b".to_string()));
}

#[test]
fn date_and_template() {
    assert_eq!(format_date(2024, 3, 7), "2024-03-07".to_string());
    assert_eq!(format_date(980, 12, 31), "0980-12-31".to_string());
    let filled = fill_template("# ${TITLE}\n${DATE}\n", "My Note", "2024-03-07");
    assert_eq!(filled, "# My Note\n2024-03-07\n".to_string());
}

#[test]
fn graph_structure_and_ghost_marks() {
    let zs = vec![note("A", "", &["B", "Ghostly"], &[]), note("B", "", &["A"], &[])];
    let g = gen_graph(&zs);
    assert_eq!(g.nodes, vec!["A".to_string(), "B".to_string(), "Ghostly".to_string()]);
    assert_eq!(
        g.edges,
        vec![
            Edge { from: 0, to: 1, dangling: false },
            Edge { from: 0, to: 2, dangling: true },
            Edge { from: 1, to: 0, dangling: false },
        ]
    );
}

#[test]
fn petgraph_mirror_has_same_shape() {
    let zs = vec![note("A", "", &["B"], &[]), note("B", "", &[], &[])];
    let gd = gen_graph(&zs);
    let pg = to_petgraph(&gd);
    assert_eq!(pg.node_count(), 2);
    assert_eq!(pg.edge_count(), 1);
    let labels: Vec<&String> = pg.node_weights().collect();
    assert_eq!(labels, vec![&"A".to_string(), &"B".to_string()]);
}

#[test]
fn today_is_a_date_stamp() {
    let s = settle::template::today_string().unwrap();
    assert_eq!(s.len(), 10);
    assert_eq!(&s[4..5], "-");
    assert_eq!(&s[7..8], "-");
}

#[test]
fn error_messages_are_specific() {
    assert_eq!(
        EngineError::DuplicateTitle.message(),
        "a note with that title already exists"
    );
    assert_eq!(EngineError::NotFound.message(), "no note with that title");
}
