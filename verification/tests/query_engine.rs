use settle::builder::NoteFile;
use settle::config::ConfigOptions;
use settle::database::Database;
use settle::queries::{
    backlinks, filter_isolated, filter_project, filter_tag, filter_text, filter_title, fwlinks,
    intersect, realproject,
};
use settle::zettel::Zettel;

fn note(title: &str, project: &str, links: &[&str], tags: &[&str]) -> Zettel {
    let mut z = Zettel::new(title, project);
    for l in links {
        z.links.push(l.to_string());
    }
    for t in tags {
        z.tags.push(t.to_string());
    }
    z
}

fn sample() -> Vec<Zettel> {
    vec![
        note("Alpha", "p", &["Beta"], &["proj/x"]),
        note("Beta", "p", &[], &["proj"]),
        note("Gamma", "q", &[], &["other"]),
        note("Loner", "", &[], &[]),
    ]
}

#[test]
fn title_filter_exact_and_regex() {
    let zs = sample();
    let exact = filter_title(&zs, &"Alpha".to_string(), true).unwrap();
    assert_eq!(exact.len(), 1);
    let re = filter_title(&zs, &"(Alpha|Beta)".to_string(), false).unwrap();
    assert_eq!(re.len(), 2);
    // the pattern is anchored: a prefix alone does not match
    let prefix = filter_title(&zs, &"Alph".to_string(), false).unwrap();
    assert_eq!(prefix.len(), 0);
    let dot = filter_title(&zs, &"Alph.".to_string(), false).unwrap();
    assert_eq!(dot.len(), 1);
    assert!(filter_title(&zs, &"(".to_string(), false).is_none());
    assert!(filter_title(&zs, &"(".to_string(), true).is_some());
}

#[test]
fn project_filter_and_main_alias() {
    let zs = sample();
    assert_eq!(realproject("main"), "".to_string());
    assert_eq!(realproject(""), "".to_string());
    assert_eq!(realproject("work"), "work".to_string());
    let root = filter_project(&zs, &realproject("main"), true).unwrap();
    assert_eq!(root.len(), 1);
    assert_eq!(root[0].title, "Loner".to_string());
    let p = filter_project(&zs, &"p".to_string(), true).unwrap();
    assert_eq!(p.len(), 2);
}

#[test]
fn tag_filter_matches_children_in_pattern_mode() {
    let zs = sample();
    let pattern = filter_tag(&zs, &"proj".to_string(), false).unwrap();
    assert_eq!(pattern.len(), 2);
    let exact = filter_tag(&zs, &"proj".to_string(), true).unwrap();
    assert_eq!(exact.len(), 1);
    assert_eq!(exact[0].title, "Beta".to_string());
}

#[test]
fn query_conjunction_is_intersection() {
    let zs = sample();
    let by_project = filter_project(&zs, &"p".to_string(), true).unwrap();
    let by_tag = filter_tag(&zs, &"proj".to_string(), false).unwrap();
    let chained = filter_tag(&by_project, &"proj".to_string(), false).unwrap();
    let crossed = intersect(&by_project, &by_tag);
    assert_eq!(chained, crossed);
    let reversed = filter_project(&by_tag, &"p".to_string(), true).unwrap();
    assert_eq!(chained, reversed);
}

#[test]
fn forward_links_and_backlinks() {
    let zs = sample();
    // notes linked to by Alpha
    let fw = fwlinks(&zs, &"Alpha".to_string(), true).unwrap();
    assert_eq!(fw.len(), 1);
    assert_eq!(fw[0].title, "Beta".to_string());
    // notes that link to Beta
    let bl = backlinks(&zs, &"Beta".to_string(), true).unwrap();
    assert_eq!(bl.len(), 1);
    assert_eq!(bl[0].title, "Alpha".to_string());
}

#[test]
fn isolated_notes_have_no_links_either_way() {
    let zs = sample();
    let loners = filter_isolated(&zs, &zs);
    assert_eq!(loners.len(), 2);
    assert_eq!(loners[0].title, "Gamma".to_string());
    assert_eq!(loners[1].title, "Loner".to_string());
}

#[test]
fn text_filter_is_case_insensitive_and_reports_match() {
    let zs = vec![note("A", "", &[], &[]), note("B", "", &[], &[])];
    let contents = vec!["The QUICK fox".to_string(), "nothing here".to_string()];
    let (found, texts) = filter_text(&zs, &contents, &"quick".to_string()).unwrap();
    assert_eq!(found.len(), 1);
    assert_eq!(found[0].title, "A".to_string());
    assert_eq!(texts, vec!["QUICK".to_string()]);
    assert!(filter_text(&zs, &contents, &"(".to_string()).is_none());
}

#[test]
fn two_notes_scenario_tags_and_ghosts() {
    // A links to B and carries #proj/x; B carries #proj
    let c = ConfigOptions::new("/zk".to_string(), "".to_string());
    let files = vec![
        NoteFile::new("/zk/A.md".to_string(), "see [[B]] #proj/x ".to_string()),
        NoteFile::new("/zk/B.md".to_string(), "base #proj ".to_string()),
    ];
    let (db, _) = Database::generate(&c, &files);
    assert_eq!(db.list_tags(), vec!["proj".to_string(), "proj/x".to_string()]);
    let tagged = filter_tag(&db.all(), &"proj".to_string(), false).unwrap();
    assert_eq!(tagged.len(), 2);
    assert_eq!(db.zettel_not_yet_created(), Vec::<String>::new());

    // B's file disappears; rebuilding leaves B as a ghost
    let without_b = vec![NoteFile::new("/zk/A.md".to_string(), "see [[B]] #proj/x ".to_string())];
    let (db2, _) = Database::generate(&c, &without_b);
    assert_eq!(db2.zettel_not_yet_created(), vec!["B".to_string()]);
}
