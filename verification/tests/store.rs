use settle::database::Database;
use settle::errors::EngineError;
use settle::zettel::Zettel;

fn note(title: &str, project: &str, links: &[&str], tags: &[&str]) -> Zettel {
    let mut z = Zettel::new(title, project);
    for l in links {
        z.links.push(l.to_string());
    }
    for t in tags {
        z.tags.push(t.to_string());
    }
    z
}

#[test]
fn insert_then_exact_find_round_trips() {
    let mut db = Database::new();
    let z = note("Alpha", "p", &["Beta"], &["t/x"]);
    assert!(db.save(&z).is_ok());
    let found = db.find_by_title(&"Alpha".to_string(), true);
    assert_eq!(found.len(), 1);
    assert!(found[0].same_as(&z));
}

#[test]
fn duplicate_title_rejected_and_store_unchanged() {
    let mut db = Database::new();
    let a = note("Alpha", "", &[], &[]);
    let again = note("Alpha", "other", &["X"], &["y"]);
    assert!(db.save(&a).is_ok());
    let before = db.all();
    let r = db.save(&again);
    assert_eq!(r, Err(EngineError::DuplicateTitle));
    let after = db.all();
    assert_eq!(before, after);
    assert_eq!(after.len(), 1);
}

#[test]
fn delete_removes_row_and_tolerates_absence() {
    let mut db = Database::new();
    let a = note("A", "", &[], &[]);
    let b = note("B", "", &[], &[]);
    db.save(&a).unwrap();
    db.save(&b).unwrap();
    db.delete(&a);
    let all = db.all();
    assert_eq!(all.len(), 1);
    assert_eq!(all[0].title, "B".to_string());
    // deleting again is a no-op, not an error
    db.delete(&a);
    assert_eq!(db.all().len(), 1);
}

#[test]
fn glob_lookup_star_and_literals() {
    let mut db = Database::new();
    db.save(&note("foobar", "", &[], &[])).unwrap();
    db.save(&note("xfoo", "", &[], &[])).unwrap();
    db.save(&note("a.b", "", &[], &[])).unwrap();
    let hits = db.find_by_title(&"foo*".to_string(), false);
    assert_eq!(hits.len(), 1);
    assert_eq!(hits[0].title, "foobar".to_string());
    // `.` and `%` are plain characters in the store's pattern language
    assert_eq!(db.find_by_title(&"a.b".to_string(), false).len(), 1);
    assert_eq!(db.find_by_title(&"a%b".to_string(), false).len(), 0);
    // `*` alone matches everything
    assert_eq!(db.find_by_title(&"*".to_string(), false).len(), 3);
}

#[test]
fn find_by_tag_and_links_to() {
    let mut db = Database::new();
    db.save(&note("A", "", &["B"], &["alpha", "beta"])).unwrap();
    db.save(&note("B", "", &[], &["beta-extended"])).unwrap();
    let beta = db.find_by_tag(&"beta".to_string(), true);
    assert_eq!(beta.len(), 1);
    assert_eq!(beta[0].title, "A".to_string());
    // the wrap guarantees `beta` never matches `beta-extended` exactly
    let both = db.find_by_tag(&"beta*".to_string(), false);
    assert_eq!(both.len(), 2);
    let to_b = db.find_by_links_to(&"B".to_string(), true);
    assert_eq!(to_b.len(), 1);
    assert_eq!(to_b[0].title, "A".to_string());
}

#[test]
fn listings_sorted_and_deduplicated() {
    let mut db = Database::new();
    db.save(&note("A", "zeta", &[], &["b", "a"])).unwrap();
    db.save(&note("B", "", &[], &["a"])).unwrap();
    db.save(&note("C", "eta", &[], &[])).unwrap();
    assert_eq!(db.list_tags(), vec!["a".to_string(), "b".to_string()]);
    // the root project's empty name is not listed
    assert_eq!(db.list_projects(), vec!["eta".to_string(), "zeta".to_string()]);
}

#[test]
fn ghosts_are_linked_but_missing() {
    let mut db = Database::new();
    db.save(&note("A", "", &["B", "Missing"], &[])).unwrap();
    db.save(&note("B", "", &["Missing"], &[])).unwrap();
    assert_eq!(db.zettel_not_yet_created(), vec!["Missing".to_string()]);
}

#[test]
fn change_title_patches_row_in_place() {
    let mut db = Database::new();
    db.save(&note("Old", "p", &["X"], &["t"])).unwrap();
    db.save(&note("Other", "q", &["Old"], &[])).unwrap();
    db.change_title(&"Old".to_string(), &"New".to_string());
    let hits = db.find_by_title(&"New".to_string(), true);
    assert_eq!(hits.len(), 1);
    assert_eq!(hits[0].project, "p".to_string());
    assert_eq!(hits[0].links, vec!["X".to_string()]);
    assert_eq!(hits[0].tags, vec!["t".to_string()]);
    assert_eq!(db.find_by_title(&"Old".to_string(), true).len(), 0);
    // the other row is untouched, backlink bookkeeping included
    let other = db.find_by_title(&"Other".to_string(), true);
    assert_eq!(other[0].links, vec!["Old".to_string()]);
}

#[test]
fn change_project_moves_only_the_named_note() {
    let mut db = Database::new();
    db.save(&note("A", "p", &[], &[])).unwrap();
    db.save(&note("B", "p", &[], &[])).unwrap();
    db.change_project(&"A".to_string(), &"q".to_string());
    assert_eq!(db.find_by_title(&"A".to_string(), true)[0].project, "q".to_string());
    assert_eq!(db.find_by_title(&"B".to_string(), true)[0].project, "p".to_string());
}

#[test]
fn update_replaces_metadata() {
    let mut db = Database::new();
    db.save(&note("A", "", &["Old link"], &["old"])).unwrap();
    let fresh = note("A", "", &["New link"], &["new"]);
    db.update(&fresh);
    let hits = db.find_by_title(&"A".to_string(), true);
    assert_eq!(hits.len(), 1);
    assert_eq!(hits[0].links, vec!["New link".to_string()]);
    assert_eq!(hits[0].tags, vec!["new".to_string()]);
}
