use settle::builder::{zettel_from_file, NoteFile};
use settle::config::ConfigOptions;
use settle::database::Database;
use settle::errors::EngineError;
use settle::ops::{create, match_titles, CreateOutcome};
use settle::rename::{check_rename, rewrite_links};
use settle::zettel::Zettel;

fn cfg() -> ConfigOptions {
    ConfigOptions::new("/zk".to_string(), "".to_string())
}

fn note(title: &str, project: &str, links: &[&str]) -> Zettel {
    let mut z = Zettel::new(title, project);
    for l in links {
        z.links.push(l.to_string());
    }
    z
}

#[test]
fn rewrite_replaces_simple_link() {
    let out = rewrite_links("see [[A]].", &"A".to_string(), &"A2".to_string());
    assert_eq!(out, "see [[A2]].".to_string());
}

#[test]
fn rewrite_matches_split_links() {
    // the link's internal space may have been written as a run of
    // whitespace, a line break and a tab included
    let out = rewrite_links(
        "see [[Alpha\n\tBeta]] here",
        &"Alpha Beta".to_string(),
        &"Alpha Gamma".to_string(),
    );
    assert_eq!(out, "see [[Alpha Gamma]] here".to_string());
}

#[test]
fn rewrite_leaves_other_links_alone() {
    let out = rewrite_links("[[A]] [[B]] [[A]]", &"A".to_string(), &"C".to_string());
    assert_eq!(out, "[[C]] [[B]] [[C]]".to_string());
}

#[test]
fn rename_repairs_backlinks_end_to_end() {
    // note C links to A, with the link split across two lines and a
    // tab between the words; rename A and the reference follows
    let c = cfg();
    let mut db = Database::new();
    db.save(&note("Alpha Beta", "", &[])).unwrap();
    let c_text = "ref [[Alpha\n\tBeta]] tail";
    let c_note = zettel_from_file(&c, &"/zk/C.md".to_string(), &c_text.to_string());
    db.save(&c_note).unwrap();
    assert_eq!(c_note.links, vec!["Alpha Beta".to_string()]);

    let old_title = "Alpha Beta".to_string();
    let new_title = "Alpha Gamma".to_string();
    let target = check_rename(&db, &old_title, &new_title).unwrap();
    assert_eq!(target.title, old_title);

    db.change_title(&old_title, &new_title);
    let backlinks = db.find_by_links_to(&old_title, true);
    assert_eq!(backlinks.len(), 1);
    assert_eq!(backlinks[0].title, "C".to_string());

    let rewritten = rewrite_links(c_text, &old_title, &new_title);
    assert_eq!(rewritten, "ref [[Alpha Gamma]] tail".to_string());
    let refreshed = zettel_from_file(&c, &"/zk/C.md".to_string(), &rewritten);
    db.update(&refreshed);

    let c_row = db.find_by_title(&"C".to_string(), true);
    assert_eq!(c_row[0].links, vec![new_title.clone()]);
    assert_eq!(db.find_by_links_to(&old_title, true).len(), 0);
    let renamed = db.find_by_title(&new_title, true);
    assert_eq!(renamed.len(), 1);
}

#[test]
fn rename_refusals() {
    let mut db = Database::new();
    db.save(&note("A", "", &[])).unwrap();
    db.save(&note("B", "", &[])).unwrap();
    let same = check_rename(&db, &"A".to_string(), &"A".to_string());
    assert_eq!(same.unwrap_err(), EngineError::DuplicateTitle);
    let taken = check_rename(&db, &"A".to_string(), &"B".to_string());
    assert_eq!(taken.unwrap_err(), EngineError::DuplicateTitle);
    let absent = check_rename(&db, &"Z".to_string(), &"Y".to_string());
    assert_eq!(absent.unwrap_err(), EngineError::NotFound);
}

#[test]
fn create_decisions() {
    let mut db = Database::new();

    // invalid titles are rejected before any mutation
    let (bad, _) = create(&mut db, "", "p", false);
    assert_eq!(bad, CreateOutcome::InvalidTitle);
    let (dot, _) = create(&mut db, ".hidden", "p", false);
    assert_eq!(dot, CreateOutcome::InvalidTitle);
    assert_eq!(db.all().len(), 0);

    // a fresh note: row added, file to be written
    let (fresh, z) = create(&mut db, "Idea  One", "p", false);
    assert_eq!(fresh, CreateOutcome::CreatedNew);
    assert_eq!(z.title, "Idea One".to_string());
    assert_eq!(db.all().len(), 1);

    // file and row both present: refused
    let (dup, _) = create(&mut db, "Idea One", "p", true);
    assert_eq!(dup, CreateOutcome::AlreadyExists);

    // row without file: the entry is replaced
    let (replaced, _) = create(&mut db, "Idea One", "q", false);
    assert_eq!(replaced, CreateOutcome::ReplacedEntry);
    assert_eq!(db.all().len(), 1);
    assert_eq!(db.all()[0].project, "q".to_string());

    // file without row: an entry is added
    let (added, _) = create(&mut db, "On Disk", "p", true);
    assert_eq!(added, CreateOutcome::AddedEntry);
    assert_eq!(db.all().len(), 2);
}

#[test]
fn move_matches_titles_by_regex() {
    let mut db = Database::new();
    db.save(&note("Work Note", "", &[])).unwrap();
    db.save(&note("Home Note", "", &[])).unwrap();
    let all = db.all();
    let picked = match_titles(&all, &"^Work".to_string()).unwrap();
    assert_eq!(picked.len(), 1);
    assert_eq!(picked[0].title, "Work Note".to_string());
    // an unanchored pattern matches anywhere in the title
    let both = match_titles(&all, &"Note".to_string()).unwrap();
    assert_eq!(both.len(), 2);
    assert!(match_titles(&all, &"(".to_string()).is_none());
    for z in picked {
        db.change_project(&z.title, &"archive".to_string());
    }
    assert_eq!(db.find_by_title(&"Work Note".to_string(), true)[0].project, "archive".to_string());
}
