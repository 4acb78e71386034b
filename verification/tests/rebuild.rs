use settle::builder::{zettel_from_file, NoteFile};
use settle::config::ConfigOptions;
use settle::database::Database;

fn cfg() -> ConfigOptions {
    ConfigOptions::new("/zk".to_string(), "".to_string())
}

#[test]
fn note_from_root_file() {
    let z = zettel_from_file(
        &cfg(),
        &"/zk/Alpha.md".to_string(),
        &"body [[Beta]] #tag ".to_string(),
    );
    assert_eq!(z.title, "Alpha".to_string());
    assert_eq!(z.project, "".to_string());
    assert_eq!(z.links, vec!["Beta".to_string()]);
    assert_eq!(z.tags, vec!["tag".to_string()]);
}

#[test]
fn note_from_project_file() {
    let z = zettel_from_file(&cfg(), &"/zk/work/Plan.md".to_string(), &"".to_string());
    assert_eq!(z.title, "Plan".to_string());
    assert_eq!(z.project, "work".to_string());
}

#[test]
fn title_whitespace_normalized() {
    let z = zettel_from_file(&cfg(), &"/zk/Big  Idea.md".to_string(), &"".to_string());
    assert_eq!(z.title, "Big Idea".to_string());
}

#[test]
fn rebuild_indexes_visible_files() {
    let files = vec![
        NoteFile::new("/zk/A.md".to_string(), "x [[B]] y".to_string()),
        NoteFile::new("/zk/p/B.md".to_string(), " #t ".to_string()),
        NoteFile::new("/zk/.settle.sql".to_string(), "not a note".to_string()),
    ];
    let (db, skipped) = Database::generate(&cfg(), &files);
    assert!(skipped.is_empty());
    let all = db.all();
    assert_eq!(all.len(), 2);
    assert_eq!(all[0].title, "A".to_string());
    assert_eq!(all[0].links, vec!["B".to_string()]);
    assert_eq!(all[1].title, "B".to_string());
    assert_eq!(all[1].project, "p".to_string());
}

#[test]
fn rebuild_skips_duplicate_titles_with_warning() {
    let files = vec![
        NoteFile::new("/zk/A.md".to_string(), "first".to_string()),
        NoteFile::new("/zk/p/A.md".to_string(), "second".to_string()),
    ];
    let (db, skipped) = Database::generate(&cfg(), &files);
    assert_eq!(db.all().len(), 1);
    // the first note of a title wins; the loser is reported
    assert_eq!(db.all()[0].project, "".to_string());
    assert_eq!(skipped, vec!["A".to_string()]);
}

#[test]
fn rebuild_twice_yields_equal_contents() {
    let files = vec![
        NoteFile::new("/zk/A.md".to_string(), "x [[B]]".to_string()),
        NoteFile::new("/zk/B.md".to_string(), " #t ".to_string()),
    ];
    let (db1, skipped1) = Database::generate(&cfg(), &files);
    let (db2, skipped2) = Database::generate(&cfg(), &files);
    assert_eq!(db1.all(), db2.all());
    assert_eq!(skipped1, skipped2);
}
