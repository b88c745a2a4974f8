use fop::validate::{validate_file, FileKind, FileStat, ValidatedFile};
use fop::walk::{DirEntry, WalkState};

fn entry(path: &str, kind: FileKind) -> DirEntry {
    DirEntry { path: path.to_string(), kind }
}

#[test]
fn non_recursive_walk_skips_symlinks_and_directories() {
    let mut w = WalkState::walk_start(vec!["/d".to_string()], false);
    assert_eq!(w.next_dir(), Some("/d".to_string()));
    let entries = vec![
        entry("/d/f1", FileKind::Regular),
        entry("/d/f2", FileKind::Regular),
        entry("/d/f3", FileKind::Regular),
        entry("/d/f4", FileKind::Regular),
        entry("/d/link", FileKind::Symlink),
    ];
    w.record_entries(&entries);
    assert_eq!(w.next_dir(), None);
    let files = w.into_files();
    assert_eq!(files, vec!["/d/f1", "/d/f2", "/d/f3", "/d/f4"]);

    // The four candidates pair into six candidate pairs.
    let mut validated: Vec<ValidatedFile> = Vec::new();
    for f in &files {
        validated.push(validate_file(f, FileStat::Found(FileKind::Regular)).unwrap());
    }
    assert_eq!(fop::pairing::pairs(&validated).len(), 6);
}

#[test]
fn non_recursive_walk_ignores_subdirectories() {
    let mut w = WalkState::walk_start(vec!["/d".to_string()], false);
    assert_eq!(w.next_dir(), Some("/d".to_string()));
    w.record_entries(&vec![entry("/d/sub", FileKind::Directory), entry("/d/f", FileKind::Regular)]);
    assert_eq!(w.next_dir(), None);
    assert_eq!(w.files(), &vec!["/d/f".to_string()]);
}

#[test]
fn recursive_walk_descends_and_breaks_symlink_cycles() {
    // /a contains directory /b and a file; /b links back to /a. The
    // walk must list each directory once and terminate.
    let mut w = WalkState::walk_start(vec!["/a".to_string()], true);
    assert_eq!(w.next_dir(), Some("/a".to_string()));
    w.record_entries(&vec![entry("/b", FileKind::Directory), entry("/a/f1", FileKind::Regular)]);
    assert_eq!(w.next_dir(), Some("/b".to_string()));
    w.record_entries(&vec![entry("/a", FileKind::Directory), entry("/b/f2", FileKind::Regular)]);
    assert_eq!(w.next_dir(), None);
    assert_eq!(w.into_files(), vec!["/a/f1", "/b/f2"]);
}

#[test]
fn walk_unions_roots_and_drops_duplicate_paths() {
    let mut w = WalkState::walk_start(vec!["/r1".to_string(), "/r2".to_string()], false);
    assert_eq!(w.next_dir(), Some("/r1".to_string()));
    w.record_entries(&vec![entry("/shared/f", FileKind::Regular)]);
    assert_eq!(w.next_dir(), Some("/r2".to_string()));
    w.record_entries(&vec![entry("/shared/f", FileKind::Regular), entry("/r2/g", FileKind::Regular)]);
    assert_eq!(w.next_dir(), None);
    assert_eq!(w.into_files(), vec!["/shared/f", "/r2/g"]);
}

#[test]
fn walk_lists_a_repeated_root_once() {
    let mut w = WalkState::walk_start(vec!["/r".to_string(), "/r".to_string()], false);
    assert_eq!(w.next_dir(), Some("/r".to_string()));
    w.record_entries(&vec![entry("/r/f", FileKind::Regular)]);
    assert_eq!(w.next_dir(), None);
    assert_eq!(w.into_files(), vec!["/r/f"]);
}
