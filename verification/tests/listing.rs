use lc::listing::{filenames, Entry, EntryKind};

fn entry(path: &str, kind: EntryKind) -> Entry {
    Entry { path: path.to_string(), kind }
}

#[test]
fn only_regular_files_are_listed() {
    let entries = vec![
        entry("d/a.txt", EntryKind::File),
        entry("d/sub", EntryKind::Directory),
        entry("d/link", EntryKind::Symlink),
        entry("d/b.json", EntryKind::File),
        entry("d/pipe", EntryKind::Other),
    ];
    assert_eq!(filenames(&entries), vec!["d/a.txt".to_string(), "d/b.json".to_string()]);
}

#[test]
fn files_keep_the_order_of_the_entries() {
    let entries = vec![
        entry("d/z", EntryKind::File),
        entry("d/a", EntryKind::File),
        entry("d/m", EntryKind::File),
    ];
    assert_eq!(
        filenames(&entries),
        vec!["d/z".to_string(), "d/a".to_string(), "d/m".to_string()]
    );
}

#[test]
fn no_entries_give_no_files() {
    assert!(filenames(&Vec::new()).is_empty());
}

#[test]
fn a_directory_without_files_gives_none() {
    let entries = vec![entry("d/sub", EntryKind::Directory), entry("d/link", EntryKind::Symlink)];
    assert!(filenames(&entries).is_empty());
}
