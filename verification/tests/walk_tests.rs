use rustguard::walk::DirEntry;
use rustguard::walk::DirectoryWalk;
use rustguard::walk::EntryKind;

fn entry(path: &str, kind: EntryKind) -> DirEntry {
    DirEntry { path: path.to_string(), kind }
}

#[test]
fn walk_visits_each_node_once() {
    let mut walk = DirectoryWalk::new("root");
    assert!(!walk.is_done());
    assert_eq!(walk.next(), Some("root".to_string()));
    let files = walk.offer(&vec![
        entry("root/a.yml", EntryKind::File),
        entry("root/sub", EntryKind::Directory),
        entry("root/link", EntryKind::Symlink),
        entry("root/a.yml", EntryKind::File),
        entry("root/sub", EntryKind::Directory),
        entry("root/dev", EntryKind::Other),
        entry("root/other", EntryKind::Directory),
    ]);
    assert_eq!(files, vec!["root/a.yml".to_string()]);
    assert_eq!(walk.next(), Some("root/other".to_string()));
    let files = walk.offer(&vec![
        entry("root", EntryKind::Directory),
        entry("root/a.yml", EntryKind::File),
        entry("root/other/b.json", EntryKind::File),
        entry("root/sub", EntryKind::Directory),
    ]);
    assert_eq!(files, vec!["root/other/b.json".to_string()]);
    assert_eq!(walk.next(), Some("root/sub".to_string()));
    assert!(walk.offer(&vec![entry("root/other", EntryKind::Directory)]).is_empty());
    assert!(walk.is_done());
    assert_eq!(walk.next(), None);
    assert_eq!(walk.next(), None);
}

#[test]
fn walk_never_follows_symlinks() {
    let mut walk = DirectoryWalk::new("r");
    assert_eq!(walk.next(), Some("r".to_string()));
    let files = walk.offer(&vec![
        entry("r/loop", EntryKind::Symlink),
        entry("r/file-link", EntryKind::Symlink),
    ]);
    assert!(files.is_empty());
    assert!(walk.is_done());
    assert_eq!(walk.next(), None);
}

#[test]
fn walk_of_an_empty_directory() {
    let mut walk = DirectoryWalk::new("");
    assert_eq!(walk.next(), Some(String::new()));
    assert!(walk.offer(&vec![]).is_empty());
    assert!(walk.is_done());
}
