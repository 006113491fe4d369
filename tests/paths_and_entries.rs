use difm::fs::{Entry, EntryType, EnumerationError, FileTransferList, WalkedKind, WalkedPath};
use difm::path::{join_path, strip_base};
use difm::text::indent_str;

fn walked(path: &str, kind: WalkedKind) -> WalkedPath {
    WalkedPath { path: path.to_string(), kind }
}

#[test]
fn join_path_places_relative_under_base() {
    assert_eq!(join_path("/srv/app", "src/main.rs"), "/srv/app/src/main.rs");
    assert_eq!(join_path("/srv/app/", "src"), "/srv/app/src");
    assert_eq!(join_path("/srv/app", ""), "/srv/app");
    assert_eq!(join_path("", "a/b"), "a/b");
    assert_eq!(join_path("/srv/app", "/etc/x"), "/etc/x");
}

#[test]
fn strip_base_inverts_join() {
    assert_eq!(strip_base("/srv/app/src/main.rs", "/srv/app"), Some("src/main.rs".to_string()));
    assert_eq!(strip_base("/srv/app", "/srv/app"), Some(String::new()));
    assert_eq!(strip_base("/srv/application", "/srv/app"), None);
    assert_eq!(strip_base("/other/x", "/srv/app"), None);
}

#[test]
fn entry_paths_follow_the_roots() {
    let e = Entry::new(EntryType::File, "./code", "/srv/app", "src/lib.rs");
    assert_eq!(e.local_source, "./code/src/lib.rs");
    assert_eq!(e.remote_dest, "/srv/app/src/lib.rs");
    assert_eq!(e.path_name, "src/lib.rs");
    assert!(e.is_same("src/lib.rs"));
    assert!(e.is_same("/srv/app/src/lib.rs"));
    assert!(e.is_same("./code/src/lib.rs"));
    assert!(!e.is_same("src/other.rs"));
}

#[test]
fn nested_entries_keep_the_join_relation() {
    let list = FileTransferList::new("/home/u/proj", "/srv/deploy", "", "/home/u/difm.yaml");
    let walk = vec![
        walked("/home/u/proj", WalkedKind::Dir),
        walked("/home/u/proj/a", WalkedKind::Dir),
        walked("/home/u/proj/a/b", WalkedKind::Dir),
        walked("/home/u/proj/a/b/c.txt", WalkedKind::File),
    ];
    let entries = list.traverse_dir(&walk).unwrap();
    assert_eq!(entries.len(), 4);
    assert_eq!(entries[0].remote_dest, "/srv/deploy");
    assert_eq!(entries[3].path_name, "a/b/c.txt");
    assert_eq!(entries[3].remote_dest, "/srv/deploy/a/b/c.txt");
    assert_eq!(entries[3].local_source, "/home/u/proj/a/b/c.txt");
    assert_eq!(entries[2].kind, EntryType::Dir);
    assert_eq!(list.local_source_origin(), "/home/u/proj");
    assert_eq!(list.remote_dest_origin(), "/srv/deploy");
}

#[test]
fn ignored_directories_are_pruned_with_their_contents() {
    let list = FileTransferList::new("/p", "/r", "target/\n*.log\n!keep.log\n# comment", "/p/difm.yaml");
    let walk = vec![
        walked("/p", WalkedKind::Dir),
        walked("/p/target", WalkedKind::Dir),
        walked("/p/target/out.bin", WalkedKind::File),
        walked("/p/app.log", WalkedKind::File),
        walked("/p/keep.log", WalkedKind::File),
        walked("/p/main.rs", WalkedKind::File),
        walked("/p/link", WalkedKind::Symlink),
    ];
    let entries = list.traverse_dir(&walk).unwrap();
    let names: Vec<&str> = entries.iter().map(|e| e.path_name.as_str()).collect();
    assert_eq!(names, vec!["", "keep.log", "main.rs"]);
}

#[test]
fn unmatched_paths_are_included() {
    let list = FileTransferList::new("/p", "/r", "*.tmp", "/p/difm.yaml");
    let walk = vec![walked("/p/notes.txt", WalkedKind::File)];
    let entries = list.traverse_dir(&walk).unwrap();
    assert_eq!(entries.len(), 1);
    assert_eq!(entries[0].remote_dest, "/r/notes.txt");
}

#[test]
fn unknown_file_type_is_an_error() {
    let list = FileTransferList::new("/p", "/r", "", "/p/difm.yaml");
    let walk = vec![walked("/p", WalkedKind::Dir), walked("/p/fifo", WalkedKind::Other)];
    match list.traverse_dir(&walk) {
        Err(EnumerationError::UnknownFileType { path }) => assert_eq!(path, "/p/fifo"),
        _ => panic!("expected an unknown file type"),
    }
}

#[test]
fn unknown_file_type_below_an_ignored_directory_is_skipped() {
    let list = FileTransferList::new("/p", "/r", "cache/", "/p/difm.yaml");
    let walk = vec![walked("/p/cache", WalkedKind::Dir), walked("/p/cache/sock", WalkedKind::Other)];
    assert_eq!(list.traverse_dir(&walk).unwrap().len(), 0);
}

#[test]
fn path_outside_the_root_is_an_error() {
    let list = FileTransferList::new("/p", "/r", "", "/p/difm.yaml");
    let walk = vec![walked("/q/x", WalkedKind::File)];
    match list.traverse_dir(&walk) {
        Err(EnumerationError::OutsideRoot { path }) => assert_eq!(path, "/q/x"),
        _ => panic!("expected a path outside the root"),
    }
}

#[test]
fn invalid_ignore_pattern_is_an_error() {
    let list = FileTransferList::new("/p", "/r", "[z-a]", "/p/difm.yaml");
    let walk = vec![walked("/p/x", WalkedKind::File)];
    assert!(matches!(list.traverse_dir(&walk), Err(EnumerationError::InvalidIgnoreRule)));
}

#[test]
fn indent_str_prefixes_each_line() {
    assert_eq!(indent_str("a\nb", 2), "   |  a\n   |  b");
    assert_eq!(indent_str("one\r\ntwo\n", 0), " |  one\n |  two");
    assert_eq!(indent_str("", 4), "");
}

#[test]
fn entry_display_text() {
    let e = Entry::new(EntryType::File, "/l", "/r", "a.txt");
    assert_eq!(e.display_text(), "a.txt (/l/a.txt -> /r/a.txt)");
}

#[test]
fn unreadable_path_is_an_error() {
    let list = FileTransferList::new("/p", "/r", "", "/p/difm.yaml");
    let walk = vec![walked("/p", WalkedKind::Dir), walked("/p/locked", WalkedKind::Unreadable)];
    match list.traverse_dir(&walk) {
        Err(EnumerationError::Unreadable { path }) => assert_eq!(path, "/p/locked"),
        _ => panic!("expected an unreadable path"),
    }
}

#[test]
fn dot_slash_root_and_blank_or_padded_rule_lines() {
    let list = FileTransferList::new("./p", "/r", "\n# note\n*.tmp   \n\nbuild/\n", "./p/difm.yaml");
    let walk = vec![
        walked("./p", WalkedKind::Dir),
        walked("./p/a.tmp", WalkedKind::File),
        walked("./p/build", WalkedKind::Dir),
        walked("./p/build/x", WalkedKind::File),
        walked("./p/src.rs", WalkedKind::File),
    ];
    let entries = list.traverse_dir(&walk).unwrap();
    let names: Vec<&str> = entries.iter().map(|e| e.path_name.as_str()).collect();
    assert_eq!(names, vec!["", "src.rs"]);
    assert_eq!(entries[1].local_source, "./p/src.rs");
}
