use difm::fs::{Entry, EntryType};
use difm::integrity::{
    changed_keys, check_differences, check_file_change, parse_remote_digests, remote_digest_command, select_changed,
    DigestMap,
};

fn map_of(pairs: &[(&str, &str)]) -> DigestMap {
    let mut m = DigestMap::new();
    for (k, v) in pairs {
        m.insert(k.to_string(), v.to_string());
    }
    m
}

fn sorted(mut v: Vec<String>) -> Vec<String> {
    v.sort();
    v
}

#[test]
fn changed_set_of_relative_maps() {
    let l = map_of(&[("a.txt", "h1"), ("b.txt", "h2")]);
    let r = map_of(&[("a.txt", "h1"), ("c.txt", "h3")]);
    assert_eq!(sorted(changed_keys(&l, &r)), vec!["b.txt".to_string(), "c.txt".to_string()]);
}

#[test]
fn changed_set_after_key_normalisation() {
    let l = map_of(&[("/home/u/p/a.txt", "h1"), ("/home/u/p/b.txt", "h2"), ("/home/u/p/d.txt", "x")]);
    let r = map_of(&[("/srv/p/a.txt", "h1"), ("/srv/p/c.txt", "h3"), ("/srv/p/d.txt", "y")]);
    let changed = check_differences(&l, &r, "/home/u/p", "/srv/p");
    assert_eq!(sorted(changed), vec!["b.txt".to_string(), "c.txt".to_string(), "d.txt".to_string()]);
}

#[test]
fn identical_maps_have_no_changes() {
    let l = map_of(&[("x", "1"), ("y", "2")]);
    let r = map_of(&[("y", "2"), ("x", "1")]);
    assert!(changed_keys(&l, &r).is_empty());
}

#[test]
fn digest_map_insert_replaces() {
    let mut m = DigestMap::new();
    m.insert("k".to_string(), "1".to_string());
    m.insert("k".to_string(), "2".to_string());
    assert_eq!(m.len(), 1);
    assert_eq!(m.find("k"), Some(0));
    assert_eq!(m.digests[0], "2");
    assert_eq!(m.find("other"), None);
}

#[test]
fn remote_listing_is_parsed_per_line() {
    let out = "abc123  /srv/p/a.txt\n  def456 /srv/p/b c.txt  \r\nnoseparator\n\nfff\t/srv/p/d.txt";
    let m = parse_remote_digests(out);
    assert_eq!(m.len(), 3);
    assert_eq!(m.digests[m.find("/srv/p/a.txt").unwrap()], "abc123");
    assert_eq!(m.digests[m.find("/srv/p/b c.txt").unwrap()], "def456");
    assert_eq!(m.digests[m.find("/srv/p/d.txt").unwrap()], "fff");
}

#[test]
fn empty_remote_listing_makes_every_file_changed() {
    let entries = vec![
        Entry::new(EntryType::Dir, "/l", "/r", ""),
        Entry::new(EntryType::File, "/l", "/r", "a.txt"),
        Entry::new(EntryType::File, "/l", "/r", "b.txt"),
    ];
    let contents = vec![Vec::new(), b"one".to_vec(), b"two".to_vec()];
    let picked = check_file_change(&entries, &contents, "", "/l", "/r");
    let names: Vec<&str> = picked.iter().map(|e| e.path_name.as_str()).collect();
    assert_eq!(names, vec!["", "a.txt", "b.txt"]);
}

#[test]
fn unchanged_files_are_not_sent() {
    let entries = vec![
        Entry::new(EntryType::Dir, "/l", "/r", ""),
        Entry::new(EntryType::Dir, "/l", "/r", "sub"),
        Entry::new(EntryType::File, "/l", "/r", "sub/a.txt"),
        Entry::new(EntryType::Dir, "/l", "/r", "other"),
        Entry::new(EntryType::File, "/l", "/r", "other/b.txt"),
    ];
    let contents = vec![Vec::new(), Vec::new(), b"hello".to_vec(), Vec::new(), b"x".to_vec()];
    let listing = "2cf24dba5fb0a30e26e83b2ac5b9e29e1b161e5c1fa7425e73043362938b9824  /r/sub/a.txt\n0000  /r/other/b.txt\n";
    let picked = check_file_change(&entries, &contents, listing, "/l", "/r");
    let names: Vec<&str> = picked.iter().map(|e| e.path_name.as_str()).collect();
    assert_eq!(names, vec!["", "other", "other/b.txt"]);
}

#[test]
fn select_changed_keeps_ancestor_directories() {
    let entries = vec![
        Entry::new(EntryType::Dir, "/l", "/r", ""),
        Entry::new(EntryType::Dir, "/l", "/r", "a"),
        Entry::new(EntryType::Dir, "/l", "/r", "a/b"),
        Entry::new(EntryType::File, "/l", "/r", "a/b/c.txt"),
        Entry::new(EntryType::Dir, "/l", "/r", "z"),
        Entry::new(EntryType::File, "/l", "/r", "z/y.txt"),
    ];
    let picked = select_changed(&entries, &vec!["a/b/c.txt".to_string()]);
    let names: Vec<&str> = picked.iter().map(|e| e.path_name.as_str()).collect();
    assert_eq!(names, vec!["", "a", "a/b", "a/b/c.txt"]);
}

#[test]
fn hash_command_quotes_each_file() {
    let entries = vec![
        Entry::new(EntryType::Dir, "/l", "/r", "d"),
        Entry::new(EntryType::File, "/l", "/r", "d/a.txt"),
        Entry::new(EntryType::File, "/l", "/r", "b.txt"),
    ];
    assert_eq!(remote_digest_command(&entries), "sha256sum '/r/d/a.txt' '/r/b.txt'");
}

#[test]
fn listing_lines_are_trimmed_of_unicode_white_space() {
    let m = parse_remote_digests("\u{3000}d p\u{3000}\nd2\u{2003} \u{a0}q\u{85}\nno\u{a0}separator");
    assert_eq!(m.len(), 2);
    assert_eq!(m.digests[m.find("p").unwrap()], "d");
    assert_eq!(m.digests[m.find("q").unwrap()], "d2\u{2003}");
}
