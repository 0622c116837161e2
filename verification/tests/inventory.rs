use myrient_bulk::inventory::{reconcile, RomIndex};
use myrient_bulk::myrient::Rom;

fn rom(name: &str, file: &str, url: &str) -> Rom {
    Rom { name: name.to_string(), file: file.to_string(), url: url.to_string() }
}

fn keys(names: &[&str]) -> Vec<String> {
    names.iter().map(|n| n.to_string()).collect()
}

#[test]
fn new_index_is_empty() {
    let index = RomIndex::new();
    assert_eq!(index.len(), 0);
    assert!(!index.contains_key(&"a".to_string()));
    assert_eq!(index.get(&"a".to_string()), None);
}

#[test]
fn insert_files_under_the_name() {
    let mut index = RomIndex::new();
    index.insert(rom("a", "a.zip", "a.zip"));
    index.insert(rom("b", "b.zip", "b.zip"));
    assert_eq!(index.len(), 2);
    assert_eq!(index.get(&"a".to_string()), Some(&rom("a", "a.zip", "a.zip")));
    assert_eq!(index.get(&"b".to_string()), Some(&rom("b", "b.zip", "b.zip")));
    assert!(index.contains_key(&"b".to_string()));
    assert!(!index.contains_key(&"a.zip".to_string()));
    assert!(!index.contains_key(&"A".to_string()));
}

#[test]
fn insert_replaces_a_file_of_the_same_name() {
    let mut index = RomIndex::new();
    index.insert(rom("a", "a.zip", "1"));
    index.insert(rom("b", "b.zip", "2"));
    index.insert(rom("a", "a.7z", "3"));
    assert_eq!(index.len(), 2);
    assert_eq!(index.get(&"a".to_string()), Some(&rom("a", "a.7z", "3")));
    assert_eq!(index.get(&"b".to_string()), Some(&rom("b", "b.zip", "2")));
}

#[test]
fn reconcile_matches_and_misses() {
    let mut remote = RomIndex::new();
    remote.insert(rom("Game A", "Game A.zip", "Game%20A.zip"));
    remote.insert(rom("Game C", "Game C.zip", "Game%20C.zip"));
    let (matched, missing) = reconcile(&keys(&["Game A", "Game B"]), &remote);
    assert_eq!(matched, vec![rom("Game A", "Game A.zip", "Game%20A.zip")]);
    assert_eq!(missing, keys(&["Game B"]));
}

#[test]
fn reconcile_parts_the_wanted_keys() {
    let mut remote = RomIndex::new();
    for name in ["b", "d", "e", "x"] {
        remote.insert(rom(name, &format!("{}.zip", name), name));
    }
    let wanted = keys(&["e", "a", "d", "c", "b", "f"]);
    let (matched, missing) = reconcile(&wanted, &remote);
    assert_eq!(matched.len() + missing.len(), wanted.len());
    let names: Vec<String> = matched.iter().map(|r| r.name.clone()).collect();
    assert_eq!(names, keys(&["e", "d", "b"]));
    assert_eq!(missing, keys(&["a", "c", "f"]));
    for name in &names {
        assert!(!missing.contains(name));
    }
}

#[test]
fn reconcile_keeps_the_order_of_the_manifest() {
    let mut remote = RomIndex::new();
    remote.insert(rom("z", "z.zip", "z"));
    remote.insert(rom("a", "a.zip", "a"));
    let (matched, missing) = reconcile(&keys(&["a", "z"]), &remote);
    assert_eq!(matched, vec![rom("a", "a.zip", "a"), rom("z", "z.zip", "z")]);
    assert_eq!(missing, Vec::<String>::new());
}

#[test]
fn reconcile_with_nothing_wanted_or_nothing_offered() {
    let remote = RomIndex::new();
    let (matched, missing) = reconcile(&keys(&[]), &remote);
    assert_eq!(matched, vec![]);
    assert_eq!(missing, Vec::<String>::new());
    let (matched, missing) = reconcile(&keys(&["a", "b"]), &remote);
    assert_eq!(matched, vec![]);
    assert_eq!(missing, keys(&["a", "b"]));
}

#[test]
fn reconcile_compares_keys_exactly() {
    let mut remote = RomIndex::new();
    remote.insert(rom("Game A", "Game A.zip", "u"));
    let (matched, missing) = reconcile(&keys(&["game a", "Game A ", "Game A"]), &remote);
    assert_eq!(matched, vec![rom("Game A", "Game A.zip", "u")]);
    assert_eq!(missing, keys(&["game a", "Game A "]));
}
