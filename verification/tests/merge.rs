use cargo_tarball::data::Capabilities;
use cargo_tarball::error::Failure;
use cargo_tarball::error::ParseFailure;
use cargo_tarball::merge::merge;
use cargo_tarball::merge::merge_file;
use cargo_tarball::merge::DataFile;
use cargo_tarball::namespace::Collision;
use cargo_tarball::namespace::Namespace;
use serde_json::Value;

fn keys(parts: &[&str]) -> Vec<String> {
    parts.iter().map(|s| s.to_string()).collect()
}

fn file(parts: &[&str], text: &str) -> DataFile {
    DataFile { components: parts.iter().map(|s| Some(s.to_string())).collect(), content: text.as_bytes().to_vec() }
}

fn object(key: &str, value: i64) -> Value {
    let mut m = serde_json::Map::new();
    m.insert(key.to_string(), Value::from(value));
    Value::Object(m)
}

#[test]
fn merge_of_nothing_is_empty() {
    let merged = merge(&[], &Capabilities::all()).unwrap();
    assert_eq!(merged.namespace.len(), 0);
    assert!(merged.skipped.is_empty());
}

#[test]
fn files_go_under_their_directories() {
    let files = vec![
        file(&["c.json"], "{\"a\": 1}"),
        file(&["a", "b", "c.yaml"], "a: 2"),
        file(&["a", "d.toml"], "a = 3"),
    ];
    let merged = merge(&files, &Capabilities::all()).unwrap();
    let ns = &merged.namespace;
    assert_eq!(ns.get(&keys(&["c.json"])), Some(&object("a", 1)));
    assert_eq!(ns.get(&keys(&["a", "b", "c.yaml"])), Some(&object("a", 2)));
    assert_eq!(ns.get(&keys(&["a", "d.toml"])), Some(&object("a", 3)));
    assert!(ns.get(&keys(&["a", "b", "c"])).is_none());
    assert!(merged.skipped.is_empty());
}

#[test]
fn same_file_in_two_roots_collides() {
    let root_a = vec![file(&["pkg", "info.json"], "{\"a\": 1}")];
    let root_b = vec![file(&["pkg", "info.json"], "{\"a\": 2}")];
    let alone = merge(&root_a, &Capabilities::all()).unwrap();
    assert_eq!(alone.namespace.get(&keys(&["pkg", "info.json"])), Some(&object("a", 1)));
    let mut both = root_a;
    both.extend(root_b);
    match merge(&both, &Capabilities::all()) {
        Err(Failure::DuplicateKey { keys: full, collision }) => {
            assert_eq!(full.join("/"), "pkg/info.json");
            assert_eq!(collision, Collision::Occupied);
        }
        other => panic!("expected a duplicate key, got {:?}", other),
    }
}

#[test]
fn document_and_directory_of_one_name_collide_in_either_order() {
    let leaf = || file(&["pkg.json"], "1");
    let below = || file(&["pkg.json", "extra.json"], "2");
    match merge(&[leaf(), below()], &Capabilities::all()) {
        Err(Failure::DuplicateKey { keys: full, collision }) => {
            assert_eq!(full, keys(&["pkg.json", "extra.json"]));
            assert_eq!(collision, Collision::Shadowed);
        }
        other => panic!("expected a duplicate key, got {:?}", other),
    }
    match merge(&[below(), leaf()], &Capabilities::all()) {
        Err(Failure::DuplicateKey { keys: full, collision }) => {
            assert_eq!(full, keys(&["pkg.json"]));
            assert_eq!(collision, Collision::Occupied);
        }
        other => panic!("expected a duplicate key, got {:?}", other),
    }
}

#[test]
fn file_and_directory_with_the_same_stem_do_not_collide() {
    let files = vec![file(&["pkg.json"], "1"), file(&["pkg", "extra.json"], "2")];
    let merged = merge(&files, &Capabilities::all()).unwrap();
    assert_eq!(merged.namespace.get(&keys(&["pkg.json"])), Some(&Value::from(1)));
    assert_eq!(merged.namespace.get(&keys(&["pkg", "extra.json"])), Some(&Value::from(2)));
    let files = vec![file(&["pkg", "extra.json"], "2"), file(&["pkg.json"], "1")];
    let merged = merge(&files, &Capabilities::all()).unwrap();
    assert_eq!(merged.namespace.get(&keys(&["pkg.json"])), Some(&Value::from(1)));
    assert_eq!(merged.namespace.get(&keys(&["pkg", "extra.json"])), Some(&Value::from(2)));
}

#[test]
fn disjoint_roots_merge_to_their_union_in_either_order() {
    let root_a = || vec![file(&["a", "one.json"], "1"), file(&["shared", "a.yaml"], "x: 1")];
    let root_b = || vec![file(&["b", "two.json"], "2"), file(&["shared", "b.toml"], "x = 2")];
    let mut ab = root_a();
    ab.extend(root_b());
    let mut ba = root_b();
    ba.extend(root_a());
    let ab = merge(&ab, &Capabilities::all()).unwrap().namespace;
    let ba = merge(&ba, &Capabilities::all()).unwrap().namespace;
    let expected = [
        (keys(&["a", "one.json"]), Value::from(1)),
        (keys(&["shared", "a.yaml"]), object("x", 1)),
        (keys(&["b", "two.json"]), Value::from(2)),
        (keys(&["shared", "b.toml"]), object("x", 2)),
    ];
    for (path, doc) in expected.iter() {
        assert_eq!(ab.get(path), Some(doc));
        assert_eq!(ba.get(path), Some(doc));
    }
    assert_eq!(ab.len(), 3);
    assert_eq!(ba.len(), 3);
    assert!(ab.get(&keys(&["shared"])).is_none());
}

#[test]
fn merging_twice_gives_the_same() {
    let files = || vec![file(&["a", "one.json"], "[1, 2]"), file(&["two.yaml"], "k: v")];
    let one = merge(&files(), &Capabilities::all()).unwrap().namespace;
    let two = merge(&files(), &Capabilities::all()).unwrap().namespace;
    for path in [keys(&["a", "one.json"]), keys(&["two.yaml"])] {
        assert!(one.get(&path).is_some());
        assert_eq!(one.get(&path), two.get(&path));
    }
    assert_eq!(one.entries()[0].key, two.entries()[0].key);
    assert_eq!(one.entries()[1].key, two.entries()[1].key);
}

#[test]
fn path_that_is_not_text_is_passed_over() {
    let odd = DataFile { components: vec![Some("a".to_string()), None, Some("x.json".to_string())], content: b"1".to_vec() };
    let odd_name = DataFile { components: vec![Some("a".to_string()), None], content: b"not parsed {".to_vec() };
    let nameless = DataFile { components: vec![], content: b"1".to_vec() };
    let files = vec![file(&["one.json"], "1"), odd, odd_name, file(&["two.json"], "2"), nameless];
    let merged = merge(&files, &Capabilities::all()).unwrap();
    assert_eq!(merged.skipped, vec![1, 2, 4]);
    assert_eq!(merged.namespace.len(), 2);
    assert_eq!(merged.namespace.get(&keys(&["two.json"])), Some(&Value::from(2)));
}

#[test]
fn malformed_file_under_a_directory_that_is_not_text_ends_the_merge() {
    let bad = DataFile { components: vec![Some("a".to_string()), None, Some("x.json".to_string())], content: b"{".to_vec() };
    match merge(&[bad], &Capabilities::all()) {
        Err(Failure::Parse { path, cause }) => {
            assert_eq!(path, "a/?/x.json");
            assert!(matches!(cause, ParseFailure::Json(_)));
        }
        other => panic!("expected a parse failure, got {:?}", other),
    }
}

#[test]
fn unsupported_file_under_a_directory_that_is_not_text_ends_the_merge() {
    let odd = DataFile { components: vec![None, Some("notes.txt".to_string())], content: b"1".to_vec() };
    match merge(&[odd], &Capabilities::all()) {
        Err(Failure::UnsupportedFormat { name }) => assert_eq!(name, "?/notes.txt"),
        other => panic!("expected unsupported, got {:?}", other),
    }
}

#[test]
fn data_that_is_not_utf8_ends_the_merge() {
    let bad = DataFile { components: vec![Some("x.yaml".to_string())], content: vec![0x61, 0x3a, 0x20, 0xff] };
    assert!(matches!(merge(&[bad], &Capabilities::all()), Err(Failure::Parse { .. })));
}

#[test]
fn malformed_file_ends_the_merge() {
    let files = vec![file(&["ok.json"], "1"), file(&["dir", "bad.json"], "{"), file(&["later.json"], "2")];
    match merge(&files, &Capabilities::all()) {
        Err(Failure::Parse { path, cause }) => {
            assert_eq!(path, "dir/bad.json");
            assert!(matches!(cause, ParseFailure::Json(_)));
        }
        other => panic!("expected a parse failure, got {:?}", other),
    }
}

#[test]
fn unsupported_file_ends_the_merge() {
    let files = vec![file(&["dir", "notes.txt"], "1")];
    match merge(&files, &Capabilities::all()) {
        Err(Failure::UnsupportedFormat { name }) => assert_eq!(name, "dir/notes.txt"),
        other => panic!("expected unsupported, got {:?}", other),
    }
    let mut caps = Capabilities::all();
    caps.toml = false;
    let files = vec![file(&["a.json"], "1"), file(&["b.toml"], "a = 1")];
    assert!(matches!(merge(&files, &caps), Err(Failure::UnsupportedFormat { .. })));
}

#[test]
fn malformed_duplicate_is_reported_as_malformed() {
    let files = vec![file(&["a.json"], "1"), file(&["a.json"], "{")];
    assert!(matches!(merge(&files, &Capabilities::all()), Err(Failure::Parse { .. })));
}

#[test]
fn first_failure_wins() {
    let files = vec![file(&["a.json"], "1"), file(&["a.json"], "2"), file(&["b.json"], "{")];
    assert!(matches!(merge(&files, &Capabilities::all()), Err(Failure::DuplicateKey { .. })));
}

#[test]
fn merge_file_says_what_it_did() {
    let caps = Capabilities::all();
    let mut ns = Namespace::new();
    assert!(matches!(merge_file(&mut ns, &file(&["d", "a.json"], "1"), &caps), Ok(true)));
    let odd = DataFile { components: vec![None], content: b"1".to_vec() };
    assert!(matches!(merge_file(&mut ns, &odd, &caps), Ok(false)));
    assert!(matches!(merge_file(&mut ns, &file(&["d", "a.json"], "2"), &caps), Err(Failure::DuplicateKey { .. })));
    assert!(matches!(merge_file(&mut ns, &file(&["d"], "2"), &caps), Err(Failure::UnsupportedFormat { .. })));
    assert_eq!(ns.get(&keys(&["d", "a.json"])), Some(&Value::from(1)));
    assert_eq!(ns.len(), 1);
}
