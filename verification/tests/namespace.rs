use cargo_tarball::error::Failure;
use cargo_tarball::namespace::insert;
use cargo_tarball::namespace::full_path;
use cargo_tarball::namespace::Collision;
use cargo_tarball::namespace::Namespace;
use cargo_tarball::namespace::Node;
use serde_json::Value;

fn keys(parts: &[&str]) -> Vec<String> {
    parts.iter().map(|s| s.to_string()).collect()
}

#[test]
fn new_namespace_is_empty() {
    let ns = Namespace::new();
    assert_eq!(ns.len(), 0);
    assert!(ns.get(&keys(&["a"])).is_none());
    assert!(ns.get(&keys(&[])).is_none());
}

#[test]
fn insert_under_root() {
    let mut ns = Namespace::new();
    assert!(insert(&mut ns, &keys(&[]), "c.json".to_string(), Value::from(7)).is_ok());
    assert_eq!(ns.get(&keys(&["c.json"])), Some(&Value::from(7)));
    assert_eq!(ns.len(), 1);
}

#[test]
fn insert_creates_intermediate_mappings() {
    let mut ns = Namespace::new();
    let r = ns.insert(&keys(&["a", "b"]), "c.yaml".to_string(), Value::from("doc"));
    assert!(r.is_ok());
    assert_eq!(ns.get(&keys(&["a", "b", "c.yaml"])), Some(&Value::from("doc")));
    assert!(ns.get(&keys(&["a"])).is_none());
    assert!(ns.get(&keys(&["a", "b"])).is_none());
    assert!(ns.get(&keys(&["a", "b", "c.yaml", "d"])).is_none());
    let top = ns.entries();
    assert_eq!(top.len(), 1);
    assert_eq!(top[0].key, "a");
    match &top[0].node {
        Node::Branch(sub) => {
            assert_eq!(sub.len(), 1);
            assert_eq!(sub.entries()[0].key, "b");
        }
        Node::Leaf(_) => panic!("a is a mapping"),
    }
}

#[test]
fn siblings_share_their_directory() {
    let mut ns = Namespace::new();
    assert!(insert(&mut ns, &keys(&["pkg"]), "a.json".to_string(), Value::from(1)).is_ok());
    assert!(insert(&mut ns, &keys(&["pkg"]), "b.json".to_string(), Value::from(2)).is_ok());
    assert!(insert(&mut ns, &keys(&["other"]), "a.json".to_string(), Value::from(3)).is_ok());
    assert_eq!(ns.len(), 2);
    assert_eq!(ns.get(&keys(&["pkg", "a.json"])), Some(&Value::from(1)));
    assert_eq!(ns.get(&keys(&["pkg", "b.json"])), Some(&Value::from(2)));
    assert_eq!(ns.get(&keys(&["other", "a.json"])), Some(&Value::from(3)));
}

#[test]
fn same_key_path_twice_is_refused() {
    let mut ns = Namespace::new();
    assert!(insert(&mut ns, &keys(&["pkg"]), "info.json".to_string(), Value::from("first")).is_ok());
    let r = insert(&mut ns, &keys(&["pkg"]), "info.json".to_string(), Value::from("second"));
    match r {
        Err(Failure::DuplicateKey { keys: full, collision }) => {
            assert_eq!(full, keys(&["pkg", "info.json"]));
            assert_eq!(collision, Collision::Occupied);
        }
        other => panic!("expected a duplicate key, got {:?}", other),
    }
    assert_eq!(ns.get(&keys(&["pkg", "info.json"])), Some(&Value::from("first")));
}

#[test]
fn document_on_the_way_shadows() {
    let mut ns = Namespace::new();
    assert!(insert(&mut ns, &keys(&[]), "pkg".to_string(), Value::from("leaf")).is_ok());
    let r = insert(&mut ns, &keys(&["pkg"]), "extra.json".to_string(), Value::from(1));
    match r {
        Err(Failure::DuplicateKey { keys: full, collision }) => {
            assert_eq!(full, keys(&["pkg", "extra.json"]));
            assert_eq!(collision, Collision::Shadowed);
        }
        other => panic!("expected a duplicate key, got {:?}", other),
    }
    assert_eq!(ns.len(), 1);
    assert_eq!(ns.get(&keys(&["pkg"])), Some(&Value::from("leaf")));
}

#[test]
fn mapping_in_the_place_of_a_document() {
    let mut ns = Namespace::new();
    assert!(insert(&mut ns, &keys(&["pkg"]), "extra.json".to_string(), Value::from(1)).is_ok());
    let r = insert(&mut ns, &keys(&[]), "pkg".to_string(), Value::from("leaf"));
    match r {
        Err(Failure::DuplicateKey { keys: full, collision }) => {
            assert_eq!(full, keys(&["pkg"]));
            assert_eq!(collision, Collision::Occupied);
        }
        other => panic!("expected a duplicate key, got {:?}", other),
    }
    assert_eq!(ns.get(&keys(&["pkg", "extra.json"])), Some(&Value::from(1)));
    assert!(ns.get(&keys(&["pkg"])).is_none());
}

#[test]
fn a_mapping_document_is_still_a_leaf() {
    let mut inner = serde_json::Map::new();
    inner.insert("x".to_string(), Value::from(1));
    let mut ns = Namespace::new();
    assert!(insert(&mut ns, &keys(&[]), "pkg".to_string(), Value::Object(inner.clone())).is_ok());
    let r = insert(&mut ns, &keys(&["pkg"]), "y".to_string(), Value::from(2));
    assert!(matches!(r, Err(Failure::DuplicateKey { collision: Collision::Shadowed, .. })));
    assert_eq!(ns.get(&keys(&["pkg"])), Some(&Value::Object(inner)));
}

#[test]
fn deep_shadow_is_found_at_the_first_document() {
    let mut ns = Namespace::new();
    assert!(insert(&mut ns, &keys(&["a"]), "b".to_string(), Value::Null).is_ok());
    let r = insert(&mut ns, &keys(&["a", "b", "c", "d"]), "e".to_string(), Value::Null);
    assert!(matches!(r, Err(Failure::DuplicateKey { collision: Collision::Shadowed, .. })));
    let r = insert(&mut ns, &keys(&[]), "a".to_string(), Value::Null);
    assert!(matches!(r, Err(Failure::DuplicateKey { collision: Collision::Occupied, .. })));
}

#[test]
fn file_name_with_extension_is_the_key() {
    let mut ns = Namespace::new();
    assert!(insert(&mut ns, &keys(&[]), "pkg.json".to_string(), Value::from(1)).is_ok());
    assert!(insert(&mut ns, &keys(&["pkg"]), "extra.json".to_string(), Value::from(2)).is_ok());
    assert_eq!(ns.get(&keys(&["pkg.json"])), Some(&Value::from(1)));
    assert_eq!(ns.get(&keys(&["pkg", "extra.json"])), Some(&Value::from(2)));
    assert!(ns.get(&keys(&["pkg"])).is_none());
}

#[test]
fn order_of_apart_inserts_does_not_matter() {
    let mut one = Namespace::new();
    assert!(insert(&mut one, &keys(&["a"]), "x".to_string(), Value::from(1)).is_ok());
    assert!(insert(&mut one, &keys(&["b"]), "y".to_string(), Value::from(2)).is_ok());
    let mut two = Namespace::new();
    assert!(insert(&mut two, &keys(&["b"]), "y".to_string(), Value::from(2)).is_ok());
    assert!(insert(&mut two, &keys(&["a"]), "x".to_string(), Value::from(1)).is_ok());
    for path in [keys(&["a", "x"]), keys(&["b", "y"]), keys(&["a"]), keys(&["b", "x"])] {
        assert_eq!(one.get(&path), two.get(&path));
    }
}

#[test]
fn full_path_appends_the_key() {
    assert_eq!(full_path(&keys(&["a", "b"]), "c".to_string()), keys(&["a", "b", "c"]));
    assert_eq!(full_path(&keys(&[]), "c".to_string()), keys(&["c"]));
}
