use cargo_tarball::data::data_patterns;
use cargo_tarball::data::detect;
use cargo_tarball::data::format_for;
use cargo_tarball::data::load_data;
use cargo_tarball::data::load_json;
use cargo_tarball::data::load_stage;
use cargo_tarball::data::load_toml;
use cargo_tarball::data::load_yaml;
use cargo_tarball::data::settle;
use cargo_tarball::data::supported;
use cargo_tarball::data::Capabilities;
use cargo_tarball::data::DataFormat;
use cargo_tarball::error::Failure;
use cargo_tarball::error::ParseFailure;
use cargo_tarball::format::Format;
use cargo_tarball::path::extension;
use cargo_tarball::path::join;
use cargo_tarball::path::same_text;
use cargo_tarball::path::show;
use cargo_tarball::path::to_texts;
use serde_json::Value;

fn sample() -> Value {
    let mut owner = serde_json::Map::new();
    owner.insert("name".to_string(), Value::from("Lisa"));
    let mut doc = serde_json::Map::new();
    doc.insert("title".to_string(), Value::from("x"));
    doc.insert("count".to_string(), Value::from(3));
    doc.insert("owner".to_string(), Value::Object(owner));
    Value::Object(doc)
}

#[test]
fn extension_is_what_follows_the_last_dot() {
    assert_eq!(extension("a.yaml"), Some("yaml".to_string()));
    assert_eq!(extension("a.tar.gz"), Some("gz".to_string()));
    assert_eq!(extension("noext"), None);
    assert_eq!(extension(".bashrc"), None);
    assert_eq!(extension(".hidden.toml"), Some("toml".to_string()));
    assert_eq!(extension("trailing."), Some("".to_string()));
    assert_eq!(extension(".."), None);
    assert_eq!(extension("."), None);
    assert_eq!(extension(""), None);
    assert_eq!(extension("é.jsön"), Some("jsön".to_string()));
}

#[test]
fn extension_agrees_with_std() {
    for name in ["a.yaml", "a.tar.gz", "noext", ".bashrc", "trailing.", "..", "x..y", "a.b.", "..a"] {
        let std = std::path::Path::new(name).extension().map(|e| e.to_str().unwrap().to_string());
        assert_eq!(extension(name), std, "{}", name);
    }
}

#[test]
fn recognized_extensions() {
    assert_eq!(format_for("yaml"), Some(DataFormat::Yaml));
    assert_eq!(format_for("yml"), Some(DataFormat::Yaml));
    assert_eq!(format_for("toml"), Some(DataFormat::Toml));
    assert_eq!(format_for("json"), Some(DataFormat::Json));
    assert_eq!(format_for("YAML"), None);
    assert_eq!(format_for("txt"), None);
    assert_eq!(format_for(""), None);
    assert_eq!(detect("stage.yml"), Some(DataFormat::Yaml));
    assert_eq!(detect("stage.json.bak"), None);
    assert_eq!(detect("json"), None);
    assert_eq!(detect(".json"), None);
}

#[test]
fn patterns_follow_the_capabilities() {
    assert_eq!(data_patterns(&Capabilities::all()), vec!["*.yaml", "*.yml", "*.json", "*.toml"]);
    let mut caps = Capabilities::all();
    caps.yaml = false;
    assert_eq!(data_patterns(&caps), vec!["*.json", "*.toml"]);
    caps.json = false;
    caps.toml = false;
    assert!(data_patterns(&caps).is_empty());
}

#[test]
fn capabilities_answer_for_each_format() {
    let mut caps = Capabilities::all();
    assert!(caps.can_read(DataFormat::Yaml) && caps.can_read(DataFormat::Json) && caps.can_read(DataFormat::Toml));
    assert!(caps.can_write(Format::Tar) && caps.can_write(Format::Tgz) && caps.can_write(Format::Zip));
    caps.toml = false;
    caps.tgz = false;
    assert!(!caps.can_read(DataFormat::Toml));
    assert!(caps.can_read(DataFormat::Json));
    assert!(!caps.can_write(Format::Tgz));
    assert!(caps.can_write(Format::Tar));
}

#[test]
fn json_text_is_parsed() {
    let text = "{\"title\": \"x\", \"count\": 3, \"owner\": {\"name\": \"Lisa\"}}";
    let doc = load_json("a.json", text.as_bytes(), &Capabilities::all()).unwrap();
    assert_eq!(doc, sample());
    assert_ne!(doc, Value::from(text));
}

#[test]
fn yaml_text_is_parsed() {
    let text = "title: x\ncount: 3\nowner:\n  name: Lisa\n";
    let doc = load_yaml("a.yaml", text.as_bytes(), &Capabilities::all()).unwrap();
    assert_eq!(doc, sample());
    assert_ne!(doc, Value::from(text));
}

#[test]
fn toml_text_is_parsed() {
    let text = "title = \"x\"\ncount = 3\n\n[owner]\nname = \"Lisa\"\n";
    let doc = load_toml("a.toml", text.as_bytes(), &Capabilities::all()).unwrap();
    assert_eq!(doc, sample());
    assert_ne!(doc, Value::from(text));
}

#[test]
fn malformed_text_is_a_parse_failure_with_the_path() {
    let caps = Capabilities::all();
    match load_json("dir/a.json", b"{\"title\": ", &caps) {
        Err(Failure::Parse { path, cause }) => {
            assert_eq!(path, "dir/a.json");
            assert_eq!(cause.format(), DataFormat::Json);
            assert!(matches!(cause, ParseFailure::Json(_)));
        }
        other => panic!("expected a parse failure, got {:?}", other),
    }
    match load_yaml("a.yaml", b"a: [1, 2", &caps) {
        Err(Failure::Parse { path, cause }) => {
            assert_eq!(path, "a.yaml");
            assert!(matches!(cause, ParseFailure::Yaml(_)));
        }
        other => panic!("expected a parse failure, got {:?}", other),
    }
    match load_toml("a.toml", b"title = ", &caps) {
        Err(Failure::Parse { path, cause }) => {
            assert_eq!(path, "a.toml");
            assert!(matches!(cause, ParseFailure::Toml(_)));
        }
        other => panic!("expected a parse failure, got {:?}", other),
    }
}

#[test]
fn switched_off_format_is_unsupported() {
    let mut caps = Capabilities::all();
    caps.yaml = false;
    match load_yaml("a.yaml", b"a: 1", &caps) {
        Err(Failure::UnsupportedFormat { name }) => assert_eq!(name, "a.yaml"),
        other => panic!("expected unsupported, got {:?}", other),
    }
    assert!(matches!(load_data("a.yml", b"a: 1", &caps), Err(Failure::UnsupportedFormat { .. })));
    assert!(load_data("a.json", b"{\"a\": 1}", &caps).is_ok());
    caps.json = false;
    assert!(matches!(load_json("a.json", b"1", &caps), Err(Failure::UnsupportedFormat { .. })));
    caps.toml = false;
    assert!(matches!(load_toml("a.toml", b"a = 1", &caps), Err(Failure::UnsupportedFormat { .. })));
}

#[test]
fn the_extension_selects_the_parser() {
    let caps = Capabilities::all();
    let mut one = serde_json::Map::new();
    one.insert("a".to_string(), Value::from(1));
    let one = Value::Object(one);
    assert_eq!(load_data("x.json", b"{\"a\": 1}", &caps).unwrap(), one);
    assert_eq!(load_data("x.yaml", b"a: 1", &caps).unwrap(), one);
    assert_eq!(load_data("x.yml", b"a: 1", &caps).unwrap(), one);
    assert_eq!(load_data("x.toml", b"a = 1", &caps).unwrap(), one);
    assert!(matches!(load_data("x.toml", b"{\"a\": 1}", &caps), Err(Failure::Parse { .. })));
    assert!(matches!(load_data("x.json", b"a = 1", &caps), Err(Failure::Parse { .. })));
}

#[test]
fn unknown_extension_is_unsupported() {
    let caps = Capabilities::all();
    for name in ["stage.txt", "stage", "stage.YAML", ".yaml", "stage.json.bak"] {
        match load_stage(name, b"a: 1", &caps) {
            Err(Failure::UnsupportedFormat { name: n }) => assert_eq!(n, name),
            other => panic!("expected unsupported for {}, got {:?}", name, other),
        }
    }
}

#[test]
fn staging_specification_is_loaded_by_extension() {
    let caps = Capabilities::all();
    let doc = load_stage("stage.yml", b"bin:\n  - app\n", &caps).unwrap();
    let mut expected = serde_json::Map::new();
    expected.insert("bin".to_string(), Value::Array(vec![Value::from("app")]));
    assert_eq!(doc, Value::Object(expected));
    assert!(matches!(load_stage("stage.yml", b"bin: [", &caps), Err(Failure::Parse { .. })));
}

#[test]
fn settle_keeps_the_document_and_names_the_path() {
    assert_eq!(settle("p", Ok(Value::from(5))).unwrap(), Value::from(5));
    let cause = match load_json("x", b"{", &Capabilities::all()) {
        Err(Failure::Parse { cause, .. }) => cause,
        other => panic!("expected a parse failure, got {:?}", other),
    };
    match settle("dir/file.json", Err(cause)) {
        Err(Failure::Parse { path, cause }) => {
            assert_eq!(path, "dir/file.json");
            assert!(matches!(cause, ParseFailure::Json(_)));
        }
        other => panic!("expected a parse failure, got {:?}", other),
    }
}

#[test]
fn join_puts_slashes_between() {
    let parts: Vec<String> = vec!["a".to_string(), "b".to_string(), "c.txt".to_string()];
    assert_eq!(join(&parts), "a/b/c.txt");
    assert_eq!(join(&parts[..1]), "a");
    assert_eq!(join(&parts[..0]), "");
}

#[test]
fn components_are_text_or_not() {
    let good = vec![Some("a".to_string()), Some("b".to_string())];
    assert_eq!(to_texts(&good), Some(vec!["a".to_string(), "b".to_string()]));
    let bad = vec![Some("a".to_string()), None, Some("b".to_string())];
    assert_eq!(to_texts(&bad), None);
    assert_eq!(to_texts(&[]), Some(vec![]));
}

#[test]
fn texts_are_compared_exactly() {
    assert!(same_text("yaml", "yaml"));
    assert!(!same_text("yaml", "Yaml"));
    assert!(!same_text("yaml", "yam"));
    assert!(same_text("", ""));
}

#[test]
fn content_that_is_not_utf8_is_a_parse_failure() {
    let caps = Capabilities::all();
    let bytes: &[u8] = &[0x22, 0xff, 0xfe, 0x22];
    assert!(matches!(load_json("a.json", bytes, &caps), Err(Failure::Parse { cause: ParseFailure::Json(_), .. })));
    assert!(matches!(load_yaml("a.yaml", bytes, &caps), Err(Failure::Parse { cause: ParseFailure::Yaml(_), .. })));
    assert!(matches!(load_toml("a.toml", &[0x61, 0x3d, 0x22, 0xff, 0x22], &caps), Err(Failure::Parse { cause: ParseFailure::Toml(_), .. })));
}

#[test]
fn the_name_alone_tells_whether_a_file_can_be_loaded() {
    let mut caps = Capabilities::all();
    assert_eq!(supported("stage.yml", &caps).unwrap(), DataFormat::Yaml);
    assert_eq!(supported("stage.toml", &caps).unwrap(), DataFormat::Toml);
    assert_eq!(supported("stage.json", &caps).unwrap(), DataFormat::Json);
    match supported("stage.txt", &caps) {
        Err(Failure::UnsupportedFormat { name }) => assert_eq!(name, "stage.txt"),
        other => panic!("expected unsupported, got {:?}", other),
    }
    caps.json = false;
    assert!(matches!(supported("stage.json", &caps), Err(Failure::UnsupportedFormat { .. })));
    assert!(supported("stage.yaml", &caps).is_ok());
}

#[test]
fn paths_are_shown_with_a_mark_for_what_is_not_text() {
    assert_eq!(show(&[Some("a".to_string()), None, Some("x.json".to_string())]), "a/?/x.json");
    assert_eq!(show(&[Some("a".to_string()), Some("b".to_string())]), "a/b");
    assert_eq!(show(&[None]), "?");
    assert_eq!(show(&[]), "");
}
