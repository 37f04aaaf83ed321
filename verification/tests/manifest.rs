use jsproject::json::parse_json;
use jsproject::json::render_json;
use jsproject::json::JsonValue;
use jsproject::manifest::DependencyKind;
use jsproject::package_json::ManifestError;
use jsproject::package_json::PackageJson;
use jsproject::package_name::PackageName;

/// The top-level members of a JSON object as they stand in the text,
/// repeated keys kept: what a caller that reads the file hands over.
struct Members(Vec<(String, JsonValue)>);

struct Walk;

impl<'de> serde::de::Visitor<'de> for Walk {
    type Value = Members;

    fn expecting(&self, formatter: &mut std::fmt::Formatter) -> std::fmt::Result {
        formatter.write_str("a package.json")
    }

    fn visit_map<A>(self, mut map: A) -> Result<Members, A::Error>
    where
        A: serde::de::MapAccess<'de>,
    {
        let mut members = Vec::new();
        while let Some(key) = map.next_key::<String>()? {
            members.push((key, json_value(map.next_value()?)));
        }
        Ok(Members(members))
    }
}

impl<'de> serde::Deserialize<'de> for Members {
    fn deserialize<D>(deserializer: D) -> Result<Members, D::Error>
    where
        D: serde::Deserializer<'de>,
    {
        deserializer.deserialize_map(Walk)
    }
}

fn json_value(value: serde_json::Value) -> JsonValue {
    match value {
        serde_json::Value::Null => JsonValue::Null,
        serde_json::Value::Bool(b) => JsonValue::Bool(b),
        serde_json::Value::Number(n) => JsonValue::Number(n.to_string()),
        serde_json::Value::String(s) => JsonValue::Text(s),
        serde_json::Value::Array(a) => JsonValue::Array(a.into_iter().map(json_value).collect()),
        serde_json::Value::Object(m) => {
            JsonValue::Object(m.into_iter().map(|(k, v)| (k, json_value(v))).collect())
        }
    }
}

fn members(text: &str) -> Vec<(String, JsonValue)> {
    serde_json::from_str::<Members>(text).unwrap().0
}

fn read(text: &str) -> Result<PackageJson, ManifestError> {
    PackageJson::from_entries(&members(text))
}

fn name(text: &str) -> PackageName {
    PackageName::new(text.to_owned()).unwrap()
}

const DOCUMENT: &str = r#"{
  "version": "1.0.0",
  "name": "demo",
  "private": true,
  "scripts": {
    "test": "jest",
    "build": "tsc"
  },
  "devDependencies": {
    "typescript": "^4.0.0",
    "jest": "^27.0.0"
  },
  "config": {
    "z": [
      1,
      2.5,
      null
    ],
    "a": {
      "nested": "kept"
    }
  },
  "dependencies": {
    "react": "^17.0.2",
    "@scope/pkg": "1.2.3"
  },
  "license": "MIT"
}
"#;

const NORMALISED: &str = r#"{
  "version": "1.0.0",
  "name": "demo",
  "private": true,
  "scripts": {
    "test": "jest",
    "build": "tsc"
  },
  "devDependencies": {
    "jest": "^27.0.0",
    "typescript": "^4.0.0"
  },
  "config": {
    "z": [
      1,
      2.5,
      null
    ],
    "a": {
      "nested": "kept"
    }
  },
  "dependencies": {
    "@scope/pkg": "1.2.3",
    "react": "^17.0.2"
  },
  "license": "MIT"
}
"#;

#[test]
fn reads_the_recognized_fields() {
    let manifest = read(DOCUMENT).unwrap();
    assert_eq!(manifest.name.as_str(), "demo");
    assert_eq!(manifest.dependencies.len(), 2);
    assert_eq!(manifest.dependencies.name_at(0).as_str(), "@scope/pkg");
    assert_eq!(manifest.dependencies.version_at(0), "1.2.3");
    assert_eq!(manifest.dependencies.name_at(1).as_str(), "react");
    assert_eq!(manifest.dependencies.get(&name("react")).unwrap(), "^17.0.2");
    assert_eq!(manifest.dev_dependencies.get(&name("jest")).unwrap(), "^27.0.0");
    assert!(manifest.dev_dependencies.contains_key(&name("typescript")));
    assert!(!manifest.dev_dependencies.contains_key(&name("react")));
    assert!(manifest.peer_dependencies.is_empty());
    assert!(manifest.optional_dependencies.is_empty());
    let scripts: Vec<(&String, &String)> = manifest.scripts.iter().collect();
    assert_eq!(scripts.len(), 2);
    assert_eq!((scripts[0].0.as_str(), scripts[0].1.as_str()), ("test", "jest"));
    assert_eq!((scripts[1].0.as_str(), scripts[1].1.as_str()), ("build", "tsc"));
    assert!(manifest.has_script("build"));
    assert!(!manifest.has_script("lint"));
}

#[test]
fn writes_every_key_where_it_was_and_sections_sorted() {
    let manifest = read(DOCUMENT).unwrap();
    assert_eq!(manifest.write().unwrap(), NORMALISED);
}

#[test]
fn round_trip_is_stable() {
    let first = read(DOCUMENT).unwrap().write().unwrap();
    let again = read(&first).unwrap();
    assert_eq!(again.name.as_str(), "demo");
    assert_eq!(again.write().unwrap(), first);
    let third = read(&again.write().unwrap()).unwrap();
    assert_eq!(third.write().unwrap(), first);
}

#[test]
fn a_clone_is_written_alike() {
    let manifest = read(DOCUMENT).unwrap();
    assert_eq!(manifest.clone().write().unwrap(), NORMALISED);
}

#[test]
fn no_dependency_key_is_introduced() {
    let text = "{\n  \"name\": \"bare\",\n  \"main\": \"index.js\"\n}\n";
    let manifest = read(text).unwrap();
    assert_eq!(manifest.write().unwrap(), text);
    let document = manifest.to_json();
    match document {
        JsonValue::Object(members) => {
            let keys: Vec<&str> = members.iter().map(|member| member.0.as_str()).collect();
            assert_eq!(keys, vec!["name", "main"]);
        }
        _ => panic!("a manifest is written to an object"),
    }
}

#[test]
fn an_emptied_section_is_not_written() {
    let text = "{\"name\":\"x\",\"dependencies\":{\"a\":\"1\"},\"after\":0,\"scripts\":{}}";
    let mut manifest = read(text).unwrap();
    manifest.remove_dep(&name("a"));
    assert_eq!(manifest.write().unwrap(), "{\n  \"name\": \"x\",\n  \"after\": 0\n}\n");
}

#[test]
fn a_section_that_comes_later_is_written_at_the_end() {
    let text = "{\"name\":\"x\",\"after\":0}";
    let mut manifest = read(text).unwrap();
    manifest.add_dep(name("zod"), "^3.0.0".to_owned(), true);
    manifest.add_dep(name("react"), "^17.0.2".to_owned(), false);
    manifest.add_dep(name("left-pad"), "1.0.0".to_owned(), false);
    assert_eq!(
        manifest.write().unwrap(),
        "{\n  \"name\": \"x\",\n  \"after\": 0,\n  \"dependencies\": {\n    \"left-pad\": \"1.0.0\",\n    \"react\": \"^17.0.2\"\n  },\n  \"devDependencies\": {\n    \"zod\": \"^3.0.0\"\n  }\n}\n"
    );
}

#[test]
fn adding_keeps_the_section_where_the_document_had_it() {
    let mut manifest = read(DOCUMENT).unwrap();
    manifest.add_dep(name("lodash"), "^4.17.21".to_owned(), false);
    let expected = NORMALISED.replace(
        "    \"@scope/pkg\": \"1.2.3\",\n",
        "    \"@scope/pkg\": \"1.2.3\",\n    \"lodash\": \"^4.17.21\",\n",
    );
    assert_ne!(expected, NORMALISED);
    assert_eq!(manifest.write().unwrap(), expected);
    let text = "{\"dependencies\":{},\"name\":\"x\",\"last\":1}";
    let mut emptied = read(text).unwrap();
    assert_eq!(emptied.write().unwrap(), "{\n  \"name\": \"x\",\n  \"last\": 1\n}\n");
    emptied.add_dep(name("a"), "1".to_owned(), false);
    assert_eq!(
        emptied.write().unwrap(),
        "{\n  \"dependencies\": {\n    \"a\": \"1\"\n  },\n  \"name\": \"x\",\n  \"last\": 1\n}\n"
    );
}

#[test]
fn remove_dep_clears_all_four_sections() {
    let text = r#"{"name":"x","dependencies":{"a":"1","b":"1"},"devDependencies":{"a":"2"},"peerDependencies":{"a":"3"},"optionalDependencies":{"a":"4","c":"1"}}"#;
    let mut manifest = read(text).unwrap();
    assert!(manifest.remove_dep(&name("a")));
    assert_eq!(manifest.dependencies.len(), 1);
    assert!(manifest.dev_dependencies.is_empty());
    assert!(manifest.peer_dependencies.is_empty());
    assert_eq!(manifest.optional_dependencies.len(), 1);
    assert!(manifest.dependencies.contains_key(&name("b")));
    assert!(manifest.optional_dependencies.contains_key(&name("c")));
}

#[test]
fn remove_dep_twice_is_remove_dep_once() {
    let mut once = read(DOCUMENT).unwrap();
    once.remove_dep(&name("react"));
    let mut twice = read(DOCUMENT).unwrap();
    assert!(twice.remove_dep(&name("react")));
    assert!(!twice.remove_dep(&name("react")));
    assert_eq!(once.write().unwrap(), twice.write().unwrap());
    assert!(!once.dependencies.contains_key(&name("react")));
}

#[test]
fn remove_dep_of_an_absent_name_changes_nothing() {
    let mut manifest = read(DOCUMENT).unwrap();
    assert!(!manifest.remove_dep(&name("absent")));
    assert_eq!(manifest.write().unwrap(), NORMALISED);
}

#[test]
fn remove_deps_takes_each_out() {
    let mut manifest = read(DOCUMENT).unwrap();
    manifest.remove_deps(&vec![name("react"), name("jest"), name("absent")]);
    assert_eq!(manifest.dependencies.len(), 1);
    assert_eq!(manifest.dev_dependencies.len(), 1);
    assert!(manifest.dev_dependencies.contains_key(&name("typescript")));
}

#[test]
fn set_dep_version_touches_the_sections_that_hold_the_name() {
    let text = r#"{"name":"x","dependencies":{"a":"1"},"devDependencies":{"b":"2"},"peerDependencies":{"a":"3"},"optionalDependencies":{"a":"4"}}"#;
    let mut manifest = read(text).unwrap();
    assert_eq!(manifest.set_dep_version(&name("a"), "^9.0.0"), Some("1".to_owned()));
    assert_eq!(manifest.dependencies.get(&name("a")).unwrap(), "^9.0.0");
    assert_eq!(manifest.optional_dependencies.get(&name("a")).unwrap(), "^9.0.0");
    assert_eq!(manifest.peer_dependencies.get(&name("a")).unwrap(), "3");
    assert_eq!(manifest.set_dep_version(&name("b"), "^9.0.0"), Some("2".to_owned()));
    assert_eq!(manifest.set_dep_version(&name("c"), "^9.0.0"), None);
    assert!(!manifest.dependencies.contains_key(&name("c")));
}

#[test]
fn iter_normal_deps_leaves_peers_out() {
    let text = r#"{"name":"x","dependencies":{"a":"1"},"devDependencies":{"b":"2"},"peerDependencies":{"c":"3"},"optionalDependencies":{"d":"4"}}"#;
    let manifest = read(text).unwrap();
    let sections = manifest.iter_normal_deps();
    assert!(sections[0].contains_key(&name("a")));
    assert!(sections[1].contains_key(&name("b")));
    assert!(sections[2].contains_key(&name("d")));
    assert!(sections.iter().all(|section| !section.contains_key(&name("c"))));
    assert!(manifest.section(DependencyKind::Peer).contains_key(&name("c")));
}

#[test]
fn insert_hands_back_the_version_before() {
    let mut manifest = read(r#"{"name":"x"}"#).unwrap();
    assert_eq!(manifest.dependencies.insert(name("b"), "1".to_owned()), None);
    assert_eq!(manifest.dependencies.insert(name("a"), "1".to_owned()), None);
    assert_eq!(manifest.dependencies.insert(name("b"), "2".to_owned()), Some("1".to_owned()));
    assert_eq!(manifest.dependencies.len(), 2);
    assert_eq!(manifest.dependencies.name_at(0).as_str(), "a");
    assert_eq!(manifest.dependencies.version_at(1), "2");
    assert_eq!(manifest.dependencies.remove(&name("a")), Some("1".to_owned()));
    assert_eq!(manifest.dependencies.remove(&name("a")), None);
}

#[test]
fn missing_name_is_malformed() {
    assert!(matches!(read("{\"version\":\"1\"}"), Err(ManifestError::MissingName)));
    assert!(matches!(read("{}"), Err(ManifestError::MissingName)));
}

#[test]
fn duplicate_name_is_malformed() {
    let entries = vec![
        ("name".to_owned(), JsonValue::Text("a".to_owned())),
        ("name".to_owned(), JsonValue::Text("b".to_owned())),
    ];
    assert!(matches!(PackageJson::from_entries(&entries), Err(ManifestError::DuplicateName)));
}

#[test]
fn invalid_names_are_malformed() {
    match read("{\"name\":\"Not Valid\"}") {
        Err(ManifestError::InvalidName(error)) => assert_eq!(error.input(), "Not Valid"),
        _ => panic!("the name is refused"),
    }
    assert!(matches!(read("{\"name\":7}"), Err(ManifestError::NameNotText)));
    assert!(matches!(
        read("{\"name\":\"a\",\"dependencies\":{\"Bad Name\":\"1\"}}"),
        Err(ManifestError::InvalidDependencies(DependencyKind::Normal))
    ));
    assert!(matches!(
        read("{\"name\":\"a\",\"peerDependencies\":{\"b\":1}}"),
        Err(ManifestError::InvalidDependencies(DependencyKind::Peer))
    ));
    assert!(matches!(
        read("{\"name\":\"a\",\"optionalDependencies\":[]}"),
        Err(ManifestError::InvalidDependencies(DependencyKind::Optional))
    ));
    assert!(matches!(
        read("{\"name\":\"a\",\"devDependencies\":null}"),
        Err(ManifestError::InvalidDependencies(DependencyKind::Dev))
    ));
}

#[test]
fn other_malformed_documents() {
    assert!(matches!(
        read("{\"name\":\"a\",\"scripts\":{\"x\":1}}"),
        Err(ManifestError::InvalidScripts)
    ));
    let array = parse_json("[1, 2]").unwrap();
    assert!(matches!(PackageJson::from_json(&array), Err(ManifestError::NotAnObject)));
    let text = parse_json("\"name\"").unwrap();
    assert!(matches!(PackageJson::from_json(&text), Err(ManifestError::NotAnObject)));
    let object = parse_json("{\"name\":\"x\",\"b\":1}").unwrap();
    assert_eq!(PackageJson::from_json(&object).unwrap().write().unwrap(), "{\n  \"name\": \"x\",\n  \"b\": 1\n}\n");
    assert!(serde_json::from_str::<Members>("[1, 2]").is_err());
    assert!(serde_json::from_str::<Members>("{\"name\": ").is_err());
}

#[test]
fn errors_have_messages() {
    let message = |text: &str| read(text).unwrap_err().message();
    assert_eq!(message("{}"), "missing field `name`");
    assert_eq!(message("{\"name\":1}"), "the field `name` is no string");
    assert_eq!(
        message("{\"name\":\"A\"}"),
        "the field `name` is refused: \"A\" is not a valid npm package name"
    );
    assert_eq!(message("{\"name\":\"a\",\"scripts\":1}"), "the field `scripts` is no object of strings");
    assert_eq!(
        message("{\"name\":\"a\",\"devDependencies\":1}"),
        "devDependencies is no object of version strings under package names"
    );
    let array = parse_json("[]").unwrap();
    assert_eq!(PackageJson::from_json(&array).unwrap_err().message(), "the manifest is no JSON object");
    let twice = vec![
        ("name".to_owned(), JsonValue::Text("a".to_owned())),
        ("name".to_owned(), JsonValue::Text("a".to_owned())),
    ];
    assert_eq!(PackageJson::from_entries(&twice).unwrap_err().message(), "duplicate field `name`");
}

#[test]
fn the_first_bad_entry_decides() {
    let text = "{\"scripts\":[],\"name\":\"Not Valid\"}";
    assert!(matches!(read(text), Err(ManifestError::InvalidScripts)));
    let text = "{\"name\":\"Not Valid\",\"scripts\":[]}";
    assert!(matches!(read(text), Err(ManifestError::InvalidName(_))));
}

#[test]
fn a_second_name_in_the_text_is_refused() {
    let text = r#"{"name":"a","name":"b"}"#;
    assert_eq!(members(text).len(), 2);
    assert!(matches!(read(text), Err(ManifestError::DuplicateName)));
    let same = r#"{"name":"a","version":"1","name":"a"}"#;
    assert!(matches!(read(same), Err(ManifestError::DuplicateName)));
    let object = JsonValue::Object(members(text));
    assert!(matches!(PackageJson::from_json(&object), Err(ManifestError::DuplicateName)));
}

#[test]
fn a_key_that_the_text_repeats_takes_its_last_place_and_value() {
    let text = r#"{"a":true,"name":"x","scripts":{"one":"1"},"a":null,"scripts":{"two":"2"},"dependencies":{"p":"1"},"z":0,"dependencies":{"q":"2"}}"#;
    let manifest = read(text).unwrap();
    assert_eq!(
        manifest.write().unwrap(),
        "{\n  \"name\": \"x\",\n  \"a\": null,\n  \"scripts\": {\n    \"two\": \"2\"\n  },\n  \"z\": 0,\n  \"dependencies\": {\n    \"q\": \"2\"\n  }\n}\n"
    );
}

#[test]
fn serde_json_alone_sees_a_repeated_key_once() {
    match parse_json(r#"{"name":"a","b":1,"name":"b"}"#).unwrap() {
        JsonValue::Object(found) => {
            assert_eq!(found.len(), 2);
            assert_eq!(found[0].0, "name");
            assert!(matches!(&found[0].1, JsonValue::Text(text) if text == "b"));
            assert_eq!(found[1].0, "b");
        }
        _ => panic!("an object"),
    }
}

#[test]
fn a_repeated_key_moves_to_its_last_place() {
    let entries = vec![
        ("a".to_owned(), JsonValue::Bool(true)),
        ("name".to_owned(), JsonValue::Text("x".to_owned())),
        ("a".to_owned(), JsonValue::Null),
    ];
    let manifest = PackageJson::from_entries(&entries).unwrap();
    assert_eq!(manifest.write().unwrap(), "{\n  \"name\": \"x\",\n  \"a\": null\n}\n");
}

#[test]
fn json_values_are_read_and_printed() {
    let value = parse_json("{\"b\": [1, -2, 3.5, 1e3, \"x\", true, null], \"a\": {}}").unwrap();
    match &value {
        JsonValue::Object(members) => {
            assert_eq!(members.len(), 2);
            assert_eq!(members[0].0, "b");
            assert_eq!(members[1].0, "a");
            match &members[0].1 {
                JsonValue::Array(items) => {
                    assert!(matches!(&items[0], JsonValue::Number(text) if text == "1"));
                    assert!(matches!(&items[1], JsonValue::Number(text) if text == "-2"));
                    assert!(matches!(&items[2], JsonValue::Number(text) if text == "3.5"));
                    assert!(matches!(&items[3], JsonValue::Number(text) if text == "1000.0"));
                    assert!(matches!(&items[4], JsonValue::Text(text) if text == "x"));
                    assert!(matches!(&items[5], JsonValue::Bool(true)));
                    assert!(matches!(&items[6], JsonValue::Null));
                }
                _ => panic!("an array"),
            }
        }
        _ => panic!("an object"),
    }
    assert_eq!(
        render_json(&value).unwrap(),
        "{\n  \"b\": [\n    1,\n    -2,\n    3.5,\n    1000.0,\n    \"x\",\n    true,\n    null\n  ],\n  \"a\": {}\n}"
    );
    assert_eq!(render_json(&value.clone()).unwrap(), render_json(&value).unwrap());
    assert!(parse_json("{").is_err());
    assert!(render_json(&JsonValue::Number("one".to_owned())).is_err());
    assert_eq!(render_json(&JsonValue::Text("a\"b".to_owned())).unwrap(), "\"a\\\"b\"");
}
