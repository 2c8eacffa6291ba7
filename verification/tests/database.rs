use rudder_package::database::{Database, DatabaseError, InstalledPlugin};
use rudder_package::metadata::Metadata;

fn plugin(name: &str, files: &[&str]) -> InstalledPlugin {
    InstalledPlugin {
        files: files.iter().map(|f| f.to_string()).collect(),
        metadata: Metadata::from_fields(
            Some(name.to_string()),
            Some("8.0.0-1.0".to_string()),
            Some(vec![]),
            Some(None),
            Some(None),
        )
        .unwrap(),
    }
}

#[test]
fn new_database_is_empty() {
    let db = Database::new();
    assert!(!db.is_installed("a"));
    assert!(db.get("a").is_none());
    assert!(db.names().is_empty());
}

#[test]
fn insert_records_and_replaces() {
    let mut db = Database::new();
    db.insert("a".to_string(), plugin("a", &["/a/1"]));
    db.insert("b".to_string(), plugin("b", &["/b/1"]));
    assert!(db.is_installed("a"));
    assert!(db.is_installed("b"));
    assert!(!db.is_installed("c"));
    assert_eq!(db.get("a").unwrap().files, vec!["/a/1"]);
    db.insert("a".to_string(), plugin("a", &["/a/2", "/a/3"]));
    assert_eq!(db.get("a").unwrap().files, vec!["/a/2", "/a/3"]);
    assert_eq!(db.get("b").unwrap().files, vec!["/b/1"]);
    assert_eq!(db.names(), vec!["a", "b"]);
}

#[test]
fn remove_gives_the_record_back() {
    let mut db = Database::new();
    db.insert("a".to_string(), plugin("a", &["/a/1"]));
    db.insert("b".to_string(), plugin("b", &["/b/1"]));
    db.insert("c".to_string(), plugin("c", &[]));
    let record = db.remove("b").unwrap();
    assert_eq!(record, plugin("b", &["/b/1"]));
    assert!(!db.is_installed("b"));
    assert_eq!(db.names(), vec!["a", "c"]);
    assert_eq!(db.get("a").unwrap().files, vec!["/a/1"]);
}

#[test]
fn removing_an_absent_plugin_changes_nothing() {
    let mut db = Database::new();
    db.insert("a".to_string(), plugin("a", &["/a/1"]));
    let before = db.clone();
    assert_eq!(db.remove("b").unwrap_err(), DatabaseError::NotInstalled);
    assert_eq!(db, before);
    assert_eq!(Database::new().remove("a").unwrap_err(), DatabaseError::NotInstalled);
}

fn full_record() -> InstalledPlugin {
    InstalledPlugin {
        files: vec!["/opt/rudder/share/".to_string(), "/opt/a \"b\"\\\n".to_string()],
        metadata: Metadata::from_fields(
            Some("rudder-plugin-notify".to_string()),
            Some("8.0.0~rc1-2.2-nightly".to_string()),
            Some(vec![
                ("files.txz".to_string(), "/opt/rudder".to_string()),
                ("conf.txz".to_string(), "/etc/é".to_string()),
            ]),
            Some(Some(vec!["dep".to_string()])),
            Some(Some(vec!["/opt/rudder/share/a.jar".to_string()])),
        )
        .unwrap(),
    }
}

#[test]
fn nothing_stored_means_nothing_installed() {
    let db = Database::load(None).unwrap();
    assert_eq!(db, Database::new());
    assert_eq!(Database::load(Some("{}")).unwrap(), Database::new());
    assert_eq!(Database::new().store(), "{}");
}

#[test]
fn the_stored_form_is_a_json_object_by_name() {
    let mut db = Database::new();
    db.insert("b".to_string(), plugin("b", &["/b/1", "/b/2"]));
    assert_eq!(
        db.store(),
        concat_all(&[
            r#"{"b":{"files":["/b/1","/b/2"],"metadata":{"name":"b","version":"8.0.0-1.0","#,
            r#""depends":null,"content":{},"jar-files":null}}}"#,
        ])
    );
    let parsed: serde_json::Value = serde_json::from_str(&db.store()).unwrap();
    assert_eq!(parsed["b"]["files"][1], serde_json::Value::String("/b/2".to_string()));
}

fn concat_all(parts: &[&str]) -> String {
    parts.iter().map(|p| p.to_string()).collect()
}

#[test]
fn a_database_is_read_back_as_it_was_stored() {
    let mut db = Database::new();
    db.insert("rudder-plugin-notify".to_string(), full_record());
    db.insert("b".to_string(), plugin("b", &[]));
    db.insert("a \"quoted\" name".to_string(), plugin("a", &["/x"]));
    let stored = db.store();
    let loaded = Database::load(Some(&stored)).unwrap();
    assert_eq!(loaded, db);
    assert_eq!(loaded.names(), vec!["rudder-plugin-notify", "b", "a \"quoted\" name"]);
    assert_eq!(loaded.get("rudder-plugin-notify").unwrap(), &full_record());
    assert_eq!(loaded.store(), stored);
}

#[test]
fn records_are_read_and_written() {
    let record = full_record();
    let doc = record.to_json();
    assert_eq!(InstalledPlugin::from_json(&doc).unwrap(), record);
    assert_eq!(Metadata::from_json(&record.metadata.to_json()).unwrap(), record.metadata);
}

#[test]
fn damaged_databases_are_refused() {
    let metadata = r#"{"name":"a","version":"8.0.0-1.0","content":{}}"#;
    let cases = [
        ("", DatabaseError::Document),
        ("[]", DatabaseError::Document),
        ("{\"a\":", DatabaseError::Document),
        (r#"{"a":[]}"#, DatabaseError::Record),
        (r#"{"a":{"metadata":{}}}"#, DatabaseError::Files),
        (r#"{"a":{"files":"/x","metadata":{}}}"#, DatabaseError::Files),
        (r#"{"a":{"files":[]}}"#, DatabaseError::NoMetadata),
        (
            r#"{"a":{"files":[],"metadata":{"name":"a"}}}"#,
            DatabaseError::Metadata(rudder_package::metadata::MetadataError::Version),
        ),
    ];
    for (doc, expected) in cases {
        assert_eq!(Database::load(Some(doc)).unwrap_err(), expected, "{}", doc);
    }
    let good = format!(r#"{{"a":{{"files":[],"metadata":{}}},"b":3}}"#, metadata);
    assert_eq!(Database::load(Some(&good)).unwrap_err(), DatabaseError::Record);
    let good = format!(r#"{{"a":{{"files":["/f"],"metadata":{}}}}}"#, metadata);
    assert_eq!(Database::load(Some(&good)).unwrap().get("a").unwrap().files, vec!["/f"]);
}
