use std::io::Write;

use osmdb_extract::wikidata::lookup_entity;
use tempfile::TempDir;
use wikidata_store::{create_wikidata_store, WikidataStore};

#[test]
fn wikidata_lookup_returns_nil_when_no_store_is_configured() {
    assert_eq!(lookup_entity(None, Some("Q42")), Ok(None));
    assert_eq!(lookup_entity(None, Some("q42")), Ok(None));
    assert_eq!(lookup_entity(None, None), Ok(None));
}

fn store(root: &std::path::Path) -> WikidataStore {
    let mut dump = tempfile::NamedTempFile::new_in(root).unwrap();
    dump.write_all(
        b"{\"id\":\"Q42\",\"type\":\"item\",\"labels\":{\"en\":{\"language\":\"en\",\"value\":\"Douglas Adams\"}},\"aliases\":{\"en\":[]},\"claims\":{},\"sitelinks\":{},\"lastrevid\":null}\n",
    )
    .unwrap();
    dump.flush().unwrap();
    let path = root.join("wikidata.store");
    create_wikidata_store(dump.path(), &path).unwrap();
    WikidataStore::open(&path).unwrap()
}

#[test]
fn invalid_wikidata_id_is_refused_with_the_store_message() {
    let temp = TempDir::new().unwrap();
    let store = store(temp.path());
    let error = lookup_entity(Some(&store), Some("q42")).unwrap_err();
    assert_eq!(error, "Invalid input: Unsupported Wikidata entity ID: q42");
    assert_eq!(
        lookup_entity(Some(&store), Some("")).unwrap_err(),
        "Invalid input: Wikidata entity ID cannot be empty"
    );
    assert_eq!(
        lookup_entity(Some(&store), Some("Q")).unwrap_err(),
        "Invalid input: Wikidata entity ID has no numeric component: Q"
    );
    assert_eq!(
        lookup_entity(Some(&store), Some("Q042")).unwrap_err(),
        "Invalid input: Invalid Wikidata entity ID: Q042"
    );
    assert_eq!(lookup_entity(Some(&store), None), Ok(None));
}

#[test]
fn wikidata_entities_are_found_by_canonical_id() {
    let temp = TempDir::new().unwrap();
    let store = store(temp.path());
    let json = lookup_entity(Some(&store), Some("Q42")).unwrap().unwrap();
    let entity: serde_json::Value = serde_json::from_slice(&json).unwrap();
    assert_eq!(entity["labels"]["en"]["value"], "Douglas Adams");
    assert!(entity["aliases"]["en"].as_array().unwrap().is_empty());
    assert!(entity["lastrevid"].is_null());
    assert_eq!(lookup_entity(Some(&store), Some("Q999999999")), Ok(None));
}
