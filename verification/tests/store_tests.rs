use std::collections::HashMap;

use file_session_store::codec::{decode_record, encode_record};
use file_session_store::record::Record;
use file_session_store::FileStore;

fn record(id: &str, data: &[(&str, &str)]) -> Record {
    Record {
        id: id.to_owned(),
        data: data.iter().map(|(k, v)| ((*k).to_owned(), (*v).to_owned())).collect(),
    }
}

#[test]
fn path_concrete() {
    let store = FileStore::new("/tmp/sess", "s-", ".json");
    assert_eq!(store.path("abc123"), "/tmp/sess/s-abc123.json");
}

#[test]
fn path_deterministic() {
    let store = FileStore::new("/var/lib/app", "sess.", ".rec");
    let first = store.path("k9");
    let second = store.path("k9");
    assert_eq!(first, second);
    assert_eq!(first, "/var/lib/app/sess.k9.rec");
}

#[test]
fn path_in_dir() {
    let store = FileStore::in_dir("/srv/sessions");
    assert_eq!(store.path("token"), "/srv/sessions/token");
}

#[test]
fn path_empty_identifier() {
    let store = FileStore::new("d", "p-", ".x");
    assert_eq!(store.path(""), "d/p-.x");
}

#[test]
fn encode_concrete() {
    let r = record("abc123", &[("count", "3")]);
    assert_eq!(encode_record(&r), "{\"id\":\"abc123\",\"data\":{\"count\":\"3\"}}");
}

#[test]
fn encode_empty_data() {
    let r = record("abc123", &[]);
    assert_eq!(encode_record(&r), "{\"id\":\"abc123\",\"data\":{}}");
}

#[test]
fn round_trip() {
    let r = record("abc123", &[("count", "3"), ("user", "alice"), ("theme", "dark")]);
    let text = encode_record(&r);
    let back = decode_record(&text).expect("the encoding must decode");
    assert_eq!(back, r);
}

#[test]
fn round_trip_empty_data() {
    let r = record("Hs8Jb0_zAGrc_rmUYGwlvw", &[]);
    let back = decode_record(&encode_record(&r)).expect("the encoding must decode");
    assert_eq!(back, r);
}

#[test]
fn round_trip_empty_strings() {
    let r = record("", &[("", "")]);
    let back = decode_record(&encode_record(&r)).expect("the encoding must decode");
    assert_eq!(back, r);
}

#[test]
fn overwrite_keeps_second_record() {
    // The directory, modeled as in-memory contents by path: two saves
    // under one identifier, the second write wins, a load sees only it.
    let store = FileStore::new("/tmp/sess", "s-", ".json");
    let r1 = record("abc123", &[("count", "1")]);
    let r2 = record("abc123", &[("count", "2")]);
    let mut dir: HashMap<String, String> = HashMap::new();
    dir.insert(store.path(&r1.id), encode_record(&r1));
    dir.insert(store.path(&r2.id), encode_record(&r2));
    let loaded = decode_record(&dir[&store.path("abc123")]).expect("must decode");
    assert_eq!(loaded, r2);
    assert_ne!(loaded, r1);
}

#[test]
fn delete_then_load_fails() {
    // Save, delete, load: after the file is gone the load has nothing to
    // read, which this store reports as its one storage error.
    let store = FileStore::new("/tmp/sess", "s-", ".json");
    let r = record("abc123", &[("count", "3")]);
    let mut dir: HashMap<String, String> = HashMap::new();
    dir.insert(store.path(&r.id), encode_record(&r));
    assert!(dir.remove(&store.path("abc123")).is_some());
    assert!(dir.get(&store.path("abc123")).is_none());
}

#[test]
fn save_plan_concrete() {
    let store = FileStore::new("/tmp/sess", "s-", ".json");
    let r = record("abc123", &[("count", "3")]);
    let (path, content) = store.save_plan(&r);
    assert_eq!(path, "/tmp/sess/s-abc123.json");
    assert_eq!(content, "{\"id\":\"abc123\",\"data\":{\"count\":\"3\"}}");
}

#[test]
fn idempotent_save() {
    let r = record("abc123", &[("count", "3")]);
    let first = encode_record(&r);
    let second = encode_record(&r);
    assert_eq!(first, second);
}

#[test]
fn decode_rejects_invalid_text() {
    assert!(decode_record("").is_none());
    assert!(decode_record("{}").is_none());
    assert!(decode_record("{\"id\":\"a\"}").is_none());
    assert!(decode_record("{\"id\":\"a\",\"data\":{}").is_none());
    assert!(decode_record("{\"id\":\"a\",\"data\":{}}}").is_none());
    assert!(decode_record("{\"id\":\"a\",\"data\":{\"k\":}}").is_none());
    assert!(decode_record("{\"id\":\"a\",\"data\":{\"k\":\"v\",}}").is_none());
    assert!(decode_record("not a record").is_none());
}

#[test]
fn decode_rejects_escapes() {
    // A backslash is not plain, so no well-formed record encodes to this.
    assert!(decode_record("{\"id\":\"a\\\\b\",\"data\":{}}").is_none());
    // A control character inside a string is not plain either.
    assert!(decode_record("{\"id\":\"a\tb\",\"data\":{}}").is_none());
}

#[test]
fn well_formedness() {
    assert!(record("abc123", &[("count", "3")]).is_wf());
    assert!(record("", &[]).is_wf());
    assert!(!record("a\"b", &[]).is_wf());
    assert!(!record("ok", &[("k\\ey", "v")]).is_wf());
    assert!(!record("ok", &[("key", "line\nbreak")]).is_wf());
}
