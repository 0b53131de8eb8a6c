use base64::Engine;
use ironbox::error::Error;
use ironbox::key_ring::{KeyEntry, KeyID, KeyRing, KeyRingFile, KEY_LENGTH};

fn encode(b: &[u8]) -> String {
    base64::engine::general_purpose::STANDARD.encode(b)
}

fn decode(s: &str) -> Option<Vec<u8>> {
    base64::engine::general_purpose::STANDARD.decode(s).ok()
}

fn key_bytes(seed: u8) -> Vec<u8> {
    (0..KEY_LENGTH).map(|i| seed.wrapping_add(i as u8)).collect()
}

#[test]
fn stored_key_is_standard_base64() {
    let e = KeyEntry::new("d".to_string(), b"hello", "id".to_string());
    assert_eq!(e.key(), "aGVsbG8=");
    let e = KeyEntry::new("d".to_string(), b"", "id".to_string());
    assert_eq!(e.key(), "");
}

#[test]
fn stored_key_decodes_to_material() {
    let raw = key_bytes(7);
    let e = KeyEntry::from_stored("d".to_string(), encode(&raw), "id".to_string());
    let ring = KeyRing::new(vec![e], "p".to_string());
    assert_eq!(ring.key(&"id".to_string()), Ok(raw));
    assert_eq!(decode("aGVsbG8="), Some(b"hello".to_vec()));
}

#[test]
fn stored_key_with_bad_padding_is_decode_error() {
    let e = KeyEntry::from_stored("d".to_string(), "aGVsbG8".to_string(), "id".to_string());
    let ring = KeyRing::new(vec![e], "p".to_string());
    assert_eq!(ring.key(&"id".to_string()), Err(Error::Decode));
}

#[test]
fn key_id_is_hex_sha256() {
    assert_eq!(
        KeyID::of_key(b"").as_string(),
        "e3b0c44298fc1c149afbf4c8996fb92427ae41e4649b934ca495991b7852b855"
    );
}

#[test]
fn key_id_is_content_addressed() {
    let a = key_bytes(1);
    let b = key_bytes(2);
    assert_eq!(KeyID::of_key(&a), KeyID::of_key(&a.clone()));
    assert_ne!(KeyID::of_key(&a), KeyID::of_key(&b));
}

#[test]
fn add_key_then_key_returns_material() {
    let mut ring = KeyRing::new(Vec::new(), "ring.yaml".to_string());
    let raw = key_bytes(3);
    ring.add_key("first".to_string(), "id-1".to_string(), &raw);
    assert_eq!(ring.len(), 1);
    assert_eq!(ring.key(&"id-1".to_string()), Ok(raw));
}

#[test]
fn add_key_replaces_entry_with_same_id() {
    let mut ring = KeyRing::new(Vec::new(), "ring.yaml".to_string());
    ring.add_key("first".to_string(), "id-1".to_string(), &key_bytes(3));
    ring.add_key("second".to_string(), "id-1".to_string(), &key_bytes(4));
    assert_eq!(ring.len(), 1);
    assert_eq!(ring.key(&"id-1".to_string()), Ok(key_bytes(4)));
}

#[test]
fn key_missing_is_not_found() {
    let ring = KeyRing::new(Vec::new(), "ring.yaml".to_string());
    assert_eq!(ring.key(&"nope".to_string()), Err(Error::NotFound));
}

#[test]
fn key_with_bad_armor_is_decode_error() {
    let e = KeyEntry::from_stored("d".to_string(), "not base64!".to_string(), "id".to_string());
    let ring = KeyRing::new(vec![e], "ring.yaml".to_string());
    assert_eq!(ring.key(&"id".to_string()), Err(Error::Decode));
}

#[test]
fn key_of_wrong_size_is_invalid() {
    let e = KeyEntry::new("d".to_string(), b"short", "id".to_string());
    let ring = KeyRing::new(vec![e], "ring.yaml".to_string());
    assert_eq!(ring.key(&"id".to_string()), Err(Error::InvalidKey));
}

#[test]
fn new_keeps_last_entry_per_id() {
    let a = KeyEntry::new("a".to_string(), &key_bytes(1), "id".to_string());
    let b = KeyEntry::new("b".to_string(), &key_bytes(2), "id".to_string());
    let c = KeyEntry::new("c".to_string(), &key_bytes(3), "other".to_string());
    let ring = KeyRing::new(vec![a, b, c], "p".to_string());
    assert_eq!(ring.len(), 2);
    assert_eq!(ring.key(&"id".to_string()), Ok(key_bytes(2)));
    assert_eq!(ring.file_path(), "p");
}

#[test]
fn add_generated_key_uses_content_id() {
    let mut ring = KeyRing::new(Vec::new(), "p".to_string());
    let raw = key_bytes(9);
    assert_eq!(ring.add_generated_key("d".to_string(), &raw), Ok(()));
    let id = KeyID::of_key(&raw).as_string();
    assert_eq!(ring.key(&id), Ok(raw.clone()));
    assert_eq!(ring.add_generated_key("again".to_string(), &raw), Ok(()));
    assert_eq!(ring.len(), 1);
}

#[test]
fn add_generated_key_refuses_collision() {
    let raw = key_bytes(9);
    let id = KeyID::of_key(&raw).as_string();
    let mut ring = KeyRing::new(Vec::new(), "p".to_string());
    ring.add_key("other".to_string(), id.clone(), &key_bytes(10));
    assert_eq!(ring.add_generated_key("d".to_string(), &raw), Err(Error::KeyCollision));
    assert_eq!(ring.key(&id), Ok(key_bytes(10)));
}

#[test]
fn add_generated_key_refuses_wrong_size() {
    let mut ring = KeyRing::new(Vec::new(), "p".to_string());
    assert_eq!(ring.add_generated_key("d".to_string(), b"short"), Err(Error::InvalidKey));
    assert_eq!(ring.len(), 0);
}

#[test]
fn gen_key_twice_gives_two_distinct_entries() {
    let mut ring = KeyRing::new(Vec::new(), "p".to_string());
    assert_eq!(ring.gen_key("one".to_string()), Ok(()));
    assert_eq!(ring.gen_key("two".to_string()), Ok(()));
    assert_eq!(ring.len(), 2);
    let file = ring.clone().to_file();
    let entries = file.key_entries();
    assert_ne!(entries[0].key_id(), entries[1].key_id());
    assert_ne!(entries[0].key(), entries[1].key());
    let reloaded = KeyRing::from_file(KeyRingFile::new(entries.clone(), file.file_path()));
    assert_eq!(reloaded.len(), 2);
    for e in &entries {
        let raw = ring.key(&e.key_id()).unwrap();
        assert_eq!(raw.len(), KEY_LENGTH);
        assert_eq!(reloaded.key(&e.key_id()), Ok(raw.clone()));
        assert_eq!(KeyID::of_key(&raw).as_string(), e.key_id());
    }
}

#[test]
fn save_then_load_keeps_entries() {
    let mut ring = KeyRing::new(Vec::new(), "ring.yaml".to_string());
    for seed in 0..4u8 {
        ring.add_key(format!("k{}", seed), format!("id-{}", seed), &key_bytes(seed));
    }
    let file = ring.clone().to_file();
    assert_eq!(file.file_path(), "ring.yaml");
    assert_eq!(file.key_entries().len(), 4);
    let reloaded = KeyRing::from_file(file);
    assert_eq!(reloaded.len(), 4);
    for seed in 0..4u8 {
        assert_eq!(reloaded.key(&format!("id-{}", seed)), Ok(key_bytes(seed)));
    }
}

#[test]
fn save_then_load_empty_ring() {
    let ring = KeyRing::new(Vec::new(), "empty".to_string());
    let reloaded = KeyRing::from_file(ring.to_file());
    assert_eq!(reloaded.len(), 0);
    assert_eq!(reloaded.file_path(), "empty");
}

#[test]
fn entry_keeps_its_text() {
    let e = KeyEntry::new("desc".to_string(), b"hello", "id".to_string());
    assert_eq!(e.description(), "desc");
    assert_eq!(e.key(), "aGVsbG8=");
    assert_eq!(e.key_id(), "id");
}

#[test]
fn first_key_id_names_first_entry() {
    let mut ring = KeyRing::new(Vec::new(), "p".to_string());
    assert_eq!(ring.first_key_id(), None);
    ring.add_key("a".to_string(), "id-a".to_string(), &key_bytes(1));
    ring.add_key("b".to_string(), "id-b".to_string(), &key_bytes(2));
    assert_eq!(ring.first_key_id(), Some("id-a".to_string()));
}

#[test]
fn load_then_save_keeps_document() {
    let entries: Vec<KeyEntry> = (0..3u8)
        .map(|s| KeyEntry::new(format!("k{}", s), &key_bytes(s), format!("id-{}", 2 - s)))
        .collect();
    let file = KeyRingFile::new(entries.clone(), "doc".to_string());
    let back = KeyRing::from_file(file).to_file();
    let ids: Vec<String> = back.key_entries().iter().map(|e| e.key_id()).collect();
    assert_eq!(ids, vec!["id-2", "id-1", "id-0"]);
    let keys: Vec<String> = back.key_entries().iter().map(|e| e.key()).collect();
    let expected: Vec<String> = entries.iter().map(|e| e.key()).collect();
    assert_eq!(keys, expected);
    assert_eq!(back.file_path(), "doc");
}
