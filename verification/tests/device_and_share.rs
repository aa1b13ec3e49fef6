use howmuchiai::collections::StrMap;
use howmuchiai::device_id::{
    device_id_path, hostname_label, is_device_version, is_valid_uuid_v4, load_or_create,
    strip_mdns_suffix,
};
use howmuchiai::platform::Platform;
use howmuchiai::providers::browser::denied_result;
use howmuchiai::scan::{assemble_scan, Outcome};
use howmuchiai::share::{card_url, count_tcc_denied, encode_share_hash};
use howmuchiai::types::{MetaValue, ProviderResult};

#[test]
fn validates_uuid_v4() {
    let v4 = uuid::Uuid::new_v4().to_string();
    assert!(is_valid_uuid_v4(&v4));
}

#[test]
fn rejects_garbage() {
    assert!(!is_valid_uuid_v4(""));
    assert!(!is_valid_uuid_v4("not-a-uuid"));
    assert!(!is_valid_uuid_v4("xxxx"));
}

#[test]
fn strips_mdns_suffix() {
    assert_eq!(strip_mdns_suffix("example-host.local"), "example-host");
    assert_eq!(strip_mdns_suffix("workstation.lan"), "workstation");
    assert_eq!(strip_mdns_suffix("router.home"), "router");
    assert_eq!(strip_mdns_suffix("server.localdomain"), "server");
    assert_eq!(strip_mdns_suffix("plain"), "plain");
    // Case-insensitive on the suffix
    assert_eq!(strip_mdns_suffix("foo.LOCAL"), "foo");
}

#[test]
fn other_versions_are_no_device_ids() {
    assert!(!is_valid_uuid_v4("c232ab00-9414-11ec-b3c8-9f6bdeced846"));
    assert!(is_device_version(Some(4)));
    assert!(!is_device_version(Some(1)));
    assert!(!is_device_version(None));
}

#[test]
fn a_kept_id_is_used_again() {
    let first = load_or_create(None);
    assert!(first.fresh);
    assert!(is_valid_uuid_v4(&first.id));
    assert_eq!(first.to_keep(), Some(first.id.as_str()));
    assert_eq!(first.id.len(), 36);
    let next = load_or_create(first.to_keep());
    assert_eq!(next.id, first.id);
    assert_eq!(next.to_keep(), None);
    let again = load_or_create(Some(&format!("  {}\n", first.id)));
    assert!(!again.fresh);
    assert_eq!(again.id, first.id);
    let broken = load_or_create(Some("broken"));
    assert!(broken.fresh);
    assert_ne!(broken.id, "broken");
}

#[test]
fn the_id_stands_in_the_configuration_directory() {
    assert_eq!(device_id_path("/home/u/.config"), "/home/u/.config/howmuchiai/device_id");
}

#[test]
fn labels_are_trimmed_and_may_be_missing() {
    assert_eq!(hostname_label(Some(" box.local \n")).as_deref(), Some("box"));
    assert_eq!(hostname_label(Some("   ")), None);
    assert_eq!(hostname_label(Some(".local")), None);
    assert_eq!(hostname_label(None), None);
}

#[test]
fn a_share_hash_reads_back() {
    let json = br#"{"schema_version":6,"sources":{}}"#;
    let hash = encode_share_hash(json).expect("hash");
    assert!(hash.chars().all(|c| c.is_ascii_alphanumeric() || c == '-' || c == '_'));
    let gz = base64::Engine::decode(&base64::engine::general_purpose::URL_SAFE_NO_PAD, &hash)
        .expect("base64url");
    assert_eq!(&gz[..2], &[0x1f, 0x8b]);
    let mut out = Vec::new();
    let mut decoder = flate2::read::GzDecoder::new(&gz[..]);
    std::io::Read::read_to_end(&mut decoder, &mut out).expect("gunzip");
    assert_eq!(out, json);
    assert_eq!(encode_share_hash(json).expect("hash"), hash);
}

#[test]
fn a_share_hash_has_a_character_for_every_six_bits() {
    let alphabet = b"ABCDEFGHIJKLMNOPQRSTUVWXYZabcdefghijklmnopqrstuvwxyz0123456789-_";
    for json in ["", "1", "12", "123", "{\"a\":[1,2,3]}", "{\"b\":\"\u{fe}\u{ff}?>~\"}"] {
        let hash = encode_share_hash(json.as_bytes()).expect("hash");
        let gz = base64::Engine::decode(&base64::engine::general_purpose::URL_SAFE_NO_PAD, &hash)
            .expect("base64url");
        let byte = |k: usize| gz.get(k).copied().unwrap_or(0) as usize;
        let expected: String = (0..(gz.len() * 8 + 5) / 6)
            .map(|i| {
                let two = byte(i * 6 / 8) * 256 + byte(i * 6 / 8 + 1);
                alphabet[two / [1024, 16, 64, 256][i % 4] % 64] as char
            })
            .collect();
        assert_eq!(hash, expected);
        assert!(hash.starts_with("H4sI"));
    }
}

#[test]
fn a_card_stands_below_the_website() {
    assert_eq!(card_url(Some("abc".to_string())), "https://howmuchiai.xyz/c/abc");
    assert_eq!(card_url(None), "https://howmuchiai.xyz/c/");
}

#[test]
fn denied_providers_are_counted() {
    let denied = denied_result("Safari");
    assert!(denied.hours.is_none() && denied.visits.is_none());
    let mut other = ProviderResult::new("Other");
    let mut metadata = StrMap::new();
    metadata.insert("skipped".to_string(), MetaValue::Text("elsewhere".to_string()));
    other.metadata = Some(metadata);
    let scan = assemble_scan(
        "t".into(),
        Platform::MacOs,
        0,
        "id".into(),
        None,
        vec![
            Outcome { name: "safari_browser".into(), result: Some(denied) },
            Outcome { name: "other".into(), result: Some(other) },
        ],
        vec![],
    );
    assert_eq!(count_tcc_denied(&scan), 1);
}
