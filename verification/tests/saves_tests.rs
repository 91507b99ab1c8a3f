use cacao_engine::{decrypt_data, derive_encryption_key, encrypt_data, hash_data, parse_save_file, parse_value, serialize_save_data, CacaoError, SaveManager, SaveValue};

fn bound_store(key: &str) -> SaveManager {
    let mut saves = SaveManager::new("saves".to_string());
    saves.set_game_context("game-1".to_string(), key, None).unwrap();
    saves
}

#[test]
fn write_read_exists_remove_clear() {
    let mut saves = bound_store("k1");
    saves.write("score".to_string(), SaveValue::Integer(42)).unwrap();
    assert!(saves.contains_key("score"));
    assert!(matches!(saves.read("score"), Some(SaveValue::Integer(42))));
    assert!(matches!(saves.remove("score"), Some(SaveValue::Integer(42))));
    assert!(!saves.contains_key("score"));
    saves.write("a".to_string(), SaveValue::Boolean(true)).unwrap();
    saves.clear();
    assert!(!saves.contains_key("a"));
}

#[test]
fn write_without_context_is_refused() {
    let mut saves = SaveManager::new("saves".to_string());
    assert!(matches!(
        saves.write("k".to_string(), SaveValue::Integer(1)),
        Err(CacaoError::CryptoError(_))
    ));
}

#[test]
fn typed_reads_coerce_between_int_and_float() {
    let mut saves = bound_store("k1");
    saves.write_int("i".to_string(), 42).unwrap();
    saves.write_float_bits("f".to_string(), (7.9f64).to_bits()).unwrap();
    saves.write_float_bits("fneg".to_string(), (-7.9f64).to_bits()).unwrap();
    saves.write_bool("b".to_string(), true).unwrap();
    saves.write_string("s".to_string(), "hello".to_string()).unwrap();
    // same-type reads
    assert_eq!(saves.read_int("i", 0), 42);
    assert_eq!(saves.read_bool("b", false), true);
    assert_eq!(saves.read_string("s", "d"), "hello");
    // float reads back as its bits
    assert_eq!(saves.read_float_bits("f", 0), (7.9f64).to_bits());
    // cross-type: float truncates toward zero
    assert_eq!(saves.read_int("f", 0), 7);
    assert_eq!(saves.read_int("fneg", 0), -7);
    // cross-type: int converts to the nearest double
    assert_eq!(saves.read_float_bits("i", 0), (42f64).to_bits());
    // other cross-type reads give the default
    assert_eq!(saves.read_int("s", -1), -1);
    assert_eq!(saves.read_bool("i", false), false);
    assert_eq!(saves.read_string("i", "d"), "d");
    // absent keys give the default
    assert_eq!(saves.read_int("missing", 5), 5);
}

#[test]
fn int_to_double_conversion_matches_the_platform_for_large_values() {
    let mut saves = bound_store("k1");
    for &v in &[0i64, 1, -1, 42, i64::MAX, i64::MIN, 9007199254740993, -9007199254740995, 6917529027641081855] {
        saves.write_int("v".to_string(), v).unwrap();
        assert_eq!(saves.read_float_bits("v", 0), (v as f64).to_bits(), "value {v}");
    }
}

#[test]
fn double_truncation_matches_the_platform() {
    let mut saves = bound_store("k1");
    for &f in &[0.0f64, 0.5, -0.5, 1.999, -1.999, 1e18, -1e18, 1e300, -1e300, f64::NAN, f64::INFINITY, f64::NEG_INFINITY] {
        saves.write_float_bits("f".to_string(), f.to_bits()).unwrap();
        assert_eq!(saves.read_int("f", 0), f as i64, "value {f}");
    }
}

#[test]
fn increment_and_toggle_report_the_new_value() {
    let mut saves = bound_store("k1");
    assert_eq!(saves.increment_int("n".to_string(), 5).unwrap(), 5);
    assert_eq!(saves.increment_int("n".to_string(), -2).unwrap(), 3);
    assert_eq!(saves.toggle_bool("t".to_string()).unwrap(), true);
    assert_eq!(saves.toggle_bool("t".to_string()).unwrap(), false);
}

#[test]
fn value_encoding_reads_back_every_variant() {
    let value = SaveValue::Object(vec![
        ("name".to_string(), SaveValue::String("hé\"llo\\\n".to_string())),
        ("n".to_string(), SaveValue::Integer(-7)),
        ("x".to_string(), SaveValue::Float((2.5f64).to_bits())),
        ("flag".to_string(), SaveValue::Boolean(false)),
        ("list".to_string(), SaveValue::Array(vec![SaveValue::Integer(1), SaveValue::Boolean(true)])),
    ]);
    let entries = vec![("root".to_string(), value)];
    let bytes = serialize_save_data(&entries);
    // the payload opens with the entry count
    assert_eq!(&bytes[0..8], &1u64.to_le_bytes());
    // read the root value back: skip count, key length, key bytes
    let key_len = u64::from_le_bytes(bytes[8..16].try_into().unwrap()) as usize;
    assert_eq!(&bytes[16..16 + key_len], b"root");
    let (v, end) = parse_value(&bytes, 16 + key_len).unwrap();
    assert_eq!(end, bytes.len());
    match v {
        SaveValue::Object(fields) => {
            assert_eq!(fields.len(), 5);
            assert_eq!(fields[0].0, "name");
            assert!(matches!(&fields[0].1, SaveValue::String(s) if s == "hé\"llo\\\n"));
            assert!(matches!(fields[1].1, SaveValue::Integer(-7)));
            assert!(matches!(fields[2].1, SaveValue::Float(b) if b == (2.5f64).to_bits()));
            assert!(matches!(fields[3].1, SaveValue::Boolean(false)));
            assert!(matches!(&fields[4].1, SaveValue::Array(a) if a.len() == 2));
        },
        _ => panic!("expected the object back"),
    }
}

#[test]
fn save_file_round_trips_across_sessions() {
    let mut saves = bound_store("k1");
    saves.write_int("score".to_string(), 42).unwrap();
    let cipher = saves.encode_save_file(1700000000).unwrap();

    let mut second = SaveManager::new("saves".to_string());
    second.set_game_context("game-1".to_string(), "k1", Some(&cipher)).unwrap();
    assert_eq!(second.read_int("score", 0), 42);
}

#[test]
fn wrong_key_yields_an_empty_map_and_an_error() {
    let mut saves = bound_store("k1");
    saves.write_int("score".to_string(), 42).unwrap();
    let cipher = saves.encode_save_file(1700000000).unwrap();

    let mut second = SaveManager::new("saves".to_string());
    let r = second.set_game_context("game-1".to_string(), "k2", Some(&cipher));
    assert!(matches!(r, Err(CacaoError::CryptoError(_))));
    assert!(!second.contains_key("score"));
}

#[test]
fn wrong_game_id_is_refused() {
    let mut saves = bound_store("k1");
    saves.write_int("score".to_string(), 42).unwrap();
    let cipher = saves.encode_save_file(1700000000).unwrap();

    let mut second = SaveManager::new("saves".to_string());
    let r = second.set_game_context("game-2".to_string(), "k1", Some(&cipher));
    assert!(matches!(r, Err(CacaoError::CryptoError(_))));
}

#[test]
fn mismatched_embedded_checksum_is_refused() {
    // Assemble a record whose ciphertext is intact but whose checksum field
    // disagrees with the hash of the serialized data payload.
    let entries = vec![("score".to_string(), SaveValue::Integer(42))];
    let data = serialize_save_data(&entries);
    let good = hash_data(&data);
    let bad: String = good.chars().rev().collect();
    assert_ne!(good, bad);

    let mut plain: Vec<u8> = Vec::new();
    plain.extend_from_slice(&1u32.to_le_bytes());
    plain.extend_from_slice(&(b"game-1".len() as u64).to_le_bytes());
    plain.extend_from_slice(b"game-1");
    plain.extend_from_slice(&data);
    plain.extend_from_slice(&(bad.len() as u64).to_le_bytes());
    plain.extend_from_slice(bad.as_bytes());
    plain.extend_from_slice(&1700000000u64.to_le_bytes());
    // sanity: the record itself is well-formed
    assert!(parse_save_file(&plain).is_some());

    let key = derive_encryption_key("k1");
    let cipher = encrypt_data(&plain, &key).unwrap();
    assert!(decrypt_data(&cipher, &key).is_ok());

    let mut second = SaveManager::new("saves".to_string());
    let r = second.set_game_context("game-1".to_string(), "k1", Some(&cipher));
    match r {
        Err(CacaoError::CryptoError(m)) => assert!(m.contains("checksum mismatch")),
        _ => panic!("expected the checksum error"),
    }
}

#[test]
fn later_duplicate_keys_win_when_a_record_is_installed() {
    let entries = vec![
        ("k".to_string(), SaveValue::Integer(1)),
        ("k".to_string(), SaveValue::Integer(2)),
    ];
    let data = serialize_save_data(&entries);
    let checksum = hash_data(&data);
    let mut plain: Vec<u8> = Vec::new();
    plain.extend_from_slice(&1u32.to_le_bytes());
    plain.extend_from_slice(&(b"g".len() as u64).to_le_bytes());
    plain.extend_from_slice(b"g");
    plain.extend_from_slice(&data);
    plain.extend_from_slice(&(checksum.len() as u64).to_le_bytes());
    plain.extend_from_slice(checksum.as_bytes());
    plain.extend_from_slice(&0u64.to_le_bytes());
    let key = derive_encryption_key("k1");
    let cipher = encrypt_data(&plain, &key).unwrap();
    let mut saves = SaveManager::new("saves".to_string());
    saves.set_game_context("g".to_string(), "k1", Some(&cipher)).unwrap();
    assert_eq!(saves.read_int("k", 0), 2);
}

#[test]
fn save_paths_follow_the_sanitized_game_id() {
    let saves = SaveManager::new("saves".to_string());
    assert_eq!(saves.get_save_file_path("my game"), "saves/my_game_saves/save.dat");
}
