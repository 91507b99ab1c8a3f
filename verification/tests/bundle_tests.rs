use cacao_engine::{encode_gaem_file, encode_manifest, filter_bundle_names, has_bundle_extension, hash_data, load_bundle, parse_gaem_bytes, parse_manifest_json, AssetInfo, AssetManager, AssetType, CacaoError, Game, GameInfo};

fn demo_manifest(script: &[u8]) -> GameInfo {
    let mut info = GameInfo::new("Demo Game".to_string(), "The Author".to_string());
    info.description = "A demo".to_string();
    info.set_secret_key("default_key");
    info.required_assets.push(AssetInfo {
        path: "main.lua".to_string(),
        checksum: hash_data(script),
        size: script.len() as u64,
        asset_type: AssetType::Script,
    });
    info
}

fn assert_same_manifest(a: &GameInfo, b: &GameInfo) {
    assert_eq!(a.id, b.id);
    assert_eq!(a.title, b.title);
    assert_eq!(a.author, b.author);
    assert_eq!(a.version, b.version);
    assert_eq!(a.description, b.description);
    assert_eq!(a.secret_key_hash, b.secret_key_hash);
    assert_eq!(a.entry_point, b.entry_point);
    assert_eq!(a.engine_version, b.engine_version);
    assert_eq!(a.required_assets.len(), b.required_assets.len());
    for (x, y) in a.required_assets.iter().zip(b.required_assets.iter()) {
        assert_eq!(x.path, y.path);
        assert_eq!(x.checksum, y.checksum);
        assert_eq!(x.size, y.size);
        assert_eq!(format!("{:?}", x.asset_type), format!("{:?}", y.asset_type));
    }
}

#[test]
fn manifest_json_round_trips() {
    let info = demo_manifest(b"print('hi')");
    let json = encode_manifest(&info);
    let back = parse_manifest_json(&json).unwrap();
    assert_same_manifest(&info, &back);
}

#[test]
fn manifest_json_round_trips_with_escapes_and_unicode() {
    let mut info = demo_manifest(b"x");
    info.title = "Quote\" Back\\slash \n\t ünïcödé".to_string();
    info.description = "\u{1}\u{1f}".to_string();
    let json = encode_manifest(&info);
    let back = parse_manifest_json(&json).unwrap();
    assert_same_manifest(&info, &back);
}

#[test]
fn manifest_json_is_plain_canonical_json() {
    let mut info = demo_manifest(b"x");
    info.title = "T".to_string();
    let json = String::from_utf8(encode_manifest(&info)).unwrap();
    assert!(json.starts_with("{\"id\":\""));
    assert!(json.contains("\"title\":\"T\""));
    assert!(json.contains("\"asset_type\":\"Script\""));
    assert!(json.ends_with("\"}"));
}

#[test]
fn container_round_trips() {
    let info = demo_manifest(b"print('hi')");
    let file = encode_gaem_file(&info).unwrap();
    assert_eq!(&file[0..4], b"GAEM");
    assert_eq!(&file[4..6], &[1, 0]);
    let back = parse_gaem_bytes(&file).unwrap();
    assert_same_manifest(&info, &back);
}

#[test]
fn container_rejects_bad_magic_version_and_truncation() {
    let info = demo_manifest(b"x");
    let file = encode_gaem_file(&info).unwrap();
    let mut bad_magic = file.clone();
    bad_magic[0] = b'X';
    assert!(matches!(parse_gaem_bytes(&bad_magic), Err(CacaoError::GameLoadError(_))));
    let mut bad_version = file.clone();
    bad_version[4] = 2;
    assert!(matches!(parse_gaem_bytes(&bad_version), Err(CacaoError::GameLoadError(_))));
    assert!(parse_gaem_bytes(&file[0..8]).is_err());
    let mut truncated = file.clone();
    truncated.truncate(file.len() - 1);
    assert!(parse_gaem_bytes(&truncated).is_err());
    let mut garbled = file.clone();
    garbled[12] ^= 0xff;
    assert!(parse_gaem_bytes(&garbled).is_err());
}

#[test]
fn bundle_extension_filter() {
    assert!(has_bundle_extension("demo.gaem"));
    assert!(!has_bundle_extension("demo.gae"));
    assert!(!has_bundle_extension("demo.gaemx"));
    assert!(!has_bundle_extension("gaem"));
    assert!(!has_bundle_extension(".gaem"));
    let names = vec!["a.gaem".to_string(), "b.txt".to_string(), "c.gaem".to_string()];
    let found = filter_bundle_names(&names);
    assert_eq!(found, vec!["a.gaem".to_string(), "c.gaem".to_string()]);
}

#[test]
fn load_succeeds_when_every_checksum_matches() {
    let script = b"function init() end".to_vec();
    let info = demo_manifest(&script);
    let data = vec![("main.lua".to_string(), script.clone())];
    let mut store = AssetManager::new();
    load_bundle(&info, &data, &mut store).unwrap();
    assert_eq!(store.get_script("main").unwrap(), "function init() end");
}

#[test]
fn a_flipped_byte_fails_the_load_and_clears_the_store() {
    let script = b"function init() end".to_vec();
    let info = demo_manifest(&script);
    let mut corrupted = script.clone();
    corrupted[0] ^= 0x01;
    let data = vec![("main.lua".to_string(), corrupted)];
    let mut store = AssetManager::new();
    let r = load_bundle(&info, &data, &mut store);
    match r {
        Err(CacaoError::GameLoadError(m)) => assert!(m.contains("checksum mismatch")),
        _ => panic!("expected the checksum error"),
    }
    assert!(store.get_script("main").is_none());
    assert!(store.list_assets().scripts.is_empty());
}

#[test]
fn a_missing_asset_fails_the_load() {
    let info = demo_manifest(b"x");
    let data: Vec<(String, Vec<u8>)> = Vec::new();
    let mut store = AssetManager::new();
    assert!(load_bundle(&info, &data, &mut store).is_err());
}

#[test]
fn secret_key_gate_accepts_exactly_the_right_key() {
    let mut info = GameInfo::new("G".to_string(), "A".to_string());
    info.set_secret_key("k1");
    assert!(info.verify_secret_key("k1"));
    assert!(!info.verify_secret_key("k2"));
    assert!(!info.verify_secret_key(""));
}

#[test]
fn guest_initialize_requires_the_secret_key() {
    let mut info = GameInfo::new("G".to_string(), "A".to_string());
    info.set_secret_key("default_key");
    let mut game = Game::new(info.clone(), "games/G".to_string());
    let r = game.initialize("wrong".to_string(), "function init() end");
    match r {
        Err(CacaoError::GameLoadError(m)) => assert!(m.contains("Invalid secret key")),
        _ => panic!("expected the key error"),
    }
    assert!(!game.initialized);

    let mut game2 = Game::new(info, "games/G".to_string());
    game2.initialize("default_key".to_string(), "ran = false\nfunction init() ran = true end").unwrap();
    assert!(game2.initialized);
    assert!(game2.render().is_ok());
}

#[test]
fn guest_script_errors_surface_by_phase() {
    let mut info = GameInfo::new("G".to_string(), "A".to_string());
    info.set_secret_key("k");
    let mut game = Game::new(info.clone(), "g".to_string());
    assert!(matches!(
        game.initialize("k".to_string(), "this is not lua"),
        Err(CacaoError::ScriptError(_))
    ));
    let mut game2 = Game::new(info.clone(), "g".to_string());
    assert!(matches!(
        game2.initialize("k".to_string(), "function init() error('boom') end"),
        Err(CacaoError::ScriptError(_))
    ));
    let mut game3 = Game::new(info, "g".to_string());
    game3.initialize("k".to_string(), "function render() error('boom') end").unwrap();
    assert!(matches!(game3.render(), Err(CacaoError::ScriptError(_))));
}

#[test]
fn fresh_manifests_carry_defaults() {
    let info = GameInfo::new("T".to_string(), "A".to_string());
    assert_eq!(info.title, "T");
    assert_eq!(info.author, "A");
    assert_eq!(info.version, "1.0.0");
    assert_eq!(info.entry_point, "main.lua");
    assert!(info.required_assets.is_empty());
    let other = GameInfo::new("T".to_string(), "A".to_string());
    assert_ne!(info.id, other.id);
    assert_eq!(info.id.len(), 36);
}

#[test]
fn loader_paths_are_rooted_at_the_games_directory() {
    let loader = cacao_engine::GameLoader::new("games".to_string());
    assert_eq!(loader.bundle_path("demo.gaem"), "games/demo.gaem");
    let info = GameInfo::new("Demo Game".to_string(), "A".to_string());
    assert_eq!(loader.game_folder_path(&info), "games/Demo_Game");
}

#[test]
fn manifest_reader_accepts_short_string_escapes() {
    // The writer escapes control characters as \u00XX; the reader also
    // accepts the short JSON escapes for the same characters.
    let mut info = demo_manifest(b"x");
    info.title = "a\nb\tc".to_string();
    let json = String::from_utf8(encode_manifest(&info)).unwrap();
    assert!(json.contains("a\\u000ab\\u0009c"));
    let short = json.replace("a\\u000ab\\u0009c", "a\\nb\\tc");
    assert_ne!(json, short);
    let back = parse_manifest_json(short.as_bytes()).unwrap();
    assert_eq!(back.title, "a\nb\tc");
}
