use cacao_engine::{determine_asset_type, parse_wav_header, AssetManager, AssetType, AudioFormat, CacaoError};

fn wav_header(channels: u16, rate: u32) -> Vec<u8> {
    let mut d = vec![0u8; 44];
    d[0..4].copy_from_slice(b"RIFF");
    d[8..12].copy_from_slice(b"WAVE");
    d[22..24].copy_from_slice(&channels.to_le_bytes());
    d[24..28].copy_from_slice(&rate.to_le_bytes());
    d
}

#[test]
fn wav_header_peek_reads_rate_and_channels() {
    let d = wav_header(2, 48000);
    assert_eq!(parse_wav_header(&d).unwrap(), (48000, 2));
}

#[test]
fn wav_header_peek_rejects_short_input() {
    let r = parse_wav_header(&[0u8; 8]);
    match r {
        Err(CacaoError::AudioError(m)) => assert!(m.contains("too short")),
        _ => panic!("expected an audio error"),
    }
}

#[test]
fn wav_header_peek_rejects_bad_magic() {
    let mut d = wav_header(2, 44100);
    d[0] = b'X';
    assert!(parse_wav_header(&d).is_err());
    let mut d2 = wav_header(2, 44100);
    d2[8] = b'X';
    assert!(parse_wav_header(&d2).is_err());
}

#[test]
fn asset_type_follows_the_extension() {
    assert!(matches!(determine_asset_type("a.png"), Some(AssetType::Sprite)));
    assert!(matches!(determine_asset_type("b.WAV"), Some(AssetType::Audio)));
    assert!(matches!(determine_asset_type("c.lua"), Some(AssetType::Script)));
    assert!(matches!(determine_asset_type("d.ttf"), Some(AssetType::Font)));
    assert!(matches!(determine_asset_type("e.json"), Some(AssetType::Data)));
    assert!(determine_asset_type("noext").is_none());
    assert!(determine_asset_type(".hidden").is_none());
    assert!(determine_asset_type("f.exe").is_none());
}

#[test]
fn store_keeps_scripts_fonts_and_data() {
    let mut store = AssetManager::new();
    store.load_asset("main.lua".to_string(), b"print(1)".to_vec(), AssetType::Script).unwrap();
    store.load_asset("font.ttf".to_string(), vec![1, 2, 3], AssetType::Font).unwrap();
    store.load_asset("level.json".to_string(), vec![9, 9], AssetType::Data).unwrap();
    assert_eq!(store.get_script("main").unwrap(), "print(1)");
    let font = store.get_font("font").unwrap();
    assert_eq!(font.name, "font");
    assert_eq!(font.data, vec![1, 2, 3]);
    assert_eq!(store.get_data_file("level").unwrap(), &vec![9, 9]);
    assert!(store.get_script("other").is_none());
    assert!(store.get_script("main.lua").is_none());
    let listing = store.list_assets();
    assert_eq!(listing.scripts, vec!["main".to_string()]);
    store.clear_assets();
    assert!(store.get_script("main").is_none());
}

#[test]
fn store_decodes_wav_audio_and_defaults_other_formats() {
    let mut store = AssetManager::new();
    store.load_asset("s.wav".to_string(), wav_header(2, 48000), AssetType::Audio).unwrap();
    let clip = store.get_audio_clip("s").unwrap();
    assert!(matches!(clip.format, AudioFormat::Wav));
    assert_eq!(clip.sample_rate, 48000);
    assert_eq!(clip.channels, 2);
    store.load_asset("m.ogg".to_string(), vec![0, 1], AssetType::Audio).unwrap();
    let ogg = store.get_audio_clip("m").unwrap();
    assert!(matches!(ogg.format, AudioFormat::Ogg));
    assert_eq!(ogg.sample_rate, 44100);
    assert_eq!(ogg.channels, 2);
    assert!(store.load_asset("x.txt".to_string(), vec![], AssetType::Audio).is_err());
    assert!(store.load_asset("short.wav".to_string(), vec![1, 2], AssetType::Audio).is_err());
}

#[test]
fn sprite_load_needs_a_renderer() {
    let mut store = AssetManager::new();
    let r = store.load_asset("p.png".to_string(), vec![1], AssetType::Sprite);
    match r {
        Err(CacaoError::RenderError(m)) => assert!(m.contains("renderer context")),
        _ => panic!("expected a render error"),
    }
}

#[test]
fn memory_accounting_sums_per_kind() {
    let mut store = AssetManager::new();
    store.load_asset("a.lua".to_string(), b"12345".to_vec(), AssetType::Script).unwrap();
    store.load_asset("b.ttf".to_string(), vec![0; 7], AssetType::Font).unwrap();
    store.load_asset("c.json".to_string(), vec![0; 11], AssetType::Data).unwrap();
    store.load_asset("d.ogg".to_string(), vec![0; 3], AssetType::Audio).unwrap();
    let usage = store.get_memory_usage();
    assert_eq!(usage.script_memory, 5);
    assert_eq!(usage.font_memory, 7);
    assert_eq!(usage.data_memory, 11);
    assert_eq!(usage.audio_memory, 3);
    assert_eq!(usage.sprite_memory, 0);
    assert_eq!(usage.texture_memory, 0);
    assert_eq!(usage.total_memory, 26);
}
