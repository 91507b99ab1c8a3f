//! A portable launcher and runtime core for self-contained 2D game bundles.
//!
//! The crate covers the bundle container format and its integrity checks,
//! the typed asset store, the encrypted save store, the menu state machine
//! of the engine lifecycle, and the input action mapping. The GPU renderer,
//! the audio mixer and the window event source are external collaborators
//! and stay outside the verified core.

use vstd::prelude::*;

mod assets;
mod bundle;
mod crypto;
mod game;
mod input;
mod kvlist;
mod engine;
mod errors;
mod sanitize;
mod manifest;
mod numconv;
mod savebin;
mod saves;
mod strutil;

pub use assets::determine_asset_type;
pub use assets::AssetManager;
pub use assets::parse_wav_header;
pub use assets::AssetListing;
pub use assets::AssetMemoryInfo;
pub use assets::AssetType;
pub use assets::AudioClip;
pub use assets::AudioFormat;
pub use assets::Font;
pub use assets::TextureInfo;
pub use crypto::bytes_to_hex;
pub use crypto::decrypt_data;
pub use crypto::derive_encryption_key;
pub use crypto::encrypt_data;
pub use crypto::hash_data;
pub use crypto::sha256_digest;
pub use engine::handle_key;
pub use engine::lemma_empty_list_enter_is_noop;
pub use engine::lemma_navigation_clamps;
pub use engine::menu_after_unload;
pub use engine::start_loading;
pub use engine::tick;
pub use engine::EngineCmd;
pub use engine::EngineState;
pub use engine::GameEntry;
pub use engine::MenuState;
pub use engine::Theme;
pub use errors::CacaoError;
pub use bundle::encode_gaem_file;
pub use bundle::filter_bundle_names;
pub use bundle::has_bundle_extension;
pub use bundle::GameLoader;
pub use bundle::load_bundle;
pub use bundle::parse_gaem_bytes;
pub use bundle::verify_asset_bytes;
pub use game::Game;
pub use input::GamepadButton;
pub use input::InputButton;
pub use input::InputManager;
pub use input::KeyCode;
pub use input::MouseBtn;
pub use manifest::encode_manifest;
pub use manifest::parse_manifest_json;
pub use manifest::AssetInfo;
pub use manifest::GameInfo;
pub use savebin::parse_save_file;
pub use savebin::parse_value;
pub use savebin::serialize_save_data;
pub use savebin::SaveValue;
pub use saves::SaveInfo;
pub use saves::SaveManager;
pub use saves::SaveStats;
pub use numconv::f64_bits_to_i64_trunc;
pub use numconv::i64_to_f64_bits;
pub use sanitize::sanitize_filename;
pub use sanitize::sanitize_game_id;

verus! {

} // verus!
