//! The bundle container: the `GAEM` framing around the JSON manifest, the
//! secret-key gate, and the integrity-checked load of a bundle's assets
//! into the asset store.

use vstd::prelude::*;
use vstd::string::StrSliceExecFns;
use vstd::string::StringExecFns;
use vstd::utf8::encode_utf8;

use crate::assets::AssetManager;
use crate::crypto::hash_data;
use crate::crypto::sha256_hex_of;
use crate::errors::CacaoError;
use crate::kvlist::has_key;
use crate::kvlist::kv_get;
use crate::kvlist::str_eq;
use crate::kvlist::value_sel;
use crate::manifest::encode_manifest;
use crate::manifest::json_manifest;
use crate::manifest::parse_manifest_json;
use crate::manifest::sp_manifest;
use crate::manifest::GameInfo;
use crate::manifest::ManifestView;
use crate::savebin::u32_le;
use crate::savebin::u32_from_le;

verus! {

/// The magic bytes `GAEM` that open a container.
pub open spec fn gaem_magic() -> Seq<u8> {
    seq![0x47u8, 0x41u8, 0x45u8, 0x4du8]
}

/// The container framing: magic, a 16-bit format version of 1, the 32-bit
/// manifest length, and the manifest's JSON bytes, all little endian.
pub open spec fn gaem_enc(json: Seq<u8>) -> Seq<u8> {
    gaem_magic() + seq![1u8, 0u8] + u32_le(json.len() as u32) + json
}

/// What a container parses to: the manifest, when the magic, version,
/// declared length and JSON all check out.
pub open spec fn sp_gaem(b: Seq<u8>) -> Option<ManifestView> {
    if b.len() < 10 {
        None
    } else if b.subrange(0, 4) != gaem_magic() {
        None
    } else if b[4] != 1 || b[5] != 0 {
        None
    } else {
        let h = u32_from_le(b.subrange(6, 10)) as int;
        if b.len() < 10 + h {
            None
        } else {
            sp_manifest(b.subrange(10, 10 + h))
        }
    }
}

impl GameInfo {
    /// A fresh manifest with a random identifier and default metadata.
    pub fn new(title: String, author: String) -> (r: Self)
        ensures
            r.title == title,
            r.author == author,
            r.version@ == "1.0.0"@,
            r.description@ == Seq::<char>::empty(),
            r.secret_key_hash@ == Seq::<char>::empty(),
            r.entry_point@ == "main.lua"@,
            r.required_assets@.len() == 0,
            r.engine_version@ == "1.0.0"@,
    {
        GameInfo {
            id: new_uuid_string(),
            title,
            author,
            version: String::from_str("1.0.0"),
            description: String::new(),
            secret_key_hash: String::new(),
            entry_point: String::from_str("main.lua"),
            required_assets: Vec::new(),
            engine_version: String::from_str("1.0.0"),
        }
    }

    /// Stores the hex SHA-256 of the unlock key.
    pub fn set_secret_key(&mut self, key: &str)
        ensures
            final(self).secret_key_hash@ == sha256_hex_of(encode_utf8(key@)),
            final(self).id == old(self).id,
            final(self).title == old(self).title,
            final(self).author == old(self).author,
            final(self).version == old(self).version,
            final(self).description == old(self).description,
            final(self).entry_point == old(self).entry_point,
            final(self).required_assets == old(self).required_assets,
            final(self).engine_version == old(self).engine_version,
    {
        self.secret_key_hash = hash_data(key.as_bytes());
    }

    /// Whether `key` hashes to the stored unlock hash.
    pub fn verify_secret_key(&self, key: &str) -> (r: bool)
        ensures
            r == (sha256_hex_of(encode_utf8(key@)) == self.secret_key_hash@),
    {
        let computed = hash_data(key.as_bytes());
        str_eq(computed.as_str(), self.secret_key_hash.as_str())
    }
}

/// Relies on uuid::Uuid::new_v4 and Uuid::to_string: a fresh random
/// identifier in hyphenated text form; nothing is promised of its value.
#[verifier::external_body]
fn new_uuid_string() -> String {
    uuid::Uuid::new_v4().to_string()
}

/// Serializes a manifest into a complete container file. Fails only when
/// the manifest's JSON is too long for the 32-bit length field.
pub fn encode_gaem_file(info: &GameInfo) -> (r: Result<Vec<u8>, CacaoError>)
    ensures
        r is Ok <==> json_manifest(info@).len() <= u32::MAX,
        r matches Ok(c) ==> c@ == gaem_enc(json_manifest(info@)),
        r matches Err(e) ==> e is GameLoadError,
{
    let json = encode_manifest(info);
    if json.len() > 0xffffffffusize {
        return Err(CacaoError::GameLoadError(String::from_str("Manifest too large")));
    }
    let mut out: Vec<u8> = Vec::new();
    out.push(0x47);
    out.push(0x41);
    out.push(0x45);
    out.push(0x4d);
    out.push(1);
    out.push(0);
    crate::savebin::push_u32_le(&mut out, json.len() as u32);
    let mut payload = json;
    out.append(&mut payload);
    proof {
        assert(out@ =~= gaem_enc(json_manifest(info@)));
    }
    Ok(out)
}

/// Deserializes a container file: checks the magic and version, reads the
/// declared manifest length, and decodes the JSON payload. Each failure
/// reports what was malformed.
pub fn parse_gaem_bytes(b: &[u8]) -> (r: Result<GameInfo, CacaoError>)
    ensures
        r is Ok <==> sp_gaem(b@) is Some,
        r matches Ok(g) ==> sp_gaem(b@) == Some(g@),
        r matches Err(e) ==> e is GameLoadError || e is IoError,
{
    if b.len() < 10 {
        return Err(CacaoError::IoError(String::from_str("Bundle file is too short")));
    }
    if !(b[0] == 0x47 && b[1] == 0x41 && b[2] == 0x45 && b[3] == 0x4d) {
        proof {
            if b@.subrange(0, 4) == gaem_magic() {
                assert(b@.subrange(0, 4)[0] == 0x47);
                assert(b@.subrange(0, 4)[1] == 0x41);
                assert(b@.subrange(0, 4)[2] == 0x45);
                assert(b@.subrange(0, 4)[3] == 0x4d);
            }
        }
        return Err(CacaoError::GameLoadError(String::from_str("Invalid .gaem file format")));
    }
    proof {
        assert(b@.subrange(0, 4) =~= gaem_magic());
    }
    if !(b[4] == 1 && b[5] == 0) {
        return Err(CacaoError::GameLoadError(String::from_str("Unsupported .gaem version")));
    }
    let h32 = (b[6] as u32) | ((b[7] as u32) << 8u32) | ((b[8] as u32) << 16u32) | ((b[9] as u32)
        << 24u32);
    proof {
        let s = b@.subrange(6, 10);
        assert(s[0] == b@[6] && s[1] == b@[7] && s[2] == b@[8] && s[3] == b@[9]);
    }
    if (h32 as u64) > (b.len() - 10) as u64 {
        return Err(CacaoError::IoError(String::from_str("Bundle file is truncated")));
    }
    let h = h32 as usize;
    let payload = vstd::slice::slice_to_vec(&b[10..10 + h]);
    match parse_manifest_json(payload.as_slice()) {
        Some(info) => Ok(info),
        None => Err(CacaoError::GameLoadError(String::from_str("Failed to parse game info"))),
    }
}

/// A container written by this crate reads back to the manifest it was
/// written from, whenever the manifest's JSON fits the length field.
pub proof fn lemma_bundle_round_trip(m: ManifestView)
    requires
        json_manifest(m).len() <= u32::MAX,
    ensures
        sp_gaem(gaem_enc(json_manifest(m))) == Some(m),
{
    let json = json_manifest(m);
    let b = gaem_enc(json);
    assert(b.len() == 10 + json.len());
    assert(b.subrange(0, 4) =~= gaem_magic());
    assert(b[4] == 1 && b[5] == 0);
    assert(b.subrange(6, 10) =~= u32_le(json.len() as u32));
    crate::savebin::lemma_u32_le_inverse(json.len() as u32);
    assert(b.subrange(10, 10 + json.len() as int) =~= json);
    crate::manifest::lemma_manifest_round_trip(m);
}

/// Whether a directory entry's name carries the bundle extension.
pub fn has_bundle_extension(name: &str) -> (r: bool)
    ensures
        r == (crate::assets::spec_extension(name@) == Some(seq!['g', 'a', 'e', 'm'])),
{
    let start = crate::assets::find_ext_start_pub(name);
    if start < 2 {
        return false;
    }
    let n = name.unicode_len();
    if n - start != 4 {
        proof {
            assert(crate::assets::spec_extension(name@).unwrap().len() == n - start);
        }
        return false;
    }
    let c0 = name.get_char(start);
    let c1 = name.get_char(start + 1);
    let c2 = name.get_char(start + 2);
    let c3 = name.get_char(start + 3);
    let r = c0 == 'g' && c1 == 'a' && c2 == 'e' && c3 == 'm';
    proof {
        let e = crate::assets::spec_extension(name@).unwrap();
        assert(e =~= name@.subrange(start as int, n as int));
        assert(e[0] == name@[start as int] && e[1] == name@[start + 1] && e[2] == name@[start + 2]
            && e[3] == name@[start + 3]);
        if r {
            assert(e =~= seq!['g', 'a', 'e', 'm']);
        }
        if e == seq!['g', 'a', 'e', 'm'] {
            assert(e[0] == 'g' && e[1] == 'a' && e[2] == 'e' && e[3] == 'm');
        }
    }
    r
}

/// Verifies one asset's bytes against its recorded SHA-256 checksum.
pub fn verify_asset_bytes(bytes: &[u8], info: &crate::manifest::AssetInfo) -> (r: Result<
    (),
    CacaoError,
>)
    ensures
        r is Ok <==> sha256_hex_of(bytes@) == info.checksum@,
        r matches Err(e) ==> e is GameLoadError,
{
    let computed = hash_data(bytes);
    if str_eq(computed.as_str(), info.checksum.as_str()) {
        Ok(())
    } else {
        Err(CacaoError::GameLoadError(String::from_str("Asset checksum mismatch")))
    }
}

/// Every required asset's bytes are present and hash to the recorded
/// checksum.
pub open spec fn all_assets_verified(
    info: &GameInfo,
    data: Seq<(String, Vec<u8>)>,
) -> bool {
    forall|i: int|
        0 <= i < info.required_assets@.len() ==> {
            let a = #[trigger] info.required_assets@[i];
            has_key(data, a.path@) && sha256_hex_of(value_sel(data, a.path@)@) == a.checksum@
        }
}

/// Whether a name carries the bundle extension.
pub open spec fn is_bundle_name(s: String) -> bool {
    crate::assets::spec_extension(s@) == Some(seq!['g', 'a', 'e', 'm'])
}

/// The store can materialize this asset from these bytes: sprites need a
/// GPU device the core lacks; audio needs a known extension and, for WAV
/// data, a well-formed header; scripts must be valid UTF-8.
pub open spec fn asset_loadable(a: crate::manifest::AssetView, bytes: Seq<u8>) -> bool {
    let name = crate::assets::path_file_name(a.path);
    match a.asset_type {
        crate::assets::AssetType::Sprite => false,
        crate::assets::AssetType::Audio => match crate::assets::audio_format_for(name) {
            Option::None => false,
            Option::Some(f) => !(f is Wav) || crate::assets::wav_header_ok(bytes),
        },
        crate::assets::AssetType::Script => vstd::utf8::valid_utf8(bytes),
        crate::assets::AssetType::Font => true,
        crate::assets::AssetType::Data => true,
    }
}

/// Every required asset is present, hashes to its recorded checksum, and
/// can be materialized by the store.
pub open spec fn bundle_loadable(info: &GameInfo, data: Seq<(String, Vec<u8>)>) -> bool {
    forall|i: int|
        0 <= i < info.required_assets@.len() ==> {
            let a = #[trigger] info.required_assets@[i];
            has_key(data, a.path@) && sha256_hex_of(value_sel(data, a.path@)@) == a.checksum@
                && asset_loadable(a@, value_sel(data, a.path@)@)
        }
}

/// The registry key an asset is stored under: the stem of its file name.
pub open spec fn asset_store_key(a: crate::manifest::AssetView) -> Seq<char> {
    crate::assets::spec_stem(crate::assets::path_file_name(a.path))
}

/// The asset stands in the registry of its kind.
pub open spec fn stored_in(store: &AssetManager, a: crate::manifest::AssetView) -> bool {
    match a.asset_type {
        crate::assets::AssetType::Sprite => has_key(store.sprites@, asset_store_key(a)),
        crate::assets::AssetType::Audio => has_key(store.audio_clips@, asset_store_key(a)),
        crate::assets::AssetType::Script => has_key(store.scripts@, asset_store_key(a)),
        crate::assets::AssetType::Font => has_key(store.fonts@, asset_store_key(a)),
        crate::assets::AssetType::Data => has_key(store.data_files@, asset_store_key(a)),
    }
}

/// Locates bundle files among directory entry names: exactly the names that
/// carry the bundle extension, in their input order.
pub fn filter_bundle_names(names: &Vec<String>) -> (r: Vec<String>)
    ensures
        r@ == names@.filter(|s: String| is_bundle_name(s)),
{
    let mut out: Vec<String> = Vec::new();
    let n = names.len();
    let mut i: usize = 0;
    while i < n
        invariant
            n == names@.len(),
            0 <= i <= n,
            out@ =~= names@.take(i as int).filter(|s: String| is_bundle_name(s)),
        decreases n - i,
    {
        let ghost before = out@;
        if has_bundle_extension(names[i].as_str()) {
            out.push(names[i].clone());
        }
        proof {
            reveal(Seq::filter);
            assert(names@.take(i + 1).drop_last() =~= names@.take(i as int));
            assert(names@.take(i + 1).last() == names@[i as int]);
            assert(out@ =~= names@.take(i + 1).filter(|s: String| is_bundle_name(s)));
        }
        i = i + 1;
    }
    proof {
        assert(names@.take(n as int) =~= names@);
    }
    out
}

/// Resolves bundle files and loads their verified assets. It walks the
/// required assets of `info`; each must appear in `assets_data` (keyed by
/// its manifest path) with bytes hashing to the recorded checksum, and is
/// then handed to the store under its file name's stem. Verification is
/// all-or-nothing: any failure clears the store before it surfaces; every
/// loadable bundle loads, and then every required asset stands in the
/// registry of its kind.
pub fn load_bundle(
    info: &GameInfo,
    assets_data: &Vec<(String, Vec<u8>)>,
    store: &mut AssetManager,
) -> (r: Result<(), CacaoError>)
    requires
        old(store).wf(),
        crate::kvlist::distinct_keys(assets_data@),
    ensures
        final(store).wf(),
        r is Ok ==> all_assets_verified(info, assets_data@),
        !all_assets_verified(info, assets_data@) ==> r is Err,
        bundle_loadable(info, assets_data@) ==> r is Ok,
        r is Ok ==> forall|i: int|
            0 <= i < info.required_assets@.len() ==> stored_in(
                final(store),
                #[trigger] info.required_assets@[i]@,
            ),
        r is Err ==> final(store).scripts@.len() == 0 && final(store).audio_clips@.len() == 0
            && final(store).fonts@.len() == 0 && final(store).data_files@.len() == 0
            && final(store).sprites@.len() == 0 && final(store).textures@.len() == 0,
        r matches Err(e) ==> e is GameLoadError || e is RenderError || e is AudioError
            || e is IoError,
{
    let n = info.required_assets.len();
    let mut i: usize = 0;
    while i < n
        invariant
            store.wf(),
            crate::kvlist::distinct_keys(assets_data@),
            n == info.required_assets@.len(),
            0 <= i <= n,
            forall|j: int|
                0 <= j < i ==> {
                    let a = #[trigger] info.required_assets@[j];
                    has_key(assets_data@, a.path@) && sha256_hex_of(
                        value_sel(assets_data@, a.path@)@,
                    ) == a.checksum@
                },
            forall|j: int|
                0 <= j < i ==> stored_in(store, #[trigger] info.required_assets@[j]@),
        decreases n - i,
    {
        let asset = &info.required_assets[i];
        let bytes = match kv_get(assets_data, asset.path.as_str()) {
            Some(v) => v,
            None => {
                proof {
                    if bundle_loadable(info, assets_data@) {
                        assert(has_key(assets_data@, info.required_assets@[i as int].path@));
                    }
                }
                store.clear_assets();
                return Err(CacaoError::GameLoadError(String::from_str("Asset not found")));
            },
        };
        match verify_asset_bytes(bytes.as_slice(), asset) {
            Ok(_) => {},
            Err(e) => {
                proof {
                    if bundle_loadable(info, assets_data@) {
                        assert(sha256_hex_of(
                            value_sel(assets_data@, info.required_assets@[i as int].path@)@,
                        ) == info.required_assets@[i as int].checksum@);
                    }
                }
                store.clear_assets();
                return Err(e);
            },
        }
        let file_name = crate::assets::file_name_part(asset.path.as_str());
        let ghost prior = *store;
        match store.load_asset(file_name, bytes.clone(), asset.asset_type) {
            Ok(_) => {
                proof {
                    assert(stored_in(store, info.required_assets@[i as int]@));
                    assert forall|j: int|
                        0 <= j < i implies stored_in(
                        store,
                        #[trigger] info.required_assets@[j]@,
                    ) by {
                        assert(stored_in(&prior, info.required_assets@[j]@));
                    }
                }
            },
            Err(e) => {
                proof {
                    if bundle_loadable(info, assets_data@) {
                        assert(asset_loadable(
                            info.required_assets@[i as int]@,
                            value_sel(assets_data@, info.required_assets@[i as int].path@)@,
                        ));
                        assert(false);
                    }
                }
                store.clear_assets();
                return Err(e);
            },
        }
        i = i + 1;
    }
    Ok(())
}

/// Locates and parses bundle containers relative to the games directory the
/// engine was constructed with.
pub struct GameLoader {
    pub games_dir: String,
}

impl GameLoader {
    /// A loader rooted at `games_dir`.
    pub fn new(games_dir: String) -> (r: Self)
        ensures
            r.games_dir == games_dir,
    {
        GameLoader { games_dir }
    }

    /// The path of a directory entry inside the games directory.
    pub fn bundle_path(&self, name: &str) -> (r: String)
        ensures
            r@ == self.games_dir@ + "/"@ + name@,
    {
        let mut out = self.games_dir.clone();
        out.append("/");
        out.append(name);
        out
    }

    /// The on-disk folder that a bundle's assets live in, derived from the
    /// manifest title by sanitization.
    pub fn game_folder_path(&self, info: &GameInfo) -> (r: String)
        ensures
            r@ == self.games_dir@ + "/"@ + crate::sanitize::sanitized(info.title@),
    {
        let mut out = self.games_dir.clone();
        out.append("/");
        let folder = crate::sanitize::sanitize_filename(info.title.as_str());
        out.append(folder.as_str());
        out
    }
}

} // verus!
