//! The bundle manifest and its JSON encoding: a fixed-shape object with the
//! bundle metadata and the required-asset list. The writer emits a canonical
//! form — fields in declaration order, no extra whitespace, strings escaped
//! minimally — and the reader is proved to invert the writer.

use vstd::prelude::*;
use vstd::utf8::encode_utf8;

use crate::assets::AssetType;

verus! {

/// One required asset: its path inside the bundle folder, its SHA-256
/// checksum in hex, its size in bytes, and its kind.
#[derive(Debug, Clone)]
pub struct AssetInfo {
    pub path: String,
    pub checksum: String,
    pub size: u64,
    pub asset_type: AssetType,
}

/// The manifest embedded in a bundle container.
#[derive(Debug, Clone)]
pub struct GameInfo {
    pub id: String,
    pub title: String,
    pub author: String,
    pub version: String,
    pub description: String,
    pub secret_key_hash: String,
    pub entry_point: String,
    pub required_assets: Vec<AssetInfo>,
    pub engine_version: String,
}

/// The mathematical shape of a required asset.
pub struct AssetView {
    pub path: Seq<char>,
    pub checksum: Seq<char>,
    pub size: u64,
    pub asset_type: AssetType,
}

/// The mathematical shape of a manifest.
pub struct ManifestView {
    pub id: Seq<char>,
    pub title: Seq<char>,
    pub author: Seq<char>,
    pub version: Seq<char>,
    pub description: Seq<char>,
    pub secret_key_hash: Seq<char>,
    pub entry_point: Seq<char>,
    pub required_assets: Seq<AssetView>,
    pub engine_version: Seq<char>,
}

impl View for AssetInfo {
    type V = AssetView;

    open spec fn view(&self) -> AssetView {
        AssetView {
            path: self.path@,
            checksum: self.checksum@,
            size: self.size,
            asset_type: self.asset_type,
        }
    }
}

/// The views of a sequence of assets.
pub open spec fn asset_views(s: Seq<AssetInfo>) -> Seq<AssetView> {
    s.map_values(|a: AssetInfo| a@)
}

impl View for GameInfo {
    type V = ManifestView;

    open spec fn view(&self) -> ManifestView {
        ManifestView {
            id: self.id@,
            title: self.title@,
            author: self.author@,
            version: self.version@,
            description: self.description@,
            secret_key_hash: self.secret_key_hash@,
            entry_point: self.entry_point@,
            required_assets: asset_views(self.required_assets@),
            engine_version: self.engine_version@,
        }
    }
}

// --- the canonical JSON encoding, byte level ----------------------------
/// The bytes of `{\"id\":`.
pub open spec fn lit_obj_id() -> Seq<u8> {
    seq![0x7bu8, 0x22u8, 0x69u8, 0x64u8, 0x22u8, 0x3au8]
}

/// The bytes of `,\"title\":`.
pub open spec fn lit_title() -> Seq<u8> {
    seq![0x2cu8, 0x22u8, 0x74u8, 0x69u8, 0x74u8, 0x6cu8, 0x65u8, 0x22u8, 0x3au8]
}

/// The bytes of `,\"author\":`.
pub open spec fn lit_author() -> Seq<u8> {
    seq![0x2cu8, 0x22u8, 0x61u8, 0x75u8, 0x74u8, 0x68u8, 0x6fu8, 0x72u8, 0x22u8, 0x3au8]
}

/// The bytes of `,\"version\":`.
pub open spec fn lit_version() -> Seq<u8> {
    seq![0x2cu8, 0x22u8, 0x76u8, 0x65u8, 0x72u8, 0x73u8, 0x69u8, 0x6fu8, 0x6eu8, 0x22u8, 0x3au8]
}

/// The bytes of `,\"description\":`.
pub open spec fn lit_description() -> Seq<u8> {
    seq![0x2cu8, 0x22u8, 0x64u8, 0x65u8, 0x73u8, 0x63u8, 0x72u8, 0x69u8, 0x70u8, 0x74u8, 0x69u8, 0x6fu8, 0x6eu8, 0x22u8, 0x3au8]
}

/// The bytes of `,\"secret_key_hash\":`.
pub open spec fn lit_secret() -> Seq<u8> {
    seq![0x2cu8, 0x22u8, 0x73u8, 0x65u8, 0x63u8, 0x72u8, 0x65u8, 0x74u8, 0x5fu8, 0x6bu8, 0x65u8, 0x79u8, 0x5fu8, 0x68u8, 0x61u8, 0x73u8, 0x68u8, 0x22u8, 0x3au8]
}

/// The bytes of `,\"entry_point\":`.
pub open spec fn lit_entry() -> Seq<u8> {
    seq![0x2cu8, 0x22u8, 0x65u8, 0x6eu8, 0x74u8, 0x72u8, 0x79u8, 0x5fu8, 0x70u8, 0x6fu8, 0x69u8, 0x6eu8, 0x74u8, 0x22u8, 0x3au8]
}

/// The bytes of `,\"required_assets\":[`.
pub open spec fn lit_assets() -> Seq<u8> {
    seq![0x2cu8, 0x22u8, 0x72u8, 0x65u8, 0x71u8, 0x75u8, 0x69u8, 0x72u8, 0x65u8, 0x64u8, 0x5fu8, 0x61u8, 0x73u8, 0x73u8, 0x65u8, 0x74u8, 0x73u8, 0x22u8, 0x3au8, 0x5bu8]
}

/// The bytes of `],\"engine_version\":`.
pub open spec fn lit_engine() -> Seq<u8> {
    seq![0x5du8, 0x2cu8, 0x22u8, 0x65u8, 0x6eu8, 0x67u8, 0x69u8, 0x6eu8, 0x65u8, 0x5fu8, 0x76u8, 0x65u8, 0x72u8, 0x73u8, 0x69u8, 0x6fu8, 0x6eu8, 0x22u8, 0x3au8]
}

/// The bytes of `}`.
pub open spec fn lit_close() -> Seq<u8> {
    seq![0x7du8]
}

/// The bytes of `{\"path\":`.
pub open spec fn lit_path() -> Seq<u8> {
    seq![0x7bu8, 0x22u8, 0x70u8, 0x61u8, 0x74u8, 0x68u8, 0x22u8, 0x3au8]
}

/// The bytes of `,\"checksum\":`.
pub open spec fn lit_checksum() -> Seq<u8> {
    seq![0x2cu8, 0x22u8, 0x63u8, 0x68u8, 0x65u8, 0x63u8, 0x6bu8, 0x73u8, 0x75u8, 0x6du8, 0x22u8, 0x3au8]
}

/// The bytes of `,\"size\":`.
pub open spec fn lit_size() -> Seq<u8> {
    seq![0x2cu8, 0x22u8, 0x73u8, 0x69u8, 0x7au8, 0x65u8, 0x22u8, 0x3au8]
}

/// The bytes of `,\"asset_type\":\"`.
pub open spec fn lit_atype() -> Seq<u8> {
    seq![0x2cu8, 0x22u8, 0x61u8, 0x73u8, 0x73u8, 0x65u8, 0x74u8, 0x5fu8, 0x74u8, 0x79u8, 0x70u8, 0x65u8, 0x22u8, 0x3au8, 0x22u8]
}

/// The bytes of `Sprite\"}`.
pub open spec fn lit_sprite() -> Seq<u8> {
    seq![0x53u8, 0x70u8, 0x72u8, 0x69u8, 0x74u8, 0x65u8, 0x22u8, 0x7du8]
}

/// The bytes of `Audio\"}`.
pub open spec fn lit_audio() -> Seq<u8> {
    seq![0x41u8, 0x75u8, 0x64u8, 0x69u8, 0x6fu8, 0x22u8, 0x7du8]
}

/// The bytes of `Script\"}`.
pub open spec fn lit_script() -> Seq<u8> {
    seq![0x53u8, 0x63u8, 0x72u8, 0x69u8, 0x70u8, 0x74u8, 0x22u8, 0x7du8]
}

/// The bytes of `Data\"}`.
pub open spec fn lit_data() -> Seq<u8> {
    seq![0x44u8, 0x61u8, 0x74u8, 0x61u8, 0x22u8, 0x7du8]
}

/// The bytes of `Font\"}`.
pub open spec fn lit_font() -> Seq<u8> {
    seq![0x46u8, 0x6fu8, 0x6eu8, 0x74u8, 0x22u8, 0x7du8]
}

/// The bytes of `,`.
pub open spec fn lit_comma() -> Seq<u8> {
    seq![0x2cu8]
}

/// One hex digit byte, lower case.
pub open spec fn hexb(n: u8) -> u8 {
    if n < 10 {
        (n + 48) as u8
    } else {
        (n + 87) as u8
    }
}

/// The escaped form of one string byte: quote and backslash get a
/// backslash, control bytes become a `\u00XX` escape, and every other byte
/// (multi-byte UTF-8 included) stands for itself.
pub open spec fn esc_byte(x: u8) -> Seq<u8> {
    if x == 0x22 {
        seq![0x5cu8, 0x22u8]
    } else if x == 0x5c {
        seq![0x5cu8, 0x5cu8]
    } else if x < 0x20 {
        seq![0x5cu8, 0x75u8, 0x30u8, 0x30u8, hexb(x / 16), hexb(x % 16)]
    } else {
        seq![x]
    }
}

/// The escaped form of a whole byte string.
pub open spec fn escape_bytes(b: Seq<u8>) -> Seq<u8>
    decreases b.len(),
{
    if b.len() == 0 {
        Seq::empty()
    } else {
        esc_byte(b.first()) + escape_bytes(b.drop_first())
    }
}

/// A JSON string: quote, escaped UTF-8 bytes, quote.
pub open spec fn json_string(s: Seq<char>) -> Seq<u8> {
    seq![0x22u8] + escape_bytes(encode_utf8(s)) + seq![0x22u8]
}

/// The decimal digits of `n`.
pub open spec fn dec_enc(n: u64) -> Seq<u8>
    decreases n,
{
    if n < 10 {
        seq![(n + 48) as u8]
    } else {
        dec_enc(n / 10) + seq![((n % 10) + 48) as u8]
    }
}

/// The serialized name of an asset kind together with the closing quote
/// and brace of its object.
pub open spec fn kind_close(t: AssetType) -> Seq<u8> {
    match t {
        AssetType::Sprite => lit_sprite(),
        AssetType::Audio => lit_audio(),
        AssetType::Script => lit_script(),
        AssetType::Data => lit_data(),
        AssetType::Font => lit_font(),
    }
}

/// The JSON object of one asset.
pub open spec fn json_asset(a: AssetView) -> Seq<u8> {
    lit_path() + json_string(a.path) + lit_checksum() + json_string(a.checksum) + lit_size()
        + dec_enc(a.size) + lit_atype() + kind_close(a.asset_type)
}

/// The JSON array body of the asset list, commas between items.
pub open spec fn json_assets(s: Seq<AssetView>) -> Seq<u8>
    decreases s.len(),
{
    if s.len() == 0 {
        Seq::empty()
    } else if s.len() == 1 {
        json_asset(s.first())
    } else {
        json_asset(s.first()) + lit_comma() + json_assets(s.drop_first())
    }
}

/// The canonical JSON bytes of a whole manifest.
pub open spec fn json_manifest(m: ManifestView) -> Seq<u8> {
    lit_obj_id() + json_string(m.id) + lit_title() + json_string(m.title) + lit_author()
        + json_string(m.author) + lit_version() + json_string(m.version) + lit_description()
        + json_string(m.description) + lit_secret() + json_string(m.secret_key_hash) + lit_entry()
        + json_string(m.entry_point) + lit_assets() + json_assets(m.required_assets)
        + lit_engine() + json_string(m.engine_version) + lit_close()
}

// --- the writer ----------------------------------------------------------
/// Appends a byte slice.
fn push_bytes(out: &mut Vec<u8>, s: &[u8])
    ensures
        final(out)@ =~= old(out)@ + s@,
{
    let mut v = vstd::slice::slice_to_vec(s);
    out.append(&mut v);
}

fn hexb_exec(n: u8) -> (r: u8)
    requires
        n < 16,
    ensures
        r == hexb(n),
{
    if n < 10 {
        n + 48
    } else {
        n + 87
    }
}

/// One escaped string byte appended in place.
fn push_esc_byte(out: &mut Vec<u8>, x: u8)
    ensures
        final(out)@ =~= old(out)@ + esc_byte(x),
{
    if x == 0x22 {
        out.push(0x5c);
        out.push(0x22);
    } else if x == 0x5c {
        out.push(0x5c);
        out.push(0x5c);
    } else if x < 0x20 {
        out.push(0x5c);
        out.push(0x75);
        out.push(0x30);
        out.push(0x30);
        out.push(hexb_exec(x / 16));
        out.push(hexb_exec(x % 16));
    } else {
        out.push(x);
    }
}

/// Extending a prefix of an escape by one byte.
proof fn lemma_escape_take(b: Seq<u8>, i: int)
    requires
        0 <= i < b.len(),
    ensures
        escape_bytes(b.take(i + 1)) =~= escape_bytes(b.take(i)) + esc_byte(b[i]),
    decreases i,
{
    if i == 0 {
        assert(b.take(1).first() == b[0]);
        assert(b.take(1).drop_first() =~= Seq::<u8>::empty());
        assert(b.take(0) =~= Seq::<u8>::empty());
    } else {
        lemma_escape_take(b.drop_first(), i - 1);
        assert(b.take(i + 1).first() == b[0]);
        assert(b.take(i + 1).drop_first() =~= b.drop_first().take(i));
        assert(b.take(i).first() == b[0]);
        assert(b.take(i).drop_first() =~= b.drop_first().take(i - 1));
        assert(b.drop_first()[i - 1] == b[i]);
    }
}

/// Appends a JSON string for `s`.
fn push_json_string(out: &mut Vec<u8>, s: &str)
    ensures
        final(out)@ =~= old(out)@ + json_string(s@),
{
    out.push(0x22);
    let bytes = s.as_bytes_vec();
    let n = bytes.len();
    let ghost base = out@;
    let mut i: usize = 0;
    while i < n
        invariant
            n == bytes@.len(),
            0 <= i <= n,
            out@ =~= base + escape_bytes(bytes@.take(i as int)),
        decreases n - i,
    {
        push_esc_byte(out, bytes[i]);
        proof {
            lemma_escape_take(bytes@, i as int);
        }
        i = i + 1;
    }
    proof {
        assert(bytes@.take(n as int) =~= bytes@);
    }
    out.push(0x22);
}

/// Appends the decimal digits of `n`.
fn push_dec(out: &mut Vec<u8>, n: u64)
    ensures
        final(out)@ =~= old(out)@ + dec_enc(n),
    decreases n,
{
    if n < 10 {
        out.push((n + 48) as u8);
    } else {
        push_dec(out, n / 10);
        out.push(((n % 10) + 48) as u8);
    }
}

/// Appends the JSON object of one asset.
fn push_asset(out: &mut Vec<u8>, a: &AssetInfo)
    ensures
        final(out)@ =~= old(out)@ + json_asset(a@),
{
    let l_lit_path: &[u8] = &[0x7b, 0x22, 0x70, 0x61, 0x74, 0x68, 0x22, 0x3a];
    proof {
        assert(l_lit_path@ =~= lit_path());
    }
    push_bytes(out, l_lit_path);
    push_json_string(out, a.path.as_str());
    let l_lit_checksum: &[u8] = &[0x2c, 0x22, 0x63, 0x68, 0x65, 0x63, 0x6b, 0x73, 0x75, 0x6d, 0x22, 0x3a];
    proof {
        assert(l_lit_checksum@ =~= lit_checksum());
    }
    push_bytes(out, l_lit_checksum);
    push_json_string(out, a.checksum.as_str());
    let l_lit_size: &[u8] = &[0x2c, 0x22, 0x73, 0x69, 0x7a, 0x65, 0x22, 0x3a];
    proof {
        assert(l_lit_size@ =~= lit_size());
    }
    push_bytes(out, l_lit_size);
    push_dec(out, a.size);
    let l_lit_atype: &[u8] = &[0x2c, 0x22, 0x61, 0x73, 0x73, 0x65, 0x74, 0x5f, 0x74, 0x79, 0x70, 0x65, 0x22, 0x3a, 0x22];
    proof {
        assert(l_lit_atype@ =~= lit_atype());
    }
    push_bytes(out, l_lit_atype);
    match a.asset_type {
        AssetType::Sprite => {
            let l_lit_sprite: &[u8] = &[0x53, 0x70, 0x72, 0x69, 0x74, 0x65, 0x22, 0x7d];
            proof {
                assert(l_lit_sprite@ =~= lit_sprite());
            }
            push_bytes(out, l_lit_sprite);
        },
        AssetType::Audio => {
            let l_lit_audio: &[u8] = &[0x41, 0x75, 0x64, 0x69, 0x6f, 0x22, 0x7d];
            proof {
                assert(l_lit_audio@ =~= lit_audio());
            }
            push_bytes(out, l_lit_audio);
        },
        AssetType::Script => {
            let l_lit_script: &[u8] = &[0x53, 0x63, 0x72, 0x69, 0x70, 0x74, 0x22, 0x7d];
            proof {
                assert(l_lit_script@ =~= lit_script());
            }
            push_bytes(out, l_lit_script);
        },
        AssetType::Data => {
            let l_lit_data: &[u8] = &[0x44, 0x61, 0x74, 0x61, 0x22, 0x7d];
            proof {
                assert(l_lit_data@ =~= lit_data());
            }
            push_bytes(out, l_lit_data);
        },
        AssetType::Font => {
            let l_lit_font: &[u8] = &[0x46, 0x6f, 0x6e, 0x74, 0x22, 0x7d];
            proof {
                assert(l_lit_font@ =~= lit_font());
            }
            push_bytes(out, l_lit_font);
        },
    }
}

/// How the array body grows by one more asset.
proof fn lemma_json_assets_take(s: Seq<AssetView>, i: int)
    requires
        0 <= i < s.len(),
    ensures
        i == 0 ==> json_assets(s.take(1)) =~= json_asset(s[0]),
        i > 0 ==> json_assets(s.take(i + 1)) =~= json_assets(s.take(i)) + lit_comma() + json_asset(
            s[i],
        ),
    decreases i,
{
    if i == 0 {
        assert(s.take(1).first() == s[0]);
    } else {
        lemma_json_assets_take(s.drop_first(), i - 1);
        assert(s.take(i + 1).first() == s[0]);
        assert(s.take(i + 1).drop_first() =~= s.drop_first().take(i));
        assert(s.take(i).first() == s[0]);
        assert(s.take(i).drop_first() =~= s.drop_first().take(i - 1));
        assert(s.drop_first()[i - 1] == s[i]);
        if i == 1 {
            assert(s.take(1).len() == 1);
            assert(s.drop_first().take(0) =~= Seq::<AssetView>::empty());
        }
    }
}

/// Serializes a manifest to its canonical JSON bytes.
pub fn encode_manifest(m: &GameInfo) -> (r: Vec<u8>)
    ensures
        r@ =~= json_manifest(m@),
{
    let mut out: Vec<u8> = Vec::new();
    let l_lit_obj_id: &[u8] = &[0x7b, 0x22, 0x69, 0x64, 0x22, 0x3a];
    proof {
        assert(l_lit_obj_id@ =~= lit_obj_id());
    }
    push_bytes(&mut out, l_lit_obj_id);
    push_json_string(&mut out, m.id.as_str());
    let l_lit_title: &[u8] = &[0x2c, 0x22, 0x74, 0x69, 0x74, 0x6c, 0x65, 0x22, 0x3a];
    proof {
        assert(l_lit_title@ =~= lit_title());
    }
    push_bytes(&mut out, l_lit_title);
    push_json_string(&mut out, m.title.as_str());
    let l_lit_author: &[u8] = &[0x2c, 0x22, 0x61, 0x75, 0x74, 0x68, 0x6f, 0x72, 0x22, 0x3a];
    proof {
        assert(l_lit_author@ =~= lit_author());
    }
    push_bytes(&mut out, l_lit_author);
    push_json_string(&mut out, m.author.as_str());
    let l_lit_version: &[u8] = &[0x2c, 0x22, 0x76, 0x65, 0x72, 0x73, 0x69, 0x6f, 0x6e, 0x22, 0x3a];
    proof {
        assert(l_lit_version@ =~= lit_version());
    }
    push_bytes(&mut out, l_lit_version);
    push_json_string(&mut out, m.version.as_str());
    let l_lit_description: &[u8] = &[0x2c, 0x22, 0x64, 0x65, 0x73, 0x63, 0x72, 0x69, 0x70, 0x74, 0x69, 0x6f, 0x6e, 0x22, 0x3a];
    proof {
        assert(l_lit_description@ =~= lit_description());
    }
    push_bytes(&mut out, l_lit_description);
    push_json_string(&mut out, m.description.as_str());
    let l_lit_secret: &[u8] = &[0x2c, 0x22, 0x73, 0x65, 0x63, 0x72, 0x65, 0x74, 0x5f, 0x6b, 0x65, 0x79, 0x5f, 0x68, 0x61, 0x73, 0x68, 0x22, 0x3a];
    proof {
        assert(l_lit_secret@ =~= lit_secret());
    }
    push_bytes(&mut out, l_lit_secret);
    push_json_string(&mut out, m.secret_key_hash.as_str());
    let l_lit_entry: &[u8] = &[0x2c, 0x22, 0x65, 0x6e, 0x74, 0x72, 0x79, 0x5f, 0x70, 0x6f, 0x69, 0x6e, 0x74, 0x22, 0x3a];
    proof {
        assert(l_lit_entry@ =~= lit_entry());
    }
    push_bytes(&mut out, l_lit_entry);
    push_json_string(&mut out, m.entry_point.as_str());
    let l_lit_assets: &[u8] = &[0x2c, 0x22, 0x72, 0x65, 0x71, 0x75, 0x69, 0x72, 0x65, 0x64, 0x5f, 0x61, 0x73, 0x73, 0x65, 0x74, 0x73, 0x22, 0x3a, 0x5b];
    proof {
        assert(l_lit_assets@ =~= lit_assets());
    }
    push_bytes(&mut out, l_lit_assets);
    let n = m.required_assets.len();
    let ghost views = asset_views(m.required_assets@);
    let ghost base = out@;
    let mut i: usize = 0;
    while i < n
        invariant
            n == m.required_assets@.len(),
            0 <= i <= n,
            views == asset_views(m.required_assets@),
            views.len() == n,
            forall|j: int| 0 <= j < n ==> views[j] == m.required_assets@[j]@,
            out@ =~= base + json_assets(views.take(i as int)),
        decreases n - i,
    {
        if i > 0 {
            let l_lit_comma: &[u8] = &[0x2c];
            proof {
                assert(l_lit_comma@ =~= lit_comma());
            }
            push_bytes(&mut out, l_lit_comma);
        }
        push_asset(&mut out, &m.required_assets[i]);
        proof {
            lemma_json_assets_take(views, i as int);
        }
        i = i + 1;
    }
    proof {
        assert(views.take(n as int) =~= views);
    }
    let l_lit_engine: &[u8] = &[0x5d, 0x2c, 0x22, 0x65, 0x6e, 0x67, 0x69, 0x6e, 0x65, 0x5f, 0x76, 0x65, 0x72, 0x73, 0x69, 0x6f, 0x6e, 0x22, 0x3a];
    proof {
        assert(l_lit_engine@ =~= lit_engine());
    }
    push_bytes(&mut out, l_lit_engine);
    push_json_string(&mut out, m.engine_version.as_str());
    let l_lit_close: &[u8] = &[0x7d];
    proof {
        assert(l_lit_close@ =~= lit_close());
    }
    push_bytes(&mut out, l_lit_close);
    out
}

// --- the reader, in specification form ----------------------------------
/// A decimal digit byte.
pub open spec fn is_digit(x: u8) -> bool {
    48 <= x <= 57
}

/// A lower-case hex digit byte.
pub open spec fn is_hex(x: u8) -> bool {
    is_digit(x) || (97 <= x <= 102)
}

/// The value of a hex digit byte.
pub open spec fn hexval(x: u8) -> int {
    if x <= 57 {
        x - 48
    } else {
        x - 87
    }
}

/// Expects the literal `l` at `pos` and steps over it.
pub open spec fn sp_lit(b: Seq<u8>, pos: int, l: Seq<u8>) -> Option<int> {
    if 0 <= pos && pos + l.len() <= b.len() && b.subrange(pos, pos + l.len()) == l {
        Some(pos + l.len())
    } else {
        None
    }
}

/// The byte a short escape letter stands for: backspace, form feed, line
/// feed, carriage return or tab.
pub open spec fn short_escape_byte(y: u8) -> u8 {
    if y == 0x62 {
        0x08
    } else if y == 0x66 {
        0x0c
    } else if y == 0x6e {
        0x0a
    } else if y == 0x72 {
        0x0d
    } else {
        0x09
    }
}

/// Reads string content up to and including the closing quote, undoing the
/// escapes; the result is the unescaped bytes and the bytes consumed.
pub open spec fn sp_str_bytes(b: Seq<u8>, pos: int) -> Option<(Seq<u8>, nat)>
    decreases b.len() - pos,
    when 0 <= pos
{
    if pos >= b.len() {
        None
    } else {
        let x = b[pos];
        if x == 0x22 {
            Some((Seq::empty(), 1nat))
        } else if x == 0x5c {
            if pos + 2 > b.len() {
                None
            } else {
                let y = b[pos + 1];
                if y == 0x22 || y == 0x5c || y == 0x2f {
                    match sp_str_bytes(b, pos + 2) {
                        None => None,
                        Some((rest, u)) => Some((seq![y] + rest, (2 + u) as nat)),
                    }
                } else if y == 0x62 || y == 0x66 || y == 0x6e || y == 0x72 || y == 0x74 {
                    match sp_str_bytes(b, pos + 2) {
                        None => None,
                        Some((rest, u)) => Some(
                            (seq![short_escape_byte(y)] + rest, (2 + u) as nat),
                        ),
                    }
                } else if y == 0x75 {
                    if pos + 6 > b.len() {
                        None
                    } else {
                        let h1 = b[pos + 4];
                        let h2 = b[pos + 5];
                        if b[pos + 2] == 0x30 && b[pos + 3] == 0x30 && is_hex(h1) && is_hex(h2)
                            && hexval(h1) * 16 + hexval(h2) < 0x20 {
                            match sp_str_bytes(b, pos + 6) {
                                None => None,
                                Some((rest, u)) => Some(
                                    ((seq![(hexval(h1) * 16 + hexval(h2)) as u8] + rest), (6
                                        + u) as nat),
                                ),
                            }
                        } else {
                            None
                        }
                    }
                } else {
                    None
                }
            }
        } else if x < 0x20 {
            None
        } else {
            match sp_str_bytes(b, pos + 1) {
                None => None,
                Some((rest, u)) => Some((seq![x] + rest, (1 + u) as nat)),
            }
        }
    }
}

/// Reads a quoted JSON string at `pos`.
pub open spec fn sp_json_str(b: Seq<u8>, pos: int) -> Option<(Seq<char>, nat)> {
    if 0 <= pos && pos < b.len() && b[pos] == 0x22 {
        match sp_str_bytes(b, pos + 1) {
            None => None,
            Some((bytes, u)) => {
                if vstd::utf8::valid_utf8(bytes) {
                    Some((vstd::utf8::decode_utf8(bytes), (1 + u) as nat))
                } else {
                    None
                }
            },
        }
    } else {
        None
    }
}

/// Accumulates decimal digits left to right, rejecting 64-bit overflow.
pub open spec fn sp_digits_acc(b: Seq<u8>, pos: int, acc: u64) -> Option<(u64, nat)>
    decreases b.len() - pos,
    when 0 <= pos
{
    if pos >= b.len() || !is_digit(b[pos]) {
        Some((acc, 0nat))
    } else {
        let d = (b[pos] - 48) as u64;
        if acc > 0x1999999999999999u64 || (acc == 0x1999999999999999u64 && d > 5) {
            None
        } else {
            match sp_digits_acc(b, pos + 1, (acc * 10 + d) as u64) {
                None => None,
                Some((v, u)) => Some((v, (1 + u) as nat)),
            }
        }
    }
}

/// Reads a decimal number at `pos`: at least one digit, no leading zero.
pub open spec fn sp_u64(b: Seq<u8>, pos: int) -> Option<(u64, nat)> {
    if 0 <= pos && pos < b.len() && is_digit(b[pos]) {
        if b[pos] == 48 && pos + 1 < b.len() && is_digit(b[pos + 1]) {
            None
        } else {
            sp_digits_acc(b, pos, 0)
        }
    } else {
        None
    }
}

// --- digit reading inverts digit writing --------------------------------
/// The integer the `count` digit bytes at `pos` fold to, starting at `acc`.
pub open spec fn fold_digits(b: Seq<u8>, pos: int, count: int, acc: int) -> int
    decreases count,
{
    if count <= 0 {
        acc
    } else {
        fold_digits(b, pos + 1, count - 1, acc * 10 + (b[pos] - 48))
    }
}

/// Folding one more digit multiplies by ten and adds it.
proof fn lemma_fold_app(b: Seq<u8>, pos: int, count: int, acc: int)
    requires
        count >= 0,
    ensures
        fold_digits(b, pos, count + 1, acc) == fold_digits(b, pos, count, acc) * 10 + (b[pos
            + count] - 48),
    decreases count,
{
    if count == 0 {
        assert(fold_digits(b, pos, 1, acc) == fold_digits(b, pos + 1, 0, acc * 10 + (b[pos]
            - 48)));
    } else {
        lemma_fold_app(b, pos + 1, count - 1, acc * 10 + (b[pos] - 48));
        assert(fold_digits(b, pos, count + 1, acc) == fold_digits(
            b,
            pos + 1,
            count,
            acc * 10 + (b[pos] - 48),
        ));
        assert(fold_digits(b, pos, count, acc) == fold_digits(
            b,
            pos + 1,
            count - 1,
            acc * 10 + (b[pos] - 48),
        ));
    }
}

/// Folding digits never shrinks a nonnegative accumulator.
proof fn lemma_fold_ge(b: Seq<u8>, pos: int, count: int, acc: int)
    requires
        count >= 0,
        acc >= 0,
        forall|i: int| pos <= i < pos + count ==> is_digit(#[trigger] b[i]),
    ensures
        fold_digits(b, pos, count, acc) >= acc,
    decreases count,
{
    if count > 0 {
        assert(is_digit(b[pos]));
        lemma_fold_ge(b, pos + 1, count - 1, acc * 10 + (b[pos] - 48));
    }
}

/// The accumulator reader computes the digit fold when it fits.
proof fn lemma_digits_acc(b: Seq<u8>, pos: int, count: int, acc: u64)
    requires
        0 <= pos,
        pos + count <= b.len(),
        count >= 0,
        forall|i: int| pos <= i < pos + count ==> is_digit(#[trigger] b[i]),
        pos + count == b.len() || !is_digit(b[pos + count]),
        fold_digits(b, pos, count, acc as int) <= u64::MAX,
    ensures
        sp_digits_acc(b, pos, acc) == Some(
            (fold_digits(b, pos, count, acc as int) as u64, count as nat),
        ),
    decreases count,
{
    if count == 0 {
    } else {
        assert(is_digit(b[pos]));
        let d = (b[pos] - 48) as u64;
        let acc2 = acc * 10 + d;
        assert(forall|i: int| pos + 1 <= i < pos + 1 + (count - 1) ==> is_digit(#[trigger] b[i]));
        lemma_fold_ge(b, pos + 1, count - 1, acc as int * 10 + d);
        assert(fold_digits(b, pos, count, acc as int) >= acc as int * 10 + d);
        assert(acc as int * 10 + d <= u64::MAX);
        assert(!(acc > 0x1999999999999999u64 || (acc == 0x1999999999999999u64 && d > 5)));
        lemma_digits_acc(b, pos + 1, count - 1, (acc2) as u64);
    }
}

/// Every byte the decimal writer emits is a digit, and only zero starts
/// with a zero digit.
proof fn lemma_dec_enc_digits(n: u64)
    ensures
        dec_enc(n).len() >= 1,
        forall|i: int| 0 <= i < dec_enc(n).len() ==> is_digit(#[trigger] dec_enc(n)[i]),
        dec_enc(n)[0] == 48 ==> n == 0,
    decreases n,
{
    if n >= 10 {
        lemma_dec_enc_digits(n / 10);
        assert forall|i: int| 0 <= i < dec_enc(n).len() implies is_digit(
            #[trigger] dec_enc(n)[i],
        ) by {
            if i < dec_enc(n / 10).len() {
                assert(dec_enc(n)[i] == dec_enc(n / 10)[i]);
            }
        }
        assert(dec_enc(n)[0] == dec_enc(n / 10)[0]);
    }
}

/// The digits of `n` fold back to `n`.
proof fn lemma_dec_enc_fold(n: u64, b: Seq<u8>, pos: int)
    requires
        0 <= pos,
        pos + dec_enc(n).len() <= b.len(),
        b.subrange(pos, pos + dec_enc(n).len()) =~= dec_enc(n),
    ensures
        fold_digits(b, pos, dec_enc(n).len() as int, 0) == n,
    decreases n,
{
    let l = dec_enc(n).len() as int;
    if n < 10 {
        assert(b[pos] == dec_enc(n)[0]) by {
            assert(b.subrange(pos, pos + l)[0] == dec_enc(n)[0]);
        }
        assert(fold_digits(b, pos, 1, 0) == fold_digits(b, pos + 1, 0, (b[pos] - 48)));
        assert(b[pos] == (n + 48) as u8);
    } else {
        let lh = dec_enc(n / 10).len() as int;
        assert(dec_enc(n) =~= dec_enc(n / 10) + seq![((n % 10) + 48) as u8]);
        assert(b.subrange(pos, pos + lh) =~= dec_enc(n / 10)) by {
            assert forall|k: int| 0 <= k < lh implies #[trigger] b.subrange(pos, pos + lh)[k]
                == dec_enc(n / 10)[k] by {
                assert(b.subrange(pos, pos + l)[k] == dec_enc(n)[k]);
            }
        }
        lemma_dec_enc_fold(n / 10, b, pos);
        lemma_fold_app(b, pos, lh, 0);
        assert(b[pos + lh] == dec_enc(n)[lh]) by {
            assert(b.subrange(pos, pos + l)[lh] == dec_enc(n)[lh]);
        }
        assert(fold_digits(b, pos, l, 0) == (n / 10) * 10 + (n % 10));
        assert((n / 10) * 10 + (n % 10) == n) by {
            vstd::arithmetic::div_mod::lemma_fundamental_div_mod(n as int, 10);
        }
    }
}

/// Reading a number off its own digits yields the number back.
proof fn lemma_sp_u64_enc(n: u64, b: Seq<u8>, pos: int)
    requires
        0 <= pos,
        pos + dec_enc(n).len() <= b.len(),
        b.subrange(pos, pos + dec_enc(n).len()) =~= dec_enc(n),
        pos + dec_enc(n).len() == b.len() || !is_digit(b[pos + dec_enc(n).len()]),
    ensures
        sp_u64(b, pos) == Some((n, dec_enc(n).len() as nat)),
{
    let l = dec_enc(n).len() as int;
    lemma_dec_enc_digits(n);
    assert forall|i: int| pos <= i < pos + l implies is_digit(#[trigger] b[i]) by {
        assert(b.subrange(pos, pos + l)[i - pos] == dec_enc(n)[i - pos]);
    }
    lemma_dec_enc_fold(n, b, pos);
    lemma_digits_acc(b, pos, l, 0);
    assert(b[pos] == dec_enc(n)[0]) by {
        assert(b.subrange(pos, pos + l)[0] == dec_enc(n)[0]);
    }
    if b[pos] == 48 {
        assert(n == 0);
        assert(l == 1);
    }
}

// --- string reading inverts string writing ------------------------------
/// A hex digit byte reads back as its value.
proof fn lemma_hexb_val(n: u8)
    requires
        n < 16,
    ensures
        is_hex(hexb(n)),
        hexval(hexb(n)) == n,
{
}

/// Reading string content off its escaped form yields the bytes back.
proof fn lemma_sp_str_bytes_enc(sb: Seq<u8>, b: Seq<u8>, pos: int)
    requires
        0 <= pos,
        pos + escape_bytes(sb).len() + 1 <= b.len(),
        b.subrange(pos, pos + escape_bytes(sb).len() + 1) =~= escape_bytes(sb) + seq![0x22u8],
    ensures
        sp_str_bytes(b, pos) == Some((sb, (escape_bytes(sb).len() + 1) as nat)),
    decreases sb.len(),
{
    let eb = escape_bytes(sb);
    let whole = eb + seq![0x22u8];
    if sb.len() == 0 {
        assert(b[pos] == 0x22) by {
            assert(b.subrange(pos, pos + 1)[0] == whole[0]);
        }
    } else {
        let x = sb.first();
        let e = esc_byte(x);
        let rest = sb.drop_first();
        let erest = escape_bytes(rest);
        assert(eb =~= e + erest);
        assert forall|k: int| 0 <= k < e.len() implies b[pos + k] == e[k] by {
            assert(b.subrange(pos, pos + eb.len() + 1)[k] == whole[k]);
        }
        assert(b[pos + 0] == e[0]);
        if e.len() >= 2 {
            assert(b[pos + 1] == e[1]);
        }
        if e.len() == 6 {
            assert(b[pos + 2] == e[2]);
            assert(b[pos + 3] == e[3]);
            assert(b[pos + 4] == e[4]);
            assert(b[pos + 5] == e[5]);
        }
        let pos2 = pos + e.len();
        assert(b.subrange(pos2, pos2 + erest.len() + 1) =~= erest + seq![0x22u8]) by {
            assert forall|k: int|
                0 <= k < erest.len() + 1 implies #[trigger] b.subrange(
                pos2,
                pos2 + erest.len() + 1,
            )[k] == (erest + seq![0x22u8])[k] by {
                assert(b.subrange(pos, pos + eb.len() + 1)[e.len() + k] == whole[e.len() + k]);
            }
        }
        lemma_sp_str_bytes_enc(rest, b, pos2);
        if x == 0x22 {
            assert(b[pos] == 0x5c && b[pos + 1] == 0x22);
            assert(sp_str_bytes(b, pos) == Some((seq![x] + rest, (2 + erest.len() + 1) as nat)));
            assert(seq![x] + rest =~= sb);
        } else if x == 0x5c {
            assert(b[pos] == 0x5c && b[pos + 1] == 0x5c);
            assert(seq![x] + rest =~= sb);
        } else if x < 0x20 {
            assert(b[pos] == 0x5c && b[pos + 1] == 0x75 && b[pos + 2] == 0x30 && b[pos + 3] == 0x30
                && b[pos + 4] == hexb(x / 16) && b[pos + 5] == hexb(x % 16));
            lemma_hexb_val(x / 16);
            lemma_hexb_val(x % 16);
            assert(hexval(hexb(x / 16)) * 16 + hexval(hexb(x % 16)) == x);
            assert(seq![x] + rest =~= sb);
        } else {
            assert(b[pos] == x);
            assert(seq![x] + rest =~= sb);
        }
    }
}

/// Reading a JSON string off its encoding yields the characters back.
proof fn lemma_sp_json_str_enc(s: Seq<char>, b: Seq<u8>, pos: int)
    requires
        0 <= pos,
        pos + json_string(s).len() <= b.len(),
        b.subrange(pos, pos + json_string(s).len()) =~= json_string(s),
    ensures
        sp_json_str(b, pos) == Some((s, json_string(s).len() as nat)),
{
    let js = json_string(s);
    let ub = encode_utf8(s);
    let eb = escape_bytes(ub);
    assert(js =~= seq![0x22u8] + (eb + seq![0x22u8]));
    assert(b[pos] == 0x22) by {
        assert(b.subrange(pos, pos + js.len())[0] == js[0]);
    }
    assert(b.subrange(pos + 1, pos + 1 + eb.len() + 1) =~= eb + seq![0x22u8]) by {
        assert forall|k: int|
            0 <= k < eb.len() + 1 implies #[trigger] b.subrange(pos + 1, pos + 1 + eb.len() + 1)[k]
            == (eb + seq![0x22u8])[k] by {
            assert(b.subrange(pos, pos + js.len())[1 + k] == js[1 + k]);
        }
    }
    lemma_sp_str_bytes_enc(ub, b, pos + 1);
    vstd::utf8::encode_utf8_valid_utf8(s);
    vstd::utf8::encode_utf8_decode_utf8(s);
}

/// Reads an asset kind name with the closing quote and brace.
pub open spec fn sp_kind(b: Seq<u8>, pos: int) -> Option<(AssetType, int)> {
    match sp_lit(b, pos, lit_sprite()) {
        Some(p) => Some((AssetType::Sprite, p)),
        None => match sp_lit(b, pos, lit_audio()) {
            Some(p) => Some((AssetType::Audio, p)),
            None => match sp_lit(b, pos, lit_script()) {
                Some(p) => Some((AssetType::Script, p)),
                None => match sp_lit(b, pos, lit_data()) {
                    Some(p) => Some((AssetType::Data, p)),
                    None => match sp_lit(b, pos, lit_font()) {
                        Some(p) => Some((AssetType::Font, p)),
                        None => None,
                    },
                },
            },
        },
    }
}

/// Reads one asset object at `pos`; yields the asset and the end position.
pub open spec fn sp_asset(b: Seq<u8>, pos: int) -> Option<(AssetView, int)> {
    match sp_lit(b, pos, lit_path()) {
        None => None,
        Some(p1) => match sp_json_str(b, p1) {
            None => None,
            Some((path, u1)) => match sp_lit(b, p1 + u1, lit_checksum()) {
                None => None,
                Some(p2) => match sp_json_str(b, p2) {
                    None => None,
                    Some((checksum, u2)) => match sp_lit(b, p2 + u2, lit_size()) {
                        None => None,
                        Some(p3) => match sp_u64(b, p3) {
                            None => None,
                            Some((size, u3)) => match sp_lit(b, p3 + u3, lit_atype()) {
                                None => None,
                                Some(p4) => match sp_kind(b, p4) {
                                    None => None,
                                    Some((asset_type, p5)) => Some(
                                        (AssetView { path, checksum, size, asset_type }, p5),
                                    ),
                                },
                            },
                        },
                    },
                },
            },
        },
    }
}

/// Reads the asset list body at `pos`, stopping before the closing bracket.
pub open spec fn sp_assets(b: Seq<u8>, pos: int) -> Option<(Seq<AssetView>, int)>
    decreases b.len() - pos, 1int,
    when 0 <= pos
{
    if pos < b.len() && b[pos] == 0x5d {
        Some((Seq::empty(), pos))
    } else {
        match sp_asset(b, pos) {
            None => None,
            Some((a, p)) => {
                if p <= pos || p > b.len() {
                    None
                } else {
                    match sp_assets_more(b, p) {
                        None => None,
                        Some((rest, end)) => Some((seq![a] + rest, end)),
                    }
                }
            },
        }
    }
}

/// Reads `, asset` items until the closing bracket.
pub open spec fn sp_assets_more(b: Seq<u8>, pos: int) -> Option<(Seq<AssetView>, int)>
    decreases b.len() - pos, 0int,
    when 0 <= pos
{
    if pos >= b.len() {
        None
    } else if b[pos] == 0x5d {
        Some((Seq::empty(), pos))
    } else if b[pos] == 0x2c {
        match sp_asset(b, pos + 1) {
            None => None,
            Some((a, p)) => {
                if p <= pos || p > b.len() {
                    None
                } else {
                    match sp_assets_more(b, p) {
                        None => None,
                        Some((rest, end)) => Some((seq![a] + rest, end)),
                    }
                }
            },
        }
    } else {
        None
    }
}

/// Reads a whole manifest; the input must be consumed exactly.
pub open spec fn sp_manifest(b: Seq<u8>) -> Option<ManifestView> {
    match sp_lit(b, 0, lit_obj_id()) {
        None => None,
        Some(p1) => match sp_json_str(b, p1) {
            None => None,
            Some((id, u1)) => match sp_lit(b, p1 + u1, lit_title()) {
                None => None,
                Some(p2) => match sp_json_str(b, p2) {
                    None => None,
                    Some((title, u2)) => match sp_lit(b, p2 + u2, lit_author()) {
                        None => None,
                        Some(p3) => match sp_json_str(b, p3) {
                            None => None,
                            Some((author, u3)) => match sp_lit(b, p3 + u3, lit_version()) {
                                None => None,
                                Some(p4) => match sp_json_str(b, p4) {
                                    None => None,
                                    Some((version, u4)) => match sp_lit(
                                        b,
                                        p4 + u4,
                                        lit_description(),
                                    ) {
                                        None => None,
                                        Some(p5) => match sp_json_str(b, p5) {
                                            None => None,
                                            Some((description, u5)) => match sp_lit(
                                                b,
                                                p5 + u5,
                                                lit_secret(),
                                            ) {
                                                None => None,
                                                Some(p6) => match sp_json_str(b, p6) {
                                                    None => None,
                                                    Some((secret_key_hash, u6)) => match sp_lit(
                                                        b,
                                                        p6 + u6,
                                                        lit_entry(),
                                                    ) {
                                                        None => None,
                                                        Some(p7) => match sp_json_str(b, p7) {
                                                            None => None,
                                                            Some((entry_point, u7)) => match sp_lit(
                                                                b,
                                                                p7 + u7,
                                                                lit_assets(),
                                                            ) {
                                                                None => None,
                                                                Some(p8) => match sp_assets(
                                                                    b,
                                                                    p8,
                                                                ) {
                                                                    None => None,
                                                                    Some(
                                                                        (required_assets, p9),
                                                                    ) => match sp_lit(
                                                                        b,
                                                                        p9,
                                                                        lit_engine(),
                                                                    ) {
                                                                        None => None,
                                                                        Some(p10) => match sp_json_str(
                                                                            b,
                                                                            p10,
                                                                        ) {
                                                                            None => None,
                                                                            Some(
                                                                                (
                                                                                    engine_version,
                                                                                    u8v,
                                                                                ),
                                                                            ) => match sp_lit(
                                                                                b,
                                                                                p10 + u8v,
                                                                                lit_close(),
                                                                            ) {
                                                                                None => None,
                                                                                Some(p11) => {
                                                                                    if p11
                                                                                        == b.len() {
                                                                                        Some(
                                                                                            ManifestView {
                                                                                                id,
                                                                                                title,
                                                                                                author,
                                                                                                version,
                                                                                                description,
                                                                                                secret_key_hash,
                                                                                                entry_point,
                                                                                                required_assets,
                                                                                                engine_version,
                                                                                            },
                                                                                        )
                                                                                    } else {
                                                                                        None
                                                                                    }
                                                                                },
                                                                            },
                                                                        },
                                                                    },
                                                                },
                                                            },
                                                        },
                                                    },
                                                },
                                            },
                                        },
                                    },
                                },
                            },
                        },
                    },
                },
            },
        },
    }
}

// --- reading inverts writing --------------------------------------------
/// A window into a window of `b` is a window of `b`.
proof fn lemma_sub_at(b: Seq<u8>, pos: int, wlen: int, off: int, plen: int)
    requires
        0 <= pos,
        pos + wlen <= b.len(),
        0 <= off,
        plen >= 0,
        off + plen <= wlen,
    ensures
        b.subrange(pos + off, pos + off + plen) =~= b.subrange(pos, pos + wlen).subrange(
            off,
            off + plen,
        ),
{
}

/// Reading one asset off its own encoding yields the asset back.
#[verifier::rlimit(100)]
proof fn lemma_sp_asset_enc(a: AssetView, b: Seq<u8>, pos: int)
    requires
        0 <= pos,
        pos + json_asset(a).len() <= b.len(),
        b.subrange(pos, pos + json_asset(a).len()) =~= json_asset(a),
    ensures
        sp_asset(b, pos) == Some((a, pos + json_asset(a).len())),
{
    let w = json_asset(a);
    let wl = w.len() as int;
    let s1 = json_string(a.path);
    let s2 = json_string(a.checksum);
    let dg = dec_enc(a.size);
    let kc = kind_close(a.asset_type);
    let o1 = lit_path().len() as int;
    let o2 = o1 + s1.len();
    let o3 = o2 + lit_checksum().len();
    let o4 = o3 + s2.len();
    let o5 = o4 + lit_size().len();
    let o6 = o5 + dg.len();
    let o7 = o6 + lit_atype().len();
    assert(wl == o7 + kc.len());
    assert(b.subrange(pos, pos + o1) =~= lit_path()) by {
        lemma_sub_at(b, pos, wl, 0, o1);
        assert(w.subrange(0, o1) =~= lit_path());
    }
    assert(b.subrange(pos + o1, pos + o2) =~= s1) by {
        lemma_sub_at(b, pos, wl, o1, s1.len() as int);
        assert(w.subrange(o1, o2) =~= s1);
    }
    lemma_sp_json_str_enc(a.path, b, pos + o1);
    assert(b.subrange(pos + o2, pos + o3) =~= lit_checksum()) by {
        lemma_sub_at(b, pos, wl, o2, lit_checksum().len() as int);
        assert(w.subrange(o2, o3) =~= lit_checksum());
    }
    assert(b.subrange(pos + o3, pos + o4) =~= s2) by {
        lemma_sub_at(b, pos, wl, o3, s2.len() as int);
        assert(w.subrange(o3, o4) =~= s2);
    }
    lemma_sp_json_str_enc(a.checksum, b, pos + o3);
    assert(b.subrange(pos + o4, pos + o5) =~= lit_size()) by {
        lemma_sub_at(b, pos, wl, o4, lit_size().len() as int);
        assert(w.subrange(o4, o5) =~= lit_size());
    }
    assert(b.subrange(pos + o5, pos + o6) =~= dg) by {
        lemma_sub_at(b, pos, wl, o5, dg.len() as int);
        assert(w.subrange(o5, o6) =~= dg);
    }
    assert(b.subrange(pos + o6, pos + o7) =~= lit_atype()) by {
        lemma_sub_at(b, pos, wl, o6, lit_atype().len() as int);
        assert(w.subrange(o6, o7) =~= lit_atype());
    }
    assert(b[pos + o6] == 0x2c) by {
        assert(b.subrange(pos + o6, pos + o7)[0] == lit_atype()[0]);
    }
    lemma_sp_u64_enc(a.size, b, pos + o5);
    assert(b.subrange(pos + o7, pos + wl) =~= kc) by {
        lemma_sub_at(b, pos, wl, o7, kc.len() as int);
        assert(w.subrange(o7, wl) =~= kc);
    }
    let p4 = pos + o7;
    assert(b[p4] == kc[0]) by {
        assert(b.subrange(p4, pos + wl)[0] == kc[0]);
    }
    if b[p4 + 1] == b[p4 + 1] {
        assert(b[p4 + 1] == kc[1]) by {
            assert(b.subrange(p4, pos + wl)[1] == kc[1]);
        }
    }
    match a.asset_type {
        AssetType::Sprite => {
            assert(sp_lit(b, p4, lit_sprite()) == Some(p4 + 8));
        },
        AssetType::Audio => {
            if p4 + lit_sprite().len() <= b.len() && b.subrange(p4, p4 + lit_sprite().len())
                == lit_sprite() {
                assert(b.subrange(p4, p4 + lit_sprite().len())[0] == lit_sprite()[0]);
            }
            assert(sp_lit(b, p4, lit_sprite()) is None);
            assert(sp_lit(b, p4, lit_audio()) == Some(p4 + 7));
        },
        AssetType::Script => {
            if p4 + lit_sprite().len() <= b.len() && b.subrange(p4, p4 + lit_sprite().len())
                == lit_sprite() {
                assert(b.subrange(p4, p4 + lit_sprite().len())[1] == lit_sprite()[1]);
            }
            assert(sp_lit(b, p4, lit_sprite()) is None);
            if p4 + lit_audio().len() <= b.len() && b.subrange(p4, p4 + lit_audio().len())
                == lit_audio() {
                assert(b.subrange(p4, p4 + lit_audio().len())[0] == lit_audio()[0]);
            }
            assert(sp_lit(b, p4, lit_audio()) is None);
            assert(sp_lit(b, p4, lit_script()) == Some(p4 + 8));
        },
        AssetType::Data => {
            if p4 + lit_sprite().len() <= b.len() && b.subrange(p4, p4 + lit_sprite().len())
                == lit_sprite() {
                assert(b.subrange(p4, p4 + lit_sprite().len())[0] == lit_sprite()[0]);
            }
            assert(sp_lit(b, p4, lit_sprite()) is None);
            if p4 + lit_audio().len() <= b.len() && b.subrange(p4, p4 + lit_audio().len())
                == lit_audio() {
                assert(b.subrange(p4, p4 + lit_audio().len())[0] == lit_audio()[0]);
            }
            assert(sp_lit(b, p4, lit_audio()) is None);
            if p4 + lit_script().len() <= b.len() && b.subrange(p4, p4 + lit_script().len())
                == lit_script() {
                assert(b.subrange(p4, p4 + lit_script().len())[0] == lit_script()[0]);
            }
            assert(sp_lit(b, p4, lit_script()) is None);
            assert(sp_lit(b, p4, lit_data()) == Some(p4 + 6));
        },
        AssetType::Font => {
            if p4 + lit_sprite().len() <= b.len() && b.subrange(p4, p4 + lit_sprite().len())
                == lit_sprite() {
                assert(b.subrange(p4, p4 + lit_sprite().len())[0] == lit_sprite()[0]);
            }
            assert(sp_lit(b, p4, lit_sprite()) is None);
            if p4 + lit_audio().len() <= b.len() && b.subrange(p4, p4 + lit_audio().len())
                == lit_audio() {
                assert(b.subrange(p4, p4 + lit_audio().len())[0] == lit_audio()[0]);
            }
            assert(sp_lit(b, p4, lit_audio()) is None);
            if p4 + lit_script().len() <= b.len() && b.subrange(p4, p4 + lit_script().len())
                == lit_script() {
                assert(b.subrange(p4, p4 + lit_script().len())[0] == lit_script()[0]);
            }
            assert(sp_lit(b, p4, lit_script()) is None);
            if p4 + lit_data().len() <= b.len() && b.subrange(p4, p4 + lit_data().len())
                == lit_data() {
                assert(b.subrange(p4, p4 + lit_data().len())[0] == lit_data()[0]);
            }
            assert(sp_lit(b, p4, lit_data()) is None);
            assert(sp_lit(b, p4, lit_font()) == Some(p4 + 6));
        },
    }
    assert(sp_kind(b, p4) == Some((a.asset_type, pos + wl)));
}

/// Reading the rest of an asset list off its encoding yields the rest.
#[verifier::rlimit(100)]
proof fn lemma_sp_assets_more_enc(rest: Seq<AssetView>, b: Seq<u8>, pos: int)
    requires
        0 <= pos,
        rest.len() == 0 ==> pos < b.len() && b[pos] == 0x5d,
        rest.len() > 0 ==> pos + 1 + json_assets(rest).len() < b.len() && b[pos] == 0x2c
            && b.subrange(pos + 1, pos + 1 + json_assets(rest).len()) =~= json_assets(rest) && b[pos
            + 1 + json_assets(rest).len()] == 0x5d,
    ensures
        rest.len() == 0 ==> sp_assets_more(b, pos) == Some((rest, pos)),
        rest.len() > 0 ==> sp_assets_more(b, pos) == Some(
            (rest, pos + 1 + json_assets(rest).len()),
        ),
    decreases rest.len(),
{
    if rest.len() == 0 {
    } else {
        let w = json_assets(rest);
        let wl = w.len() as int;
        let first = rest.first();
        let tail = rest.drop_first();
        let fe = json_asset(first);
        let fl = fe.len() as int;
        let p1 = pos + 1;
        if rest.len() == 1 {
            assert(w =~= fe);
            lemma_sp_asset_enc(first, b, p1);
            assert(b[p1 + fl] == 0x5d);
            lemma_sp_assets_more_enc(tail, b, p1 + fl);
            assert(seq![first] + tail =~= rest);
        } else {
            assert(w =~= fe + lit_comma() + json_assets(tail));
            assert(b.subrange(p1, p1 + fl) =~= fe) by {
                assert forall|k: int| 0 <= k < fl implies #[trigger] b.subrange(p1, p1 + fl)[k]
                    == fe[k] by {
                    assert(b.subrange(p1, p1 + wl)[k] == w[k]);
                }
            }
            lemma_sp_asset_enc(first, b, p1);
            let p2 = p1 + fl;
            assert(b[p2] == 0x2c) by {
                assert(b.subrange(p1, p1 + wl)[fl] == w[fl]);
            }
            let tl = json_assets(tail).len() as int;
            assert(b.subrange(p2 + 1, p2 + 1 + tl) =~= json_assets(tail)) by {
                assert forall|k: int|
                    0 <= k < tl implies #[trigger] b.subrange(p2 + 1, p2 + 1 + tl)[k]
                    == json_assets(tail)[k] by {
                    assert(b.subrange(p1, p1 + wl)[fl + 1 + k] == w[fl + 1 + k]);
                }
            }
            assert(b[p2 + 1 + tl] == 0x5d);
            lemma_sp_assets_more_enc(tail, b, p2);
            assert(seq![first] + tail =~= rest);
        }
    }
}

/// Reading an asset list off its encoding yields the list back.
#[verifier::rlimit(60)]
proof fn lemma_sp_assets_enc(views: Seq<AssetView>, b: Seq<u8>, pos: int)
    requires
        0 <= pos,
        pos + json_assets(views).len() < b.len(),
        b.subrange(pos, pos + json_assets(views).len()) =~= json_assets(views),
        b[pos + json_assets(views).len()] == 0x5d,
    ensures
        sp_assets(b, pos) == Some((views, pos + json_assets(views).len())),
{
    let w = json_assets(views);
    let wl = w.len() as int;
    if views.len() == 0 {
        assert(b[pos] == 0x5d);
    } else {
        let first = views.first();
        let tail = views.drop_first();
        let fe = json_asset(first);
        let fl = fe.len() as int;
        assert(b.subrange(pos, pos + fl) =~= fe) by {
            if views.len() == 1 {
                assert(w =~= fe);
            } else {
                assert(w =~= fe + lit_comma() + json_assets(tail));
            }
            assert forall|k: int| 0 <= k < fl implies #[trigger] b.subrange(pos, pos + fl)[k]
                == fe[k] by {
                assert(b.subrange(pos, pos + wl)[k] == w[k]);
            }
        }
        assert(b[pos] != 0x5d) by {
            assert(b.subrange(pos, pos + fl)[0] == fe[0]);
        }
        lemma_sp_asset_enc(first, b, pos);
        let p = pos + fl;
        if views.len() == 1 {
            assert(w =~= fe);
            assert(b[p] == 0x5d);
            lemma_sp_assets_more_enc(tail, b, p);
        } else {
            assert(w =~= fe + lit_comma() + json_assets(tail));
            assert(b[p] == 0x2c) by {
                assert(b.subrange(pos, pos + wl)[fl] == w[fl]);
            }
            let tl = json_assets(tail).len() as int;
            assert(b.subrange(p + 1, p + 1 + tl) =~= json_assets(tail)) by {
                assert forall|k: int| 0 <= k < tl implies #[trigger] b.subrange(p + 1, p + 1
                    + tl)[k] == json_assets(tail)[k] by {
                    assert(b.subrange(pos, pos + wl)[fl + 1 + k] == w[fl + 1 + k]);
                }
            }
            assert(b[p + 1 + tl] == 0x5d);
            lemma_sp_assets_more_enc(tail, b, p);
        }
        assert(seq![first] + tail =~= views);
    }
}

/// Splits a window that holds a concatenation into its two halves.
proof fn lemma_split(b: Seq<u8>, pos: int, x: Seq<u8>, y: Seq<u8>)
    requires
        0 <= pos,
        pos + x.len() + y.len() <= b.len(),
        b.subrange(pos, pos + x.len() + y.len()) =~= x + y,
    ensures
        b.subrange(pos, pos + x.len()) =~= x,
        b.subrange(pos + x.len(), pos + x.len() + y.len()) =~= y,
{
    let w = x + y;
    assert forall|k: int| 0 <= k < x.len() implies #[trigger] b.subrange(pos, pos + x.len())[k]
        == x[k] by {
        assert(b.subrange(pos, pos + w.len())[k] == w[k]);
    }
    assert forall|k: int|
        0 <= k < y.len() implies #[trigger] b.subrange(
        pos + x.len(),
        pos + x.len() + y.len(),
    )[k] == y[k] by {
        assert(b.subrange(pos, pos + w.len())[x.len() + k] == w[x.len() + k]);
    }
}

/// Assembles a manifest read from its field reads.
#[verifier::rlimit(100)]
proof fn lemma_manifest_assemble(m: ManifestView, b: Seq<u8>, h: int)
    requires
        h == lit_obj_id().len() + json_string(m.id).len() + lit_title().len() + json_string(
            m.title,
        ).len() + lit_author().len() + json_string(m.author).len() + lit_version().len()
            + json_string(m.version).len() + lit_description().len() + json_string(
            m.description,
        ).len() + lit_secret().len() + json_string(m.secret_key_hash).len() + lit_entry().len()
            + json_string(m.entry_point).len(),
        sp_lit(b, 0, lit_obj_id()) == Some(lit_obj_id().len() as int),
        sp_json_str(b, lit_obj_id().len() as int) == Some(
            (m.id, json_string(m.id).len() as nat),
        ),
        ({
            let p = lit_obj_id().len() + json_string(m.id).len();
            sp_lit(b, p as int, lit_title()) == Some((p + lit_title().len()) as int)
                && sp_json_str(b, (p + lit_title().len()) as int) == Some(
                (m.title, json_string(m.title).len() as nat),
            )
        }),
        ({
            let p = lit_obj_id().len() + json_string(m.id).len() + lit_title().len()
                + json_string(m.title).len();
            sp_lit(b, p as int, lit_author()) == Some((p + lit_author().len()) as int)
                && sp_json_str(b, (p + lit_author().len()) as int) == Some(
                (m.author, json_string(m.author).len() as nat),
            )
        }),
        ({
            let p = lit_obj_id().len() + json_string(m.id).len() + lit_title().len()
                + json_string(m.title).len() + lit_author().len() + json_string(m.author).len();
            sp_lit(b, p as int, lit_version()) == Some((p + lit_version().len()) as int)
                && sp_json_str(b, (p + lit_version().len()) as int) == Some(
                (m.version, json_string(m.version).len() as nat),
            )
        }),
        ({
            let p = lit_obj_id().len() + json_string(m.id).len() + lit_title().len()
                + json_string(m.title).len() + lit_author().len() + json_string(m.author).len()
                + lit_version().len() + json_string(m.version).len();
            sp_lit(b, p as int, lit_description()) == Some((p + lit_description().len()) as int)
                && sp_json_str(b, (p + lit_description().len()) as int) == Some(
                (m.description, json_string(m.description).len() as nat),
            )
        }),
        ({
            let p = lit_obj_id().len() + json_string(m.id).len() + lit_title().len()
                + json_string(m.title).len() + lit_author().len() + json_string(m.author).len()
                + lit_version().len() + json_string(m.version).len() + lit_description().len()
                + json_string(m.description).len();
            sp_lit(b, p as int, lit_secret()) == Some((p + lit_secret().len()) as int)
                && sp_json_str(b, (p + lit_secret().len()) as int) == Some(
                (m.secret_key_hash, json_string(m.secret_key_hash).len() as nat),
            )
        }),
        ({
            let p = lit_obj_id().len() + json_string(m.id).len() + lit_title().len()
                + json_string(m.title).len() + lit_author().len() + json_string(m.author).len()
                + lit_version().len() + json_string(m.version).len() + lit_description().len()
                + json_string(m.description).len() + lit_secret().len() + json_string(
                m.secret_key_hash,
            ).len();
            sp_lit(b, p as int, lit_entry()) == Some((p + lit_entry().len()) as int)
                && sp_json_str(b, (p + lit_entry().len()) as int) == Some(
                (m.entry_point, json_string(m.entry_point).len() as nat),
            )
        }),
        sp_lit(b, h, lit_assets()) == Some((h + lit_assets().len()) as int),
        sp_assets(b, h + lit_assets().len()) == Some(
            (
                m.required_assets,
                h + lit_assets().len() + json_assets(m.required_assets).len(),
            ),
        ),
        ({
            let p = h + lit_assets().len() + json_assets(m.required_assets).len();
            sp_lit(b, p, lit_engine()) == Some((p + lit_engine().len()) as int) && sp_json_str(
                b,
                p + lit_engine().len(),
            ) == Some((m.engine_version, json_string(m.engine_version).len() as nat)) && sp_lit(
                b,
                p + lit_engine().len() + json_string(m.engine_version).len(),
                lit_close(),
            ) == Some(b.len() as int)
        }),
    ensures
        sp_manifest(b) == Some(m),
{
}

/// The metadata half of the encoding: everything before the asset list.
pub open spec fn man_head(m: ManifestView) -> Seq<u8> {
    lit_obj_id() + json_string(m.id) + lit_title() + json_string(m.title) + lit_author()
        + json_string(m.author) + lit_version() + json_string(m.version) + lit_description()
        + json_string(m.description) + lit_secret() + json_string(m.secret_key_hash) + lit_entry()
        + json_string(m.entry_point)
}

/// The asset half of the encoding: the asset list and the engine version.
pub open spec fn man_tail(m: ManifestView) -> Seq<u8> {
    lit_assets() + json_assets(m.required_assets) + lit_engine() + json_string(m.engine_version)
        + lit_close()
}

/// The reads of the metadata half, at the start of `b`.
#[verifier::rlimit(100)]
proof fn lemma_man_head(m: ManifestView, b: Seq<u8>)
    requires
        man_head(m).len() <= b.len(),
        b.subrange(0, man_head(m).len() as int) =~= man_head(m),
    ensures
        sp_lit(b, 0, lit_obj_id()) == Some(lit_obj_id().len() as int),
        sp_json_str(b, lit_obj_id().len() as int) == Some(
            (m.id, json_string(m.id).len() as nat),
        ),
        ({
            let p = lit_obj_id().len() + json_string(m.id).len();
            sp_lit(b, p as int, lit_title()) == Some((p + lit_title().len()) as int)
                && sp_json_str(b, (p + lit_title().len()) as int) == Some(
                (m.title, json_string(m.title).len() as nat),
            )
        }),
        ({
            let p = lit_obj_id().len() + json_string(m.id).len() + lit_title().len()
                + json_string(m.title).len();
            sp_lit(b, p as int, lit_author()) == Some((p + lit_author().len()) as int)
                && sp_json_str(b, (p + lit_author().len()) as int) == Some(
                (m.author, json_string(m.author).len() as nat),
            )
        }),
        ({
            let p = lit_obj_id().len() + json_string(m.id).len() + lit_title().len()
                + json_string(m.title).len() + lit_author().len() + json_string(m.author).len();
            sp_lit(b, p as int, lit_version()) == Some((p + lit_version().len()) as int)
                && sp_json_str(b, (p + lit_version().len()) as int) == Some(
                (m.version, json_string(m.version).len() as nat),
            )
        }),
        ({
            let p = lit_obj_id().len() + json_string(m.id).len() + lit_title().len()
                + json_string(m.title).len() + lit_author().len() + json_string(m.author).len()
                + lit_version().len() + json_string(m.version).len();
            sp_lit(b, p as int, lit_description()) == Some((p + lit_description().len()) as int)
                && sp_json_str(b, (p + lit_description().len()) as int) == Some(
                (m.description, json_string(m.description).len() as nat),
            )
        }),
        ({
            let p = lit_obj_id().len() + json_string(m.id).len() + lit_title().len()
                + json_string(m.title).len() + lit_author().len() + json_string(m.author).len()
                + lit_version().len() + json_string(m.version).len() + lit_description().len()
                + json_string(m.description).len();
            sp_lit(b, p as int, lit_secret()) == Some((p + lit_secret().len()) as int)
                && sp_json_str(b, (p + lit_secret().len()) as int) == Some(
                (m.secret_key_hash, json_string(m.secret_key_hash).len() as nat),
            )
        }),
        ({
            let p = lit_obj_id().len() + json_string(m.id).len() + lit_title().len()
                + json_string(m.title).len() + lit_author().len() + json_string(m.author).len()
                + lit_version().len() + json_string(m.version).len() + lit_description().len()
                + json_string(m.description).len() + lit_secret().len() + json_string(
                m.secret_key_hash,
            ).len();
            sp_lit(b, p as int, lit_entry()) == Some((p + lit_entry().len()) as int)
                && sp_json_str(b, (p + lit_entry().len()) as int) == Some(
                (m.entry_point, json_string(m.entry_point).len() as nat),
            )
        }),
{
    let w = man_head(m);
    let wl = w.len() as int;
    let s1 = json_string(m.id);
    let s2 = json_string(m.title);
    let s3 = json_string(m.author);
    let s4 = json_string(m.version);
    let s5 = json_string(m.description);
    let s6 = json_string(m.secret_key_hash);
    let s7 = json_string(m.entry_point);
    let o1 = lit_obj_id().len() as int;
    let o2 = o1 + s1.len();
    let o3 = o2 + lit_title().len();
    let o4 = o3 + s2.len();
    let o5 = o4 + lit_author().len();
    let o6 = o5 + s3.len();
    let o7 = o6 + lit_version().len();
    let o8 = o7 + s4.len();
    let o9 = o8 + lit_description().len();
    let o10 = o9 + s5.len();
    let o11 = o10 + lit_secret().len();
    let o12 = o11 + s6.len();
    let o13 = o12 + lit_entry().len();
    let o14 = o13 + s7.len();
    assert(b.subrange(0, o1) =~= lit_obj_id()) by {
        lemma_sub_at(b, 0, wl, 0, o1);
        assert(w.subrange(0, o1) =~= lit_obj_id());
    }
    assert(b.subrange(o1, o2) =~= s1) by {
        lemma_sub_at(b, 0, wl, o1, s1.len() as int);
        assert(w.subrange(o1, o2) =~= s1);
    }
    lemma_sp_json_str_enc(m.id, b, o1);
    assert(b.subrange(o2, o3) =~= lit_title()) by {
        lemma_sub_at(b, 0, wl, o2, lit_title().len() as int);
        assert(w.subrange(o2, o3) =~= lit_title());
    }
    assert(b.subrange(o3, o4) =~= s2) by {
        lemma_sub_at(b, 0, wl, o3, s2.len() as int);
        assert(w.subrange(o3, o4) =~= s2);
    }
    lemma_sp_json_str_enc(m.title, b, o3);
    assert(b.subrange(o4, o5) =~= lit_author()) by {
        lemma_sub_at(b, 0, wl, o4, lit_author().len() as int);
        assert(w.subrange(o4, o5) =~= lit_author());
    }
    assert(b.subrange(o5, o6) =~= s3) by {
        lemma_sub_at(b, 0, wl, o5, s3.len() as int);
        assert(w.subrange(o5, o6) =~= s3);
    }
    lemma_sp_json_str_enc(m.author, b, o5);
    assert(b.subrange(o6, o7) =~= lit_version()) by {
        lemma_sub_at(b, 0, wl, o6, lit_version().len() as int);
        assert(w.subrange(o6, o7) =~= lit_version());
    }
    assert(b.subrange(o7, o8) =~= s4) by {
        lemma_sub_at(b, 0, wl, o7, s4.len() as int);
        assert(w.subrange(o7, o8) =~= s4);
    }
    lemma_sp_json_str_enc(m.version, b, o7);
    assert(b.subrange(o8, o9) =~= lit_description()) by {
        lemma_sub_at(b, 0, wl, o8, lit_description().len() as int);
        assert(w.subrange(o8, o9) =~= lit_description());
    }
    assert(b.subrange(o9, o10) =~= s5) by {
        lemma_sub_at(b, 0, wl, o9, s5.len() as int);
        assert(w.subrange(o9, o10) =~= s5);
    }
    lemma_sp_json_str_enc(m.description, b, o9);
    assert(b.subrange(o10, o11) =~= lit_secret()) by {
        lemma_sub_at(b, 0, wl, o10, lit_secret().len() as int);
        assert(w.subrange(o10, o11) =~= lit_secret());
    }
    assert(b.subrange(o11, o12) =~= s6) by {
        lemma_sub_at(b, 0, wl, o11, s6.len() as int);
        assert(w.subrange(o11, o12) =~= s6);
    }
    lemma_sp_json_str_enc(m.secret_key_hash, b, o11);
    assert(b.subrange(o12, o13) =~= lit_entry()) by {
        lemma_sub_at(b, 0, wl, o12, lit_entry().len() as int);
        assert(w.subrange(o12, o13) =~= lit_entry());
    }
    assert(b.subrange(o13, o14) =~= s7) by {
        lemma_sub_at(b, 0, wl, o13, s7.len() as int);
        assert(w.subrange(o13, o14) =~= s7);
    }
    lemma_sp_json_str_enc(m.entry_point, b, o13);
}

/// The reads of the asset half, which ends the input exactly.
#[verifier::rlimit(100)]
proof fn lemma_man_tail(m: ManifestView, b: Seq<u8>, pos: int)
    requires
        0 <= pos,
        pos + man_tail(m).len() == b.len(),
        b.subrange(pos, pos + man_tail(m).len()) =~= man_tail(m),
    ensures
        sp_lit(b, pos, lit_assets()) == Some((pos + lit_assets().len()) as int),
        sp_assets(b, pos + lit_assets().len()) == Some(
            (
                m.required_assets,
                pos + lit_assets().len() + json_assets(m.required_assets).len(),
            ),
        ),
        ({
            let p = pos + lit_assets().len() + json_assets(m.required_assets).len();
            sp_lit(b, p, lit_engine()) == Some((p + lit_engine().len()) as int) && sp_json_str(
                b,
                p + lit_engine().len(),
            ) == Some((m.engine_version, json_string(m.engine_version).len() as nat)) && sp_lit(
                b,
                p + lit_engine().len() + json_string(m.engine_version).len(),
                lit_close(),
            ) == Some(b.len() as int)
        }),
        b.len() == pos + man_tail(m).len(),
{
    let w = man_tail(m);
    let wl = w.len() as int;
    let aj = json_assets(m.required_assets);
    let s9 = json_string(m.engine_version);
    let o1 = lit_assets().len() as int;
    let o2 = o1 + aj.len();
    let o3 = o2 + lit_engine().len();
    let o4 = o3 + s9.len();
    let o5 = o4 + lit_close().len();
    assert(b.subrange(pos, pos + o1) =~= lit_assets()) by {
        lemma_sub_at(b, pos, wl, 0, o1);
        assert(w.subrange(0, o1) =~= lit_assets());
    }
    assert(b.subrange(pos + o1, pos + o2) =~= aj) by {
        lemma_sub_at(b, pos, wl, o1, aj.len() as int);
        assert(w.subrange(o1, o2) =~= aj);
    }
    assert(b.subrange(pos + o2, pos + o3) =~= lit_engine()) by {
        lemma_sub_at(b, pos, wl, o2, lit_engine().len() as int);
        assert(w.subrange(o2, o3) =~= lit_engine());
    }
    assert(b[pos + o2] == 0x5d) by {
        assert(b.subrange(pos + o2, pos + o3)[0] == lit_engine()[0]);
    }
    lemma_sp_assets_enc(m.required_assets, b, pos + o1);
    assert(b.subrange(pos + o3, pos + o4) =~= s9) by {
        lemma_sub_at(b, pos, wl, o3, s9.len() as int);
        assert(w.subrange(o3, o4) =~= s9);
    }
    lemma_sp_json_str_enc(m.engine_version, b, pos + o3);
    assert(b.subrange(pos + o4, pos + o5) =~= lit_close()) by {
        lemma_sub_at(b, pos, wl, o4, lit_close().len() as int);
        assert(w.subrange(o4, o5) =~= lit_close());
    }
}

/// Reading a whole manifest off its canonical encoding yields the manifest
/// back: the round trip of the manifest serialization.
#[verifier::rlimit(100)]
pub proof fn lemma_manifest_round_trip(m: ManifestView)
    ensures
        sp_manifest(json_manifest(m)) == Some(m),
{
    let b = json_manifest(m);
    assert(b =~= man_head(m) + man_tail(m));
    assert(b.subrange(0, b.len() as int) =~= b);
    lemma_split(b, 0, man_head(m), man_tail(m));
    lemma_man_head(m, b);
    let h = man_head(m).len() as int;
    lemma_man_tail(m, b, h);
    assert(h == lit_obj_id().len() + json_string(m.id).len() + lit_title().len() + json_string(
        m.title,
    ).len() + lit_author().len() + json_string(m.author).len() + lit_version().len()
        + json_string(m.version).len() + lit_description().len() + json_string(
        m.description,
    ).len() + lit_secret().len() + json_string(m.secret_key_hash).len() + lit_entry().len()
        + json_string(m.entry_point).len());
    lemma_manifest_assemble(m, b, h);
}

// --- the reader ----------------------------------------------------------
/// Steps over `lit` at `pos` when it is there.
fn eat_lit(b: &[u8], pos: usize, lit: &[u8]) -> (r: Option<usize>)
    ensures
        match sp_lit(b@, pos as int, lit@) {
            None => r is None,
            Some(p) => r matches Some(q) && q == p,
        },
{
    let n = lit.len();
    if pos > b.len() || b.len() - pos < n {
        return None;
    }
    let mut i: usize = 0;
    while i < n
        invariant
            n == lit@.len(),
            pos + n <= b@.len(),
            b@.len() <= usize::MAX,
            0 <= i <= n,
            forall|j: int| 0 <= j < i ==> b@[pos + j] == lit@[j],
        decreases n - i,
    {
        if b[pos + i] != lit[i] {
            proof {
                if b@.subrange(pos as int, pos + n) == lit@ {
                    assert(b@.subrange(pos as int, pos + n)[i as int] == lit@[i as int]);
                }
            }
            return None;
        }
        i = i + 1;
    }
    proof {
        assert(b@.subrange(pos as int, pos + n) =~= lit@);
    }
    Some(pos + n)
}

/// Reads a quoted JSON string at `pos`, undoing the escapes.
#[verifier::rlimit(100)]
fn parse_json_string(b: &[u8], pos: usize) -> (r: Option<(String, usize)>)
    ensures
        match sp_json_str(b@, pos as int) {
            None => r is None,
            Some(p) => r matches Some(q) && q.0@ == p.0 && q.1 == pos + p.1,
        },
{
    if pos >= b.len() || b[pos] != 0x22 {
        return None;
    }
    let mut out: Vec<u8> = Vec::new();
    let mut cur: usize = pos + 1;
    loop
        invariant
            pos + 1 <= cur <= b@.len(),
            b@.len() <= usize::MAX,
            pos < b@.len() && b@[pos as int] == 0x22,
            (match sp_str_bytes(b@, cur as int) {
                None => sp_str_bytes(b@, pos + 1) is None,
                Some(p) => sp_str_bytes(b@, pos + 1) matches Some(w) && w.0 == out@ + p.0 && w.1
                    == (cur - pos - 1) + p.1,
            }),
        decreases b@.len() - cur,
    {
        if cur >= b.len() {
            return None;
        }
        let x = b[cur];
        if x == 0x22 {
            proof {
                assert(sp_str_bytes(b@, cur as int) == Some((Seq::<u8>::empty(), 1nat)));
                assert(out@ + Seq::<u8>::empty() =~= out@);
            }
            let end = cur + 1;
            match crate::strutil::utf8_bytes_to_string(out) {
                Some(st) => {
                    proof {
                        vstd::utf8::encode_utf8_decode_utf8(st@);
                    }
                    return Some((st, end));
                },
                None => {
                    return None;
                },
            }
        } else if x == 0x5c {
            if b.len() - cur < 2 {
                return None;
            }
            let y = b[cur + 1];
            if y == 0x22 || y == 0x5c || y == 0x2f {
                let ghost before = out@;
                out.push(y);
                proof {
                    assert(sp_str_bytes(b@, cur as int) == (match sp_str_bytes(b@, cur + 2) {
                        None => None,
                        Some((rest, u)) => Some((seq![y] + rest, (2 + u) as nat)),
                    }));
                    assert forall|rest: Seq<u8>| before + (seq![y] + rest) =~= out@ + rest by {
                        assert(before + (seq![y] + rest) =~= (before + seq![y]) + rest);
                        assert(before + seq![y] =~= out@);
                    }
                }
                cur = cur + 2;
            } else if y == 0x62 || y == 0x66 || y == 0x6e || y == 0x72 || y == 0x74 {
                let v: u8 = if y == 0x62 {
                    0x08
                } else if y == 0x66 {
                    0x0c
                } else if y == 0x6e {
                    0x0a
                } else if y == 0x72 {
                    0x0d
                } else {
                    0x09
                };
                let ghost before = out@;
                out.push(v);
                proof {
                    assert(v == short_escape_byte(y));
                    assert(sp_str_bytes(b@, cur as int) == (match sp_str_bytes(b@, cur + 2) {
                        None => None,
                        Some((rest, u)) => Some(
                            (seq![short_escape_byte(y)] + rest, (2 + u) as nat),
                        ),
                    }));
                    assert forall|rest: Seq<u8>| before + (seq![v] + rest) =~= out@ + rest by {
                        assert(before + (seq![v] + rest) =~= (before + seq![v]) + rest);
                        assert(before + seq![v] =~= out@);
                    }
                }
                cur = cur + 2;
            } else if y == 0x75 {
                if b.len() - cur < 6 {
                    return None;
                }
                if b[cur + 2] != 0x30 || b[cur + 3] != 0x30 {
                    return None;
                }
                let h1 = b[cur + 4];
                let h2 = b[cur + 5];
                let v1: u8;
                let v2: u8;
                if 48 <= h1 && h1 <= 57 {
                    v1 = h1 - 48;
                } else if 97 <= h1 && h1 <= 102 {
                    v1 = h1 - 87;
                } else {
                    return None;
                }
                if 48 <= h2 && h2 <= 57 {
                    v2 = h2 - 48;
                } else if 97 <= h2 && h2 <= 102 {
                    v2 = h2 - 87;
                } else {
                    return None;
                }
                if v1 >= 2 {
                    proof {
                        assert(hexval(h1) * 16 + hexval(h2) >= 0x20);
                    }
                    return None;
                }
                let v = v1 * 16 + v2;
                if v >= 0x20 {
                    return None;
                }
                let ghost before = out@;
                out.push(v);
                proof {
                    assert(v == (hexval(h1) * 16 + hexval(h2)) as u8);
                    assert(sp_str_bytes(b@, cur as int) == (match sp_str_bytes(b@, cur + 6) {
                        None => None,
                        Some((rest, u)) => Some((seq![v] + rest, (6 + u) as nat)),
                    }));
                    assert forall|rest: Seq<u8>| before + (seq![v] + rest) =~= out@ + rest by {
                        assert(before + (seq![v] + rest) =~= (before + seq![v]) + rest);
                        assert(before + seq![v] =~= out@);
                    }
                }
                cur = cur + 6;
            } else {
                return None;
            }
        } else if x < 0x20 {
            return None;
        } else {
            let ghost before = out@;
            out.push(x);
            proof {
                assert(sp_str_bytes(b@, cur as int) == (match sp_str_bytes(b@, cur + 1) {
                    None => None,
                    Some((rest, u)) => Some((seq![x] + rest, (1 + u) as nat)),
                }));
                assert forall|rest: Seq<u8>| before + (seq![x] + rest) =~= out@ + rest by {
                    assert(before + (seq![x] + rest) =~= (before + seq![x]) + rest);
                    assert(before + seq![x] =~= out@);
                }
            }
            cur = cur + 1;
        }
    }
}

/// Reads a decimal number at `pos`.
fn parse_u64(b: &[u8], pos: usize) -> (r: Option<(u64, usize)>)
    ensures
        match sp_u64(b@, pos as int) {
            None => r is None,
            Some(p) => r matches Some(q) && q.0 == p.0 && q.1 == pos + p.1,
        },
{
    if pos >= b.len() || !(48 <= b[pos] && b[pos] <= 57) {
        return None;
    }
    if b[pos] == 48 && pos + 1 < b.len() && 48 <= b[pos + 1] && b[pos + 1] <= 57 {
        return None;
    }
    let mut acc: u64 = 0;
    let mut cur: usize = pos;
    loop
        invariant
            pos <= cur <= b@.len(),
            b@.len() <= usize::MAX,
            pos < b@.len() && is_digit(b@[pos as int]),
            !(b@[pos as int] == 48 && pos + 1 < b@.len() && is_digit(b@[pos + 1])),
            (match sp_digits_acc(b@, cur as int, acc) {
                None => sp_digits_acc(b@, pos as int, 0) is None,
                Some(p) => sp_digits_acc(b@, pos as int, 0) matches Some(w) && w.0 == p.0 && w.1
                    == (cur - pos) + p.1,
            }),
        ensures
            pos <= cur <= b@.len(),
            pos < b@.len() && is_digit(b@[pos as int]),
            !(b@[pos as int] == 48 && pos + 1 < b@.len() && is_digit(b@[pos + 1])),
            sp_digits_acc(b@, pos as int, 0) == Some((acc, (cur - pos) as nat)),
        decreases b@.len() - cur,
    {
        if cur >= b.len() || !(48 <= b[cur] && b[cur] <= 57) {
            proof {
                assert(sp_digits_acc(b@, cur as int, acc) == Some((acc, 0nat)));
            }
            break;
        }
        let d = (b[cur] - 48) as u64;
        if acc > 0x1999999999999999u64 || (acc == 0x1999999999999999u64 && d > 5) {
            proof {
                assert(sp_digits_acc(b@, cur as int, acc) is None);
            }
            return None;
        }
        proof {
            assert(sp_digits_acc(b@, cur as int, acc) == (match sp_digits_acc(
                b@,
                cur + 1,
                (acc * 10 + (b@[cur as int] - 48)) as u64,
            ) {
                None => None::<(u64, nat)>,
                Some((v, u)) => Some((v, (1 + u) as nat)),
            }));
        }
        acc = acc * 10 + d;
        cur = cur + 1;
    }
    Some((acc, cur))
}

/// Reads an asset kind name with the closing quote and brace.
fn parse_kind(b: &[u8], pos: usize) -> (r: Option<(AssetType, usize)>)
    ensures
        match sp_kind(b@, pos as int) {
            None => r is None,
            Some(p) => r matches Some(q) && q.0 == p.0 && q.1 == p.1,
        },
{
    let l_sprite: &[u8] = &[0x53, 0x70, 0x72, 0x69, 0x74, 0x65, 0x22, 0x7d];
    let l_audio: &[u8] = &[0x41, 0x75, 0x64, 0x69, 0x6f, 0x22, 0x7d];
    let l_script: &[u8] = &[0x53, 0x63, 0x72, 0x69, 0x70, 0x74, 0x22, 0x7d];
    let l_data: &[u8] = &[0x44, 0x61, 0x74, 0x61, 0x22, 0x7d];
    let l_font: &[u8] = &[0x46, 0x6f, 0x6e, 0x74, 0x22, 0x7d];
    proof {
        assert(l_sprite@ =~= lit_sprite());
        assert(l_audio@ =~= lit_audio());
        assert(l_script@ =~= lit_script());
        assert(l_data@ =~= lit_data());
        assert(l_font@ =~= lit_font());
    }
    if let Some(p) = eat_lit(b, pos, l_sprite) {
        return Some((AssetType::Sprite, p));
    }
    if let Some(p) = eat_lit(b, pos, l_audio) {
        return Some((AssetType::Audio, p));
    }
    if let Some(p) = eat_lit(b, pos, l_script) {
        return Some((AssetType::Script, p));
    }
    if let Some(p) = eat_lit(b, pos, l_data) {
        return Some((AssetType::Data, p));
    }
    if let Some(p) = eat_lit(b, pos, l_font) {
        return Some((AssetType::Font, p));
    }
    None
}

/// Reads one asset object at `pos`.
fn parse_asset(b: &[u8], pos: usize) -> (r: Option<(AssetInfo, usize)>)
    ensures
        match sp_asset(b@, pos as int) {
            None => r is None,
            Some(p) => r matches Some(q) && q.0@ == p.0 && q.1 == p.1,
        },
{
    let l_path: &[u8] = &[0x7b, 0x22, 0x70, 0x61, 0x74, 0x68, 0x22, 0x3a];
    let l_checksum: &[u8] = &[
        0x2c,
        0x22,
        0x63,
        0x68,
        0x65,
        0x63,
        0x6b,
        0x73,
        0x75,
        0x6d,
        0x22,
        0x3a,
    ];
    let l_size: &[u8] = &[0x2c, 0x22, 0x73, 0x69, 0x7a, 0x65, 0x22, 0x3a];
    let l_atype: &[u8] = &[
        0x2c,
        0x22,
        0x61,
        0x73,
        0x73,
        0x65,
        0x74,
        0x5f,
        0x74,
        0x79,
        0x70,
        0x65,
        0x22,
        0x3a,
        0x22,
    ];
    proof {
        assert(l_path@ =~= lit_path());
        assert(l_checksum@ =~= lit_checksum());
        assert(l_size@ =~= lit_size());
        assert(l_atype@ =~= lit_atype());
    }
    let p1 = match eat_lit(b, pos, l_path) {
        Some(p) => p,
        None => {
            return None;
        },
    };
    let (path, p2) = match parse_json_string(b, p1) {
        Some(x) => x,
        None => {
            return None;
        },
    };
    let p3 = match eat_lit(b, p2, l_checksum) {
        Some(p) => p,
        None => {
            return None;
        },
    };
    let (checksum, p4) = match parse_json_string(b, p3) {
        Some(x) => x,
        None => {
            return None;
        },
    };
    let p5 = match eat_lit(b, p4, l_size) {
        Some(p) => p,
        None => {
            return None;
        },
    };
    let (size, p6) = match parse_u64(b, p5) {
        Some(x) => x,
        None => {
            return None;
        },
    };
    let p7 = match eat_lit(b, p6, l_atype) {
        Some(p) => p,
        None => {
            return None;
        },
    };
    let (asset_type, p8) = match parse_kind(b, p7) {
        Some(x) => x,
        None => {
            return None;
        },
    };
    Some((AssetInfo { path, checksum, size, asset_type }, p8))
}

/// Reads the asset list body at `pos`.
#[verifier::rlimit(100)]
fn parse_assets(b: &[u8], pos: usize) -> (r: Option<(Vec<AssetInfo>, usize)>)
    ensures
        match sp_assets(b@, pos as int) {
            None => r is None,
            Some(p) => r matches Some(q) && asset_views(q.0@) == p.0 && q.1 == p.1,
        },
{
    let mut out: Vec<AssetInfo> = Vec::new();
    if pos < b.len() && b[pos] == 0x5d {
        proof {
            assert(asset_views(out@) =~= Seq::<AssetView>::empty());
        }
        return Some((out, pos));
    }
    let (first, mut cur) = match parse_asset(b, pos) {
        Some(x) => x,
        None => {
            return None;
        },
    };
    if cur <= pos || cur > b.len() {
        return None;
    }
    out.push(first);
    proof {
        assert(asset_views(out@) =~= seq![first@]);
    }
    let ghost whole = sp_assets(b@, pos as int);
    loop
        invariant
            pos < cur <= b@.len(),
            whole == sp_assets(b@, pos as int),
            out@.len() >= 1,
            (match sp_assets_more(b@, cur as int) {
                None => whole is None,
                Some(p) => whole matches Some(w) && w.0 == asset_views(out@) + p.0 && w.1 == p.1,
            }),
        decreases b@.len() - cur,
    {
        if cur < b.len() && b[cur] == 0x5d {
            proof {
                assert(sp_assets_more(b@, cur as int) == Some(
                    (Seq::<AssetView>::empty(), cur as int),
                ));
                assert(asset_views(out@) + Seq::<AssetView>::empty() =~= asset_views(out@));
            }
            return Some((out, cur));
        }
        if cur >= b.len() || b[cur] != 0x2c {
            return None;
        }
        let (a, np) = match parse_asset(b, cur + 1) {
            Some(x) => x,
            None => {
                return None;
            },
        };
        if np <= cur || np > b.len() {
            return None;
        }
        let ghost before = out@;
        out.push(a);
        proof {
            assert(asset_views(out@) =~= asset_views(before) + seq![a@]);
            assert forall|rest: Seq<AssetView>|
                asset_views(before) + (seq![a@] + rest) =~= asset_views(out@) + rest by {}
        }
        cur = np;
    }
}

/// Deserializes a manifest from its JSON bytes. The reader accepts the
/// canonical shape this crate writes — fields in declaration order, no
/// insignificant whitespace — with the standard string escapes undone.
pub fn parse_manifest_json(b: &[u8]) -> (r: Option<GameInfo>)
    ensures
        match sp_manifest(b@) {
            None => r is None,
            Some(m) => r matches Some(g) && g@ == m,
        },
{
    let l_obj_id: &[u8] = &[0x7b, 0x22, 0x69, 0x64, 0x22, 0x3a];
    let l_title: &[u8] = &[0x2c, 0x22, 0x74, 0x69, 0x74, 0x6c, 0x65, 0x22, 0x3a];
    let l_author: &[u8] = &[0x2c, 0x22, 0x61, 0x75, 0x74, 0x68, 0x6f, 0x72, 0x22, 0x3a];
    let l_version: &[u8] = &[0x2c, 0x22, 0x76, 0x65, 0x72, 0x73, 0x69, 0x6f, 0x6e, 0x22, 0x3a];
    let l_description: &[u8] = &[
        0x2c,
        0x22,
        0x64,
        0x65,
        0x73,
        0x63,
        0x72,
        0x69,
        0x70,
        0x74,
        0x69,
        0x6f,
        0x6e,
        0x22,
        0x3a,
    ];
    let l_secret: &[u8] = &[
        0x2c,
        0x22,
        0x73,
        0x65,
        0x63,
        0x72,
        0x65,
        0x74,
        0x5f,
        0x6b,
        0x65,
        0x79,
        0x5f,
        0x68,
        0x61,
        0x73,
        0x68,
        0x22,
        0x3a,
    ];
    let l_entry: &[u8] = &[
        0x2c,
        0x22,
        0x65,
        0x6e,
        0x74,
        0x72,
        0x79,
        0x5f,
        0x70,
        0x6f,
        0x69,
        0x6e,
        0x74,
        0x22,
        0x3a,
    ];
    let l_assets: &[u8] = &[
        0x2c,
        0x22,
        0x72,
        0x65,
        0x71,
        0x75,
        0x69,
        0x72,
        0x65,
        0x64,
        0x5f,
        0x61,
        0x73,
        0x73,
        0x65,
        0x74,
        0x73,
        0x22,
        0x3a,
        0x5b,
    ];
    let l_engine: &[u8] = &[
        0x5d,
        0x2c,
        0x22,
        0x65,
        0x6e,
        0x67,
        0x69,
        0x6e,
        0x65,
        0x5f,
        0x76,
        0x65,
        0x72,
        0x73,
        0x69,
        0x6f,
        0x6e,
        0x22,
        0x3a,
    ];
    let l_close: &[u8] = &[0x7d];
    proof {
        assert(l_obj_id@ =~= lit_obj_id());
        assert(l_title@ =~= lit_title());
        assert(l_author@ =~= lit_author());
        assert(l_version@ =~= lit_version());
        assert(l_description@ =~= lit_description());
        assert(l_secret@ =~= lit_secret());
        assert(l_entry@ =~= lit_entry());
        assert(l_assets@ =~= lit_assets());
        assert(l_engine@ =~= lit_engine());
        assert(l_close@ =~= lit_close());
    }
    let p1 = match eat_lit(b, 0, l_obj_id) {
        Some(p) => p,
        None => {
            return None;
        },
    };
    let (id, q1) = match parse_json_string(b, p1) {
        Some(x) => x,
        None => {
            return None;
        },
    };
    let p2 = match eat_lit(b, q1, l_title) {
        Some(p) => p,
        None => {
            return None;
        },
    };
    let (title, q2) = match parse_json_string(b, p2) {
        Some(x) => x,
        None => {
            return None;
        },
    };
    let p3 = match eat_lit(b, q2, l_author) {
        Some(p) => p,
        None => {
            return None;
        },
    };
    let (author, q3) = match parse_json_string(b, p3) {
        Some(x) => x,
        None => {
            return None;
        },
    };
    let p4 = match eat_lit(b, q3, l_version) {
        Some(p) => p,
        None => {
            return None;
        },
    };
    let (version, q4) = match parse_json_string(b, p4) {
        Some(x) => x,
        None => {
            return None;
        },
    };
    let p5 = match eat_lit(b, q4, l_description) {
        Some(p) => p,
        None => {
            return None;
        },
    };
    let (description, q5) = match parse_json_string(b, p5) {
        Some(x) => x,
        None => {
            return None;
        },
    };
    let p6 = match eat_lit(b, q5, l_secret) {
        Some(p) => p,
        None => {
            return None;
        },
    };
    let (secret_key_hash, q6) = match parse_json_string(b, p6) {
        Some(x) => x,
        None => {
            return None;
        },
    };
    let p7 = match eat_lit(b, q6, l_entry) {
        Some(p) => p,
        None => {
            return None;
        },
    };
    let (entry_point, q7) = match parse_json_string(b, p7) {
        Some(x) => x,
        None => {
            return None;
        },
    };
    let p8 = match eat_lit(b, q7, l_assets) {
        Some(p) => p,
        None => {
            return None;
        },
    };
    let (required_assets, q8) = match parse_assets(b, p8) {
        Some(x) => x,
        None => {
            return None;
        },
    };
    let p9 = match eat_lit(b, q8, l_engine) {
        Some(p) => p,
        None => {
            return None;
        },
    };
    let (engine_version, q9) = match parse_json_string(b, p9) {
        Some(x) => x,
        None => {
            return None;
        },
    };
    let p10 = match eat_lit(b, q9, l_close) {
        Some(p) => p,
        None => {
            return None;
        },
    };
    if p10 != b.len() {
        return None;
    }
    Some(
        GameInfo {
            id,
            title,
            author,
            version,
            description,
            secret_key_hash,
            entry_point,
            required_assets,
            engine_version,
        },
    )
}

} // verus!
