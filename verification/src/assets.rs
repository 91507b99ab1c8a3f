//! The in-memory typed asset registry: sprites, audio clips, scripts, fonts
//! and opaque data blobs, keyed by file name, with bulk clear and approximate
//! memory accounting.

use vstd::prelude::*;
use vstd::string::StrSliceExecFns;

use crate::errors::CacaoError;
use crate::kvlist::distinct_keys;
use crate::kvlist::has_key;
use crate::kvlist::kv_get;
use crate::kvlist::kv_insert;
use crate::kvlist::value_sel;
use crate::strutil::utf8_bytes_to_string;

verus! {

/// The asset kinds a bundle manifest can declare.
#[derive(Debug, Clone, Copy, PartialEq, Eq, Structural)]
pub enum AssetType {
    Sprite,
    Audio,
    Script,
    Data,
    Font,
}

/// The container format of a stored audio clip.
#[derive(Debug, Clone, Copy, PartialEq, Eq, Structural)]
pub enum AudioFormat {
    Wav,
    Ogg,
    Mp3,
}

/// A decoded audio asset: raw bytes, format tag, and the sample layout.
#[derive(Debug, Clone)]
pub struct AudioClip {
    pub data: Vec<u8>,
    pub format: AudioFormat,
    pub sample_rate: u32,
    pub channels: u16,
}

/// A font asset: raw bytes and the family name taken from the file stem.
#[derive(Debug, Clone)]
pub struct Font {
    pub data: Vec<u8>,
    pub name: String,
}

/// The dimensions a loaded texture or sprite occupies on the GPU.
#[derive(Debug, Clone, Copy, PartialEq, Eq, Structural)]
pub struct TextureInfo {
    pub width: u32,
    pub height: u32,
}

/// The key sets of every registry, for introspection.
#[derive(Debug)]
pub struct AssetListing {
    pub sprites: Vec<String>,
    pub textures: Vec<String>,
    pub audio_clips: Vec<String>,
    pub scripts: Vec<String>,
    pub fonts: Vec<String>,
    pub data_files: Vec<String>,
}

/// Approximate bytes held per asset kind.
#[derive(Debug, Clone, Copy, PartialEq, Eq, Structural)]
pub struct AssetMemoryInfo {
    pub sprite_memory: usize,
    pub texture_memory: usize,
    pub audio_memory: usize,
    pub script_memory: usize,
    pub font_memory: usize,
    pub data_memory: usize,
    pub total_memory: usize,
}

// --- WAV header peek ---------------------------------------------------
/// Whether `d` starts with a plausible 44-byte RIFF/WAVE header.
pub open spec fn wav_header_ok(d: Seq<u8>) -> bool {
    &&& d.len() >= 44
    &&& d[0] == 82 && d[1] == 73 && d[2] == 70 && d[3] == 70  // "RIFF"
    &&& d[8] == 87 && d[9] == 65 && d[10] == 86 && d[11] == 69  // "WAVE"
}

/// The channel count at offset 22, little endian.
pub open spec fn wav_channels(d: Seq<u8>) -> int {
    d[22] + d[23] * 0x100
}

/// The sample rate at offset 24, little endian.
pub open spec fn wav_sample_rate(d: Seq<u8>) -> int {
    d[24] + d[25] * 0x100 + d[26] * 0x10000 + d[27] * 0x1000000
}

/// Reads the sample rate and channel count out of a WAV header. Succeeds
/// exactly on data that passes `wav_header_ok`.
pub fn parse_wav_header(data: &[u8]) -> (r: Result<(u32, u16), CacaoError>)
    ensures
        r is Ok <==> wav_header_ok(data@),
        r matches Ok(p) ==> p.0 == wav_sample_rate(data@) && p.1 == wav_channels(data@),
        r matches Err(e) ==> e is AudioError,
{
    if data.len() < 44 {
        return Err(CacaoError::AudioError(String::from_str("Invalid WAV file: too short")));
    }
    if !(data[0] == 82 && data[1] == 73 && data[2] == 70 && data[3] == 70) {
        return Err(
            CacaoError::AudioError(String::from_str("Invalid WAV file: missing RIFF header")),
        );
    }
    if !(data[8] == 87 && data[9] == 65 && data[10] == 86 && data[11] == 69) {
        return Err(CacaoError::AudioError(String::from_str("Invalid WAV file: not WAVE format")));
    }
    let sample_rate: u32 = (data[24] as u32) + (data[25] as u32) * 0x100 + (data[26] as u32)
        * 0x10000 + (data[27] as u32) * 0x1000000;
    let channels: u16 = (data[22] as u16) + (data[23] as u16) * 0x100;
    Ok((sample_rate, channels))
}

// --- file name helpers --------------------------------------------------
/// The index of the last `.` in `s`, or -1 when there is none.
pub open spec fn last_dot(s: Seq<char>) -> int
    decreases s.len(),
{
    if s.len() == 0 {
        -1
    } else if s.last() == '.' {
        s.len() - 1
    } else {
        last_dot(s.drop_last())
    }
}

/// Any dot position bounds `last_dot` from below.
pub proof fn lemma_dot_below_last(s: Seq<char>, i: int)
    requires
        0 <= i < s.len(),
        s[i] == '.',
    ensures
        last_dot(s) >= i,
    decreases s.len(),
{
    if s.last() == '.' {
    } else {
        let t = s.drop_last();
        assert(i < t.len());
        assert(t[i] == s[i]);
        lemma_dot_below_last(t, i);
    }
}

/// `last_dot` lands on a dot and inside the name.
pub proof fn lemma_last_dot_char(s: Seq<char>)
    ensures
        last_dot(s) >= -1,
        last_dot(s) < s.len(),
        last_dot(s) >= 0 ==> s[last_dot(s)] == '.',
    decreases s.len(),
{
    if s.len() > 0 && s.last() != '.' {
        let t = s.drop_last();
        lemma_last_dot_char(t);
        if last_dot(t) >= 0 {
            assert(t[last_dot(t)] == s[last_dot(t)]);
        }
    }
}

/// The extension of a file name: what follows the last dot, provided the
/// dot is not the leading character.
pub open spec fn spec_extension(s: Seq<char>) -> Option<Seq<char>> {
    if last_dot(s) >= 1 {
        Some(s.subrange(last_dot(s) + 1, s.len() as int))
    } else {
        None
    }
}

/// The stem of a file name: what precedes the last dot, or the whole name.
pub open spec fn spec_stem(s: Seq<char>) -> Seq<char> {
    if last_dot(s) >= 1 {
        s.subrange(0, last_dot(s))
    } else {
        s
    }
}

/// The position right after the last dot of `name`, or 0 if the name has no
/// dot at all.
pub(crate) fn find_ext_start_pub(name: &str) -> (r: usize)
    ensures
        r <= name@.len(),
        r >= 1 ==> last_dot(name@) == r - 1,
        r == 0 ==> last_dot(name@) == -1,
{
    let n = name.unicode_len();
    let mut i: usize = n;
    while i > 0
        invariant
            n == name@.len(),
            0 <= i <= n,
            forall|j: int| i <= j < n ==> name@[j] != '.',
        decreases i,
    {
        let c = name.get_char(i - 1);
        if c == '.' {
            proof {
                lemma_dot_below_last(name@, i - 1);
                lemma_last_dot_char(name@);
                let d = last_dot(name@);
                if d > i - 1 {
                    assert(name@[d] != '.');
                }
                assert(d == i - 1);
            }
            return i;
        }
        i = i - 1;
    }
    proof {
        lemma_last_dot_char(name@);
        let d = last_dot(name@);
        if d >= 0 {
            assert(name@[d] != '.');
            assert(false);
        }
    }
    0
}

/// The index of the last `/` in `s`, or -1 when there is none.
pub open spec fn last_slash(s: Seq<char>) -> int
    decreases s.len(),
{
    if s.len() == 0 {
        -1
    } else if s.last() == '/' {
        s.len() - 1
    } else {
        last_slash(s.drop_last())
    }
}

/// Any slash position bounds `last_slash` from below.
proof fn lemma_slash_below_last(s: Seq<char>, i: int)
    requires
        0 <= i < s.len(),
        s[i] == '/',
    ensures
        last_slash(s) >= i,
    decreases s.len(),
{
    if s.last() == '/' {
    } else {
        let t = s.drop_last();
        assert(i < t.len());
        assert(t[i] == s[i]);
        lemma_slash_below_last(t, i);
    }
}

/// `last_slash` lands on a slash and inside the name.
proof fn lemma_last_slash_char(s: Seq<char>)
    ensures
        last_slash(s) >= -1,
        last_slash(s) < s.len(),
        last_slash(s) >= 0 ==> s[last_slash(s)] == '/',
    decreases s.len(),
{
    if s.len() > 0 && s.last() != '/' {
        let t = s.drop_last();
        lemma_last_slash_char(t);
        if last_slash(t) >= 0 {
            assert(t[last_slash(t)] == s[last_slash(t)]);
        }
    }
}

/// The final component of a path: what follows the last `/`, or the whole
/// path.
pub open spec fn path_file_name(s: Seq<char>) -> Seq<char> {
    if last_slash(s) >= 0 {
        s.subrange(last_slash(s) + 1, s.len() as int)
    } else {
        s
    }
}

/// The final path component of `path` as an owned string.
pub fn file_name_part(path: &str) -> (r: String)
    ensures
        r@ == path_file_name(path@),
{
    let n = path.unicode_len();
    let mut i: usize = n;
    while i > 0
        invariant
            n == path@.len(),
            0 <= i <= n,
            forall|j: int| i <= j < n ==> path@[j] != '/',
        decreases i,
    {
        let c = path.get_char(i - 1);
        if c == '/' {
            proof {
                lemma_slash_below_last(path@, i - 1);
                lemma_last_slash_char(path@);
                let d = last_slash(path@);
                if d > i - 1 {
                    assert(path@[d] != '/');
                }
                assert(d == i - 1);
            }
            let sub = path.substring_char(i, n);
            proof {
                assert(sub@ =~= path_file_name(path@));
            }
            return String::from_str(sub);
        }
        i = i - 1;
    }
    proof {
        lemma_last_slash_char(path@);
        let d = last_slash(path@);
        if d >= 0 {
            assert(path@[d] != '/');
            assert(false);
        }
    }
    String::from_str(path)
}

/// The lower-case form of an ASCII letter; other characters are unchanged.
pub open spec fn lower_char(c: char) -> char {
    if 'A' <= c && c <= 'Z' {
        ((c as u8) + 32) as char
    } else {
        c
    }
}

/// Case-folds ASCII letters over a whole name.
pub open spec fn lower_seq(s: Seq<char>) -> Seq<char> {
    s.map_values(|c: char| lower_char(c))
}

fn lower_char_exec(c: char) -> (r: char)
    ensures
        r == lower_char(c),
{
    let u = c as u32;
    if 65 <= u && u <= 90 {
        (((u + 32) as u8) as char)
    } else {
        c
    }
}

/// Whether `s` case-folds to exactly `lit`.
fn eq_lowered(s: &str, lit: &str) -> (r: bool)
    ensures
        r == (lower_seq(s@) == lit@),
{
    let n = s.unicode_len();
    let m = lit.unicode_len();
    if n != m {
        proof {
            assert(lower_seq(s@).len() == s@.len());
        }
        return false;
    }
    let mut i: usize = 0;
    while i < n
        invariant
            n == s@.len() == lit@.len(),
            0 <= i <= n,
            forall|j: int| 0 <= j < i ==> #[trigger] lower_seq(s@)[j] == lit@[j],
        decreases n - i,
    {
        let a = lower_char_exec(s.get_char(i));
        let b = lit.get_char(i);
        if a != b {
            proof {
                assert(lower_seq(s@)[i as int] != lit@[i as int]);
            }
            return false;
        }
        i = i + 1;
    }
    proof {
        assert(lower_seq(s@) =~= lit@);
    }
    true
}

/// The asset kind a file name's extension suggests.
pub open spec fn spec_asset_type_for(name: Seq<char>) -> Option<AssetType> {
    match spec_extension(name) {
        None => None,
        Some(e) => {
            let l = lower_seq(e);
            if l == "png"@ || l == "jpg"@ || l == "jpeg"@ || l == "bmp"@ || l == "tga"@ || l
                == "gif"@ {
                Some(AssetType::Sprite)
            } else if l == "wav"@ || l == "ogg"@ || l == "mp3"@ || l == "flac"@ {
                Some(AssetType::Audio)
            } else if l == "lua"@ || l == "js"@ || l == "py"@ {
                Some(AssetType::Script)
            } else if l == "ttf"@ || l == "otf"@ || l == "woff"@ || l == "woff2"@ {
                Some(AssetType::Font)
            } else if l == "json"@ || l == "xml"@ || l == "yaml"@ || l == "toml"@ || l == "csv"@ {
                Some(AssetType::Data)
            } else {
                None
            }
        },
    }
}

/// Infers an asset kind from a file name's extension, case-insensitively.
pub fn determine_asset_type(file_name: &str) -> (r: Option<AssetType>)
    ensures
        r == spec_asset_type_for(file_name@),
{
    let start = find_ext_start_pub(file_name);
    if start < 2 {
        return None;
    }
    let n = file_name.unicode_len();
    let ext = file_name.substring_char(start, n);
    proof {
        assert(ext@ =~= spec_extension(file_name@).unwrap());
    }
    if eq_lowered(ext, "png") || eq_lowered(ext, "jpg") || eq_lowered(ext, "jpeg") || eq_lowered(
        ext,
        "bmp",
    ) || eq_lowered(ext, "tga") || eq_lowered(ext, "gif") {
        Some(AssetType::Sprite)
    } else if eq_lowered(ext, "wav") || eq_lowered(ext, "ogg") || eq_lowered(ext, "mp3")
        || eq_lowered(ext, "flac") {
        Some(AssetType::Audio)
    } else if eq_lowered(ext, "lua") || eq_lowered(ext, "js") || eq_lowered(ext, "py") {
        Some(AssetType::Script)
    } else if eq_lowered(ext, "ttf") || eq_lowered(ext, "otf") || eq_lowered(ext, "woff")
        || eq_lowered(ext, "woff2") {
        Some(AssetType::Font)
    } else if eq_lowered(ext, "json") || eq_lowered(ext, "xml") || eq_lowered(ext, "yaml")
        || eq_lowered(ext, "toml") || eq_lowered(ext, "csv") {
        Some(AssetType::Data)
    } else {
        None
    }
}

/// The stem of `name` as an owned string.
fn file_stem(name: &str) -> (r: String)
    ensures
        r@ == spec_stem(name@),
{
    let start = find_ext_start_pub(name);
    if start >= 2 {
        let sub = name.substring_char(0, start - 1);
        proof {
            lemma_last_dot_char(name@);
        }
        String::from_str(sub)
    } else {
        String::from_str(name)
    }
}

/// The audio container format a file name's extension announces.
pub open spec fn audio_format_for(name: Seq<char>) -> Option<AudioFormat> {
    match spec_extension(name) {
        None => None,
        Some(e) => {
            let l = lower_seq(e);
            if l == "wav"@ {
                Some(AudioFormat::Wav)
            } else if l == "ogg"@ {
                Some(AudioFormat::Ogg)
            } else if l == "mp3"@ {
                Some(AudioFormat::Mp3)
            } else {
                None
            }
        },
    }
}

// --- the registry --------------------------------------------------------
/// The typed in-memory asset registry of the active bundle.
pub struct AssetManager {
    pub sprites: Vec<(String, TextureInfo)>,
    pub textures: Vec<(String, TextureInfo)>,
    pub audio_clips: Vec<(String, AudioClip)>,
    pub scripts: Vec<(String, String)>,
    pub fonts: Vec<(String, Font)>,
    pub data_files: Vec<(String, Vec<u8>)>,
}

/// Both stores hold the same registries.
pub open spec fn same_assets(a: &AssetManager, b: &AssetManager) -> bool {
    &&& a.sprites@ == b.sprites@
    &&& a.textures@ == b.textures@
    &&& a.audio_clips@ == b.audio_clips@
    &&& a.scripts@ == b.scripts@
    &&& a.fonts@ == b.fonts@
    &&& a.data_files@ == b.data_files@
}

impl AssetManager {
    /// Every registry keeps its keys unique.
    pub open spec fn wf(&self) -> bool {
        &&& distinct_keys(self.sprites@)
        &&& distinct_keys(self.textures@)
        &&& distinct_keys(self.audio_clips@)
        &&& distinct_keys(self.scripts@)
        &&& distinct_keys(self.fonts@)
        &&& distinct_keys(self.data_files@)
    }

    /// All registries but the audio one are as before.
    pub open spec fn only_audio_differs(&self, prior: &Self) -> bool {
        &&& self.sprites@ == prior.sprites@
        &&& self.textures@ == prior.textures@
        &&& self.scripts@ == prior.scripts@
        &&& self.fonts@ == prior.fonts@
        &&& self.data_files@ == prior.data_files@
    }

    /// All registries but the script one are as before.
    pub open spec fn only_scripts_differ(&self, prior: &Self) -> bool {
        &&& self.sprites@ == prior.sprites@
        &&& self.textures@ == prior.textures@
        &&& self.audio_clips@ == prior.audio_clips@
        &&& self.fonts@ == prior.fonts@
        &&& self.data_files@ == prior.data_files@
    }

    /// All registries but the font one are as before.
    pub open spec fn only_fonts_differ(&self, prior: &Self) -> bool {
        &&& self.sprites@ == prior.sprites@
        &&& self.textures@ == prior.textures@
        &&& self.audio_clips@ == prior.audio_clips@
        &&& self.scripts@ == prior.scripts@
        &&& self.data_files@ == prior.data_files@
    }

    /// All registries but the data one are as before.
    pub open spec fn only_data_differs(&self, prior: &Self) -> bool {
        &&& self.sprites@ == prior.sprites@
        &&& self.textures@ == prior.textures@
        &&& self.audio_clips@ == prior.audio_clips@
        &&& self.scripts@ == prior.scripts@
        &&& self.fonts@ == prior.fonts@
    }

    /// An empty registry.
    pub fn new() -> (r: Self)
        ensures
            r.wf(),
            r.sprites@.len() == 0,
            r.textures@.len() == 0,
            r.audio_clips@.len() == 0,
            r.scripts@.len() == 0,
            r.fonts@.len() == 0,
            r.data_files@.len() == 0,
    {
        AssetManager {
            sprites: Vec::new(),
            textures: Vec::new(),
            audio_clips: Vec::new(),
            scripts: Vec::new(),
            fonts: Vec::new(),
            data_files: Vec::new(),
        }
    }

    /// Stores one asset's bytes, decoding per kind: a WAV header peek for
    /// audio, UTF-8 for scripts, verbatim bytes for fonts and data. The
    /// record is keyed by the file name's stem; the format of an audio clip
    /// follows the file name's extension. Texture materialization needs a
    /// GPU device that this store does not own, so sprite loads fail with
    /// `RenderError`.
    pub fn load_asset(&mut self, file_name: String, bytes: Vec<u8>, asset_type: AssetType) -> (r:
        Result<(), CacaoError>)
        requires
            old(self).wf(),
        ensures
            final(self).wf(),
            asset_type is Sprite ==> (r matches Err(e) && e is RenderError) && same_assets(
                final(self),
                old(self),
            ),
            asset_type is Audio && audio_format_for(file_name@) is None ==> (r matches Err(e)
                && e is AudioError) && same_assets(final(self), old(self)),
            asset_type is Audio && audio_format_for(file_name@) == Some(AudioFormat::Wav)
                && !wav_header_ok(bytes@) ==> (r matches Err(e) && e is AudioError) && same_assets(
                final(self),
                old(self),
            ),
            asset_type is Audio && audio_format_for(file_name@) == Some(AudioFormat::Wav)
                && wav_header_ok(bytes@) ==> r is Ok && final(self).only_audio_differs(old(self))
                && crate::kvlist::kv_upd(
                final(self).audio_clips@,
                old(self).audio_clips@,
                spec_stem(file_name@),
                (AudioClip {
                    data: bytes,
                    format: AudioFormat::Wav,
                    sample_rate: wav_sample_rate(bytes@) as u32,
                    channels: wav_channels(bytes@) as u16,
                }),
            ),
            asset_type is Audio && (audio_format_for(file_name@) == Some(AudioFormat::Ogg)
                || audio_format_for(file_name@) == Some(AudioFormat::Mp3)) ==> r is Ok && final(self).only_audio_differs(old(self)) && crate::kvlist::kv_upd(
                final(self).audio_clips@,
                old(self).audio_clips@,
                spec_stem(file_name@),
                (AudioClip {
                    data: bytes,
                    format: audio_format_for(file_name@).unwrap(),
                    sample_rate: 44100,
                    channels: 2,
                }),
            ),
            asset_type is Script && !vstd::utf8::valid_utf8(bytes@) ==> (r matches Err(e)
                && e is IoError) && same_assets(final(self), old(self)),
            asset_type is Script && vstd::utf8::valid_utf8(bytes@) ==> r is Ok && final(self).only_scripts_differ(old(self)) && has_key(final(self).scripts@, spec_stem(file_name@))
                && vstd::utf8::encode_utf8(
                value_sel(final(self).scripts@, spec_stem(file_name@))@,
            ) == bytes@ && (forall|k: Seq<char>|
                #[trigger] has_key(final(self).scripts@, k) <==> has_key(old(self).scripts@, k)
                    || k == spec_stem(file_name@)) && (forall|k: Seq<char>|
                k != spec_stem(file_name@) && #[trigger] has_key(old(self).scripts@, k)
                    ==> value_sel(final(self).scripts@, k) == value_sel(old(self).scripts@, k)),
            asset_type is Font ==> r is Ok && final(self).only_fonts_differ(old(self)) && has_key(
                final(self).fonts@,
                spec_stem(file_name@),
            ) && value_sel(final(self).fonts@, spec_stem(file_name@)).data == bytes && value_sel(
                final(self).fonts@,
                spec_stem(file_name@),
            ).name@ == spec_stem(file_name@) && (forall|k: Seq<char>|
                #[trigger] has_key(final(self).fonts@, k) <==> has_key(old(self).fonts@, k) || k
                    == spec_stem(file_name@)) && (forall|k: Seq<char>|
                k != spec_stem(file_name@) && #[trigger] has_key(old(self).fonts@, k)
                    ==> value_sel(final(self).fonts@, k) == value_sel(old(self).fonts@, k)),
            asset_type is Data ==> r is Ok && final(self).only_data_differs(old(self))
                && crate::kvlist::kv_upd(
                final(self).data_files@,
                old(self).data_files@,
                spec_stem(file_name@),
                bytes,
            ),
    {
        match asset_type {
            AssetType::Sprite => Err(
                CacaoError::RenderError(
                    String::from_str("Texture loading requires renderer context"),
                ),
            ),
            AssetType::Audio => {
                let start = find_ext_start_pub(file_name.as_str());
                let format: AudioFormat;
                if start >= 2 {
                    let n = file_name.as_str().unicode_len();
                    let ext = file_name.as_str().substring_char(start, n);
                    proof {
                        assert(ext@ =~= spec_extension(file_name@).unwrap());
                    }
                    if eq_lowered(ext, "wav") {
                        format = AudioFormat::Wav;
                    } else if eq_lowered(ext, "ogg") {
                        format = AudioFormat::Ogg;
                    } else if eq_lowered(ext, "mp3") {
                        format = AudioFormat::Mp3;
                    } else {
                        return Err(
                            CacaoError::AudioError(String::from_str("Unsupported audio format")),
                        );
                    }
                } else {
                    return Err(
                        CacaoError::AudioError(String::from_str("Unsupported audio format")),
                    );
                }
                let sample_rate: u32;
                let channels: u16;
                if matches!(format, AudioFormat::Wav) {
                    match parse_wav_header(bytes.as_slice()) {
                        Ok(p) => {
                            sample_rate = p.0;
                            channels = p.1;
                        },
                        Err(e) => {
                            return Err(e);
                        },
                    }
                } else {
                    sample_rate = 44100;
                    channels = 2;
                }
                let clip = AudioClip { data: bytes, format, sample_rate, channels };
                let key = file_stem(file_name.as_str());
                kv_insert(&mut self.audio_clips, key, clip);
                Ok(())
            },
            AssetType::Script => {
                match utf8_bytes_to_string(bytes) {
                    Some(text) => {
                        let key = file_stem(file_name.as_str());
                        kv_insert(&mut self.scripts, key, text);
                        Ok(())
                    },
                    None => Err(
                        CacaoError::IoError(String::from_str("Script file is not valid UTF-8")),
                    ),
                }
            },
            AssetType::Font => {
                let key = file_stem(file_name.as_str());
                let name = key.clone();
                let font = Font { data: bytes, name };
                kv_insert(&mut self.fonts, key, font);
                Ok(())
            },
            AssetType::Data => {
                let key = file_stem(file_name.as_str());
                kv_insert(&mut self.data_files, key, bytes);
                Ok(())
            },
        }
    }

    /// Looks a sprite's dimensions up.
    pub fn get_sprite(&self, name: &str) -> (r: Option<&TextureInfo>)
        requires
            self.wf(),
        ensures
            r is Some <==> has_key(self.sprites@, name@),
            r matches Some(v) ==> *v == value_sel(self.sprites@, name@),
    {
        kv_get(&self.sprites, name)
    }

    /// Looks a texture's dimensions up.
    pub fn get_texture(&self, name: &str) -> (r: Option<&TextureInfo>)
        requires
            self.wf(),
        ensures
            r is Some <==> has_key(self.textures@, name@),
            r matches Some(v) ==> *v == value_sel(self.textures@, name@),
    {
        kv_get(&self.textures, name)
    }

    /// Looks an audio clip up.
    pub fn get_audio_clip(&self, name: &str) -> (r: Option<&AudioClip>)
        requires
            self.wf(),
        ensures
            r is Some <==> has_key(self.audio_clips@, name@),
            r matches Some(v) ==> *v == value_sel(self.audio_clips@, name@),
    {
        kv_get(&self.audio_clips, name)
    }

    /// Looks a script's text up.
    pub fn get_script(&self, name: &str) -> (r: Option<&String>)
        requires
            self.wf(),
        ensures
            r is Some <==> has_key(self.scripts@, name@),
            r matches Some(v) ==> *v == value_sel(self.scripts@, name@),
    {
        kv_get(&self.scripts, name)
    }

    /// Looks a font up.
    pub fn get_font(&self, name: &str) -> (r: Option<&Font>)
        requires
            self.wf(),
        ensures
            r is Some <==> has_key(self.fonts@, name@),
            r matches Some(v) ==> *v == value_sel(self.fonts@, name@),
    {
        kv_get(&self.fonts, name)
    }

    /// Looks a data blob up.
    pub fn get_data_file(&self, name: &str) -> (r: Option<&Vec<u8>>)
        requires
            self.wf(),
        ensures
            r is Some <==> has_key(self.data_files@, name@),
            r matches Some(v) ==> *v == value_sel(self.data_files@, name@),
    {
        kv_get(&self.data_files, name)
    }

    /// Lists the keys of every registry.
    pub fn list_assets(&self) -> (r: AssetListing)
        ensures
            keys_match(r.sprites@, self.sprites@),
            keys_match(r.textures@, self.textures@),
            keys_match(r.audio_clips@, self.audio_clips@),
            keys_match(r.scripts@, self.scripts@),
            keys_match(r.fonts@, self.fonts@),
            keys_match(r.data_files@, self.data_files@),
    {
        AssetListing {
            sprites: keys_of(&self.sprites),
            textures: keys_of(&self.textures),
            audio_clips: keys_of(&self.audio_clips),
            scripts: keys_of(&self.scripts),
            fonts: keys_of(&self.fonts),
            data_files: keys_of(&self.data_files),
        }
    }

    /// Drops every stored asset.
    pub fn clear_assets(&mut self)
        ensures
            final(self).wf(),
            final(self).sprites@.len() == 0,
            final(self).textures@.len() == 0,
            final(self).audio_clips@.len() == 0,
            final(self).scripts@.len() == 0,
            final(self).fonts@.len() == 0,
            final(self).data_files@.len() == 0,
    {
        self.sprites.clear();
        self.textures.clear();
        self.audio_clips.clear();
        self.scripts.clear();
        self.fonts.clear();
        self.data_files.clear();
    }
}

/// `names` holds exactly the keys of `entries`, in order.
pub open spec fn keys_match<T>(names: Seq<String>, entries: Seq<(String, T)>) -> bool {
    names.len() == entries.len() && forall|i: int|
        0 <= i < names.len() ==> names[i] == #[trigger] entries[i].0
}

fn keys_of<T>(entries: &Vec<(String, T)>) -> (r: Vec<String>)
    ensures
        keys_match(r@, entries@),
{
    let n = entries.len();
    let mut out: Vec<String> = Vec::new();
    let mut i: usize = 0;
    while i < n
        invariant
            n == entries@.len(),
            0 <= i <= n,
            out@.len() == i,
            forall|j: int| 0 <= j < i ==> out@[j] == #[trigger] entries@[j].0,
        decreases n - i,
    {
        out.push(entries[i].0.clone());
        i = i + 1;
    }
    out
}

/// A sum clipped to the address space.
pub open spec fn sat_add(a: int, b: int) -> int {
    if a + b > usize::MAX {
        usize::MAX as int
    } else {
        a + b
    }
}

/// Saturating RGBA footprint of one texture.
pub open spec fn tex_bytes(t: TextureInfo) -> int {
    if t.width * t.height * 4 > usize::MAX {
        usize::MAX as int
    } else {
        t.width * t.height * 4
    }
}

/// Saturating sum of the texture registry's footprints.
pub open spec fn tex_mem(s: Seq<(String, TextureInfo)>) -> int
    decreases s.len(),
{
    if s.len() == 0 {
        0
    } else {
        sat_add(tex_mem(s.drop_last()), tex_bytes(s.last().1))
    }
}

/// Saturating sum of the audio registry's byte lengths.
pub open spec fn audio_mem(s: Seq<(String, AudioClip)>) -> int
    decreases s.len(),
{
    if s.len() == 0 {
        0
    } else {
        sat_add(audio_mem(s.drop_last()), s.last().1.data@.len() as int)
    }
}

/// Saturating sum of the script registry's byte lengths.
pub open spec fn script_mem(s: Seq<(String, String)>) -> int
    decreases s.len(),
{
    if s.len() == 0 {
        0
    } else {
        sat_add(
            script_mem(s.drop_last()),
            (vstd::utf8::encode_utf8(s.last().1@).len() as usize) as int,
        )
    }
}

/// Saturating sum of the font registry's byte lengths.
pub open spec fn font_mem(s: Seq<(String, Font)>) -> int
    decreases s.len(),
{
    if s.len() == 0 {
        0
    } else {
        sat_add(font_mem(s.drop_last()), s.last().1.data@.len() as int)
    }
}

/// Saturating sum of the data registry's byte lengths.
pub open spec fn data_mem(s: Seq<(String, Vec<u8>)>) -> int
    decreases s.len(),
{
    if s.len() == 0 {
        0
    } else {
        sat_add(data_mem(s.drop_last()), s.last().1@.len() as int)
    }
}

fn tex_mem_exec(s: &Vec<(String, TextureInfo)>) -> (r: usize)
    ensures
        r == tex_mem(s@),
{
    let n = s.len();
    let mut acc: usize = 0;
    let mut i: usize = 0;
    while i < n
        invariant
            n == s@.len(),
            0 <= i <= n,
            acc == tex_mem(s@.take(i as int)),
        decreases n - i,
    {
        let t = s[i].1;
        let a = t.width as u64;
        let b = t.height as u64;
        proof {
            assert(a * b < 0x10000000000000000) by (nonlinear_arith)
                requires
                    a < 0x100000000,
                    b < 0x100000000,
            ;
        }
        let prod: u64 = a * b;
        let wide: u128 = (prod as u128) * 4;
        let per: usize = if wide > usize::MAX as u128 {
            usize::MAX
        } else {
            wide as usize
        };
        proof {
            assert(per == tex_bytes(t));
            assert(s@.take(i + 1).drop_last() =~= s@.take(i as int));
            assert(s@.take(i + 1).last() == s@[i as int]);
        }
        acc = acc.saturating_add(per);
        i = i + 1;
    }
    proof {
        assert(s@.take(n as int) =~= s@);
    }
    acc
}

fn audio_mem_exec(s: &Vec<(String, AudioClip)>) -> (r: usize)
    ensures
        r == audio_mem(s@),
{
    let n = s.len();
    let mut acc: usize = 0;
    let mut i: usize = 0;
    while i < n
        invariant
            n == s@.len(),
            0 <= i <= n,
            acc == audio_mem(s@.take(i as int)),
        decreases n - i,
    {
        let per = s[i].1.data.len();
        proof {
            assert(s@.take(i + 1).drop_last() =~= s@.take(i as int));
            assert(s@.take(i + 1).last() == s@[i as int]);
        }
        acc = acc.saturating_add(per);
        i = i + 1;
    }
    proof {
        assert(s@.take(n as int) =~= s@);
    }
    acc
}

fn script_mem_exec(s: &Vec<(String, String)>) -> (r: usize)
    ensures
        r == script_mem(s@),
{
    let n = s.len();
    let mut acc: usize = 0;
    let mut i: usize = 0;
    while i < n
        invariant
            n == s@.len(),
            0 <= i <= n,
            acc == script_mem(s@.take(i as int)),
        decreases n - i,
    {
        let per = s[i].1.as_str().len();
        proof {
            assert(s@.take(i + 1).drop_last() =~= s@.take(i as int));
            assert(s@.take(i + 1).last() == s@[i as int]);
        }
        acc = acc.saturating_add(per);
        i = i + 1;
    }
    proof {
        assert(s@.take(n as int) =~= s@);
    }
    acc
}

fn font_mem_exec(s: &Vec<(String, Font)>) -> (r: usize)
    ensures
        r == font_mem(s@),
{
    let n = s.len();
    let mut acc: usize = 0;
    let mut i: usize = 0;
    while i < n
        invariant
            n == s@.len(),
            0 <= i <= n,
            acc == font_mem(s@.take(i as int)),
        decreases n - i,
    {
        let per = s[i].1.data.len();
        proof {
            assert(s@.take(i + 1).drop_last() =~= s@.take(i as int));
            assert(s@.take(i + 1).last() == s@[i as int]);
        }
        acc = acc.saturating_add(per);
        i = i + 1;
    }
    proof {
        assert(s@.take(n as int) =~= s@);
    }
    acc
}

fn data_mem_exec(s: &Vec<(String, Vec<u8>)>) -> (r: usize)
    ensures
        r == data_mem(s@),
{
    let n = s.len();
    let mut acc: usize = 0;
    let mut i: usize = 0;
    while i < n
        invariant
            n == s@.len(),
            0 <= i <= n,
            acc == data_mem(s@.take(i as int)),
        decreases n - i,
    {
        let per = s[i].1.len();
        proof {
            assert(s@.take(i + 1).drop_last() =~= s@.take(i as int));
            assert(s@.take(i + 1).last() == s@[i as int]);
        }
        acc = acc.saturating_add(per);
        i = i + 1;
    }
    proof {
        assert(s@.take(n as int) =~= s@);
    }
    acc
}

impl AssetManager {
    /// Approximate bytes held per kind: four bytes per texel for sprites
    /// and textures, the raw byte length for everything else, each sum
    /// clipped to the address space.
    pub fn get_memory_usage(&self) -> (r: AssetMemoryInfo)
        ensures
            r.sprite_memory == tex_mem(self.sprites@),
            r.texture_memory == tex_mem(self.textures@),
            r.audio_memory == audio_mem(self.audio_clips@),
            r.script_memory == script_mem(self.scripts@),
            r.font_memory == font_mem(self.fonts@),
            r.data_memory == data_mem(self.data_files@),
            r.total_memory == sat_add(
                sat_add(
                    sat_add(
                        sat_add(
                            sat_add(tex_mem(self.sprites@), tex_mem(self.textures@)),
                            audio_mem(self.audio_clips@),
                        ),
                        script_mem(self.scripts@),
                    ),
                    font_mem(self.fonts@),
                ),
                data_mem(self.data_files@),
            ),
    {
        let sprite_memory = tex_mem_exec(&self.sprites);
        let texture_memory = tex_mem_exec(&self.textures);
        let audio_memory = audio_mem_exec(&self.audio_clips);
        let script_memory = script_mem_exec(&self.scripts);
        let font_memory = font_mem_exec(&self.fonts);
        let data_memory = data_mem_exec(&self.data_files);
        let total_memory = sprite_memory
            .saturating_add(texture_memory)
            .saturating_add(audio_memory)
            .saturating_add(script_memory)
            .saturating_add(font_memory)
            .saturating_add(data_memory);
        AssetMemoryInfo {
            sprite_memory,
            texture_memory,
            audio_memory,
            script_memory,
            font_memory,
            data_memory,
            total_memory,
        }
    }
}

} // verus!
