//! The encrypted per-bundle save store: a key-value mapping of tagged
//! values, serialized with the compact binary encoding, checksummed,
//! encrypted, and handed to the host as one opaque byte blob.

use vstd::prelude::*;
use vstd::string::StringExecFns;

use crate::crypto::aead_open_of;
use crate::crypto::decrypt_data;
use crate::crypto::derive_encryption_key;
use crate::crypto::encrypt_data;
use crate::crypto::hash_data;
use crate::crypto::save_key_of;
use crate::crypto::sha256_hex_of;
use crate::errors::CacaoError;
use crate::kvlist::distinct_keys;
use crate::kvlist::has_key;
use crate::kvlist::kv_get;
use crate::kvlist::kv_insert;
use crate::kvlist::kv_remove;
use crate::kvlist::kv_upd;
use crate::kvlist::str_eq;
use crate::numconv::f64_bits_to_i64_trunc;
use crate::numconv::i64_to_f64_bits;
use crate::numconv::spec_f64_trunc;
use crate::numconv::spec_i64_to_f64_bits;
use crate::sanitize::sanitize_filename;
use crate::sanitize::sanitized;
use crate::savebin::data_enc;
use crate::savebin::file_enc;
use crate::savebin::parse_save_file;
use crate::savebin::serialize_save_data;
use crate::savebin::sp_file;
use crate::savebin::sv_entry_views;
use crate::savebin::sv_view;
use crate::savebin::SaveNode;
use crate::savebin::SaveValue;

verus! {

/// Whether some parsed entry carries the key `k`.
pub open spec fn pe_has(entries: Seq<(Seq<char>, SaveNode)>, k: Seq<char>) -> bool {
    exists|i: int| 0 <= i < entries.len() && entries[i].0 == k
}

/// The value of the last parsed entry carrying `k`; later entries win, as
/// they do when a mapping is rebuilt by insertion in file order.
pub open spec fn pe_last(entries: Seq<(Seq<char>, SaveNode)>, k: Seq<char>) -> SaveNode
    decreases entries,
{
    if entries.len() == 0 {
        SaveNode::Bool(false)
    } else if entries.last().0 == k {
        entries.last().1
    } else {
        pe_last(entries.drop_last(), k)
    }
}

/// How one more entry changes `pe_has` and `pe_last` on a prefix.
pub proof fn lemma_pe_step(entries: Seq<(Seq<char>, SaveNode)>, i: int, k: Seq<char>)
    requires
        0 <= i < entries.len(),
    ensures
        pe_has(entries.take(i + 1), k) == (pe_has(entries.take(i), k) || entries[i].0 == k),
        entries[i].0 == k ==> pe_last(entries.take(i + 1), k) == entries[i].1,
        entries[i].0 != k ==> pe_last(entries.take(i + 1), k) == pe_last(entries.take(i), k),
{
    assert(entries.take(i + 1).drop_last() =~= entries.take(i));
    assert(entries.take(i + 1).last() == entries[i]);
    if pe_has(entries.take(i + 1), k) {
        let j = choose|j: int|
            0 <= j < entries.take(i + 1).len() && #[trigger] entries.take(i + 1)[j].0 == k;
        if j < i {
            assert(entries.take(i)[j].0 == k);
        }
    }
    if pe_has(entries.take(i), k) {
        let j = choose|j: int|
            0 <= j < entries.take(i).len() && #[trigger] entries.take(i)[j].0 == k;
        assert(entries.take(i + 1)[j].0 == k);
    }
    if entries[i].0 == k {
        assert(entries.take(i + 1)[i].0 == k);
    }
}

/// What a stored ciphertext yields under `key` for game `gid`: the entries
/// of the record, provided decryption, deserialization, the data checksum
/// and the game id all check out.
pub open spec fn spec_loaded(cipher: Seq<u8>, key: Seq<u8>, gid: Seq<char>) -> Option<
    Seq<(Seq<char>, SaveNode)>,
> {
    if cipher.len() < 12 {
        None
    } else {
        match aead_open_of(cipher, key) {
            None => None,
            Some(plain) => match sp_file(plain) {
                None => None,
                Some((version, fgid, entries, chk, ts)) => {
                    if chk == sha256_hex_of(data_enc(entries)) && fgid == gid {
                        Some(entries)
                    } else {
                        None
                    }
                },
            },
        }
    }
}

/// The per-bundle encrypted save store. It is bound to a bundle by
/// `set_game_context` and holds the live key-value mapping in memory.
pub struct SaveManager {
    pub saves_dir: String,
    pub current_game_id: Option<String>,
    pub current_save_data: Vec<(String, SaveValue)>,
    pub encryption_key: Option<[u8; 32]>,
}

impl SaveManager {
    /// The in-memory mapping keeps its keys unique, and the key is present
    /// exactly when a game context is.
    pub open spec fn wf(&self) -> bool {
        &&& distinct_keys(self.current_save_data@)
        &&& (self.current_game_id is Some <==> self.encryption_key is Some)
    }

    /// A store with no context and no data.
    pub fn new(saves_dir: String) -> (r: Self)
        ensures
            r.wf(),
            r.saves_dir == saves_dir,
            r.current_game_id is None,
            r.encryption_key is None,
            r.current_save_data@.len() == 0,
    {
        SaveManager {
            saves_dir,
            current_game_id: None,
            current_save_data: Vec::new(),
            encryption_key: None,
        }
    }

    /// The on-disk location of the bound bundle's save file.
    pub fn get_save_file_path(&self, game_id: &str) -> (r: String)
        ensures
            r@ == self.saves_dir@ + "/"@ + sanitized(game_id@) + "_saves/save.dat"@,
    {
        let mut out = self.saves_dir.clone();
        out.append("/");
        let sanitized_id = sanitize_filename(game_id);
        out.append(sanitized_id.as_str());
        out.append("_saves/save.dat");
        out
    }

    /// Binds the store to a bundle: derives the encryption key from the
    /// secret key, clears the mapping, and installs the existing save file's
    /// contents when one is handed in.
    pub fn set_game_context(
        &mut self,
        game_id: String,
        secret_key: &str,
        existing_file: Option<&[u8]>,
    ) -> (r: Result<(), CacaoError>)
        ensures
            final(self).wf(),
            final(self).saves_dir == old(self).saves_dir,
            final(self).current_game_id matches Some(g) && g == game_id,
            final(self).encryption_key matches Some(k) && k@ == save_key_of(secret_key@),
            existing_file is None ==> r is Ok && final(self).current_save_data@.len() == 0,
            existing_file matches Some(bytes) ==> (r is Ok <==> spec_loaded(
                bytes@,
                save_key_of(secret_key@),
                game_id@,
            ) is Some),
            existing_file matches Some(bytes) ==> spec_loaded(
                bytes@,
                save_key_of(secret_key@),
                game_id@,
            ) matches Some(entries) ==> (forall|k: Seq<char>|
                #[trigger] has_key(final(self).current_save_data@, k) == pe_has(entries, k))
                && (forall|k: Seq<char>|
                #[trigger] pe_has(entries, k) ==> sv_view(
                    crate::kvlist::value_sel(final(self).current_save_data@, k),
                ) == pe_last(entries, k)),
            r is Err ==> final(self).current_save_data@.len() == 0,
            r matches Err(e) ==> e is CryptoError,
    {
        let key = derive_encryption_key(secret_key);
        self.current_game_id = Some(game_id);
        self.encryption_key = Some(key);
        self.current_save_data = Vec::new();
        match existing_file {
            None => Ok(()),
            Some(bytes) => self.install_save_file(bytes),
        }
    }

    /// Decrypts, deserializes and verifies a save file, and installs its
    /// entries as the live mapping; later duplicates of a key win. Fails
    /// with `CryptoError` exactly when decryption, the record format, the
    /// data checksum or the game id fails, and leaves the mapping as it was.
    pub fn install_save_file(&mut self, bytes: &[u8]) -> (r: Result<(), CacaoError>)
        requires
            old(self).wf(),
            old(self).current_game_id is Some,
        ensures
            final(self).wf(),
            final(self).saves_dir == old(self).saves_dir,
            final(self).current_game_id == old(self).current_game_id,
            final(self).encryption_key == old(self).encryption_key,
            r is Ok <==> spec_loaded(
                bytes@,
                old(self).encryption_key.unwrap()@,
                old(self).current_game_id.unwrap()@,
            ) is Some,
            spec_loaded(
                bytes@,
                old(self).encryption_key.unwrap()@,
                old(self).current_game_id.unwrap()@,
            ) matches Some(entries) ==> (forall|k: Seq<char>|
                #[trigger] has_key(final(self).current_save_data@, k) == pe_has(entries, k))
                && (forall|k: Seq<char>|
                #[trigger] pe_has(entries, k) ==> sv_view(
                    crate::kvlist::value_sel(final(self).current_save_data@, k),
                ) == pe_last(entries, k)),
            r is Err ==> final(self).current_save_data@ == old(self).current_save_data@,
            r matches Err(e) ==> e is CryptoError,
    {
        let key = match &self.encryption_key {
            Some(k) => *k,
            None => {
                return Err(CacaoError::CryptoError(String::from_str("No encryption key available")));
            },
        };
        let plain = match decrypt_data(bytes, &key) {
            Ok(p) => p,
            Err(e) => {
                return Err(e);
            },
        };
        let parsed = match parse_save_file(plain.as_slice()) {
            Some(p) => p,
            None => {
                return Err(
                    CacaoError::CryptoError(String::from_str("Failed to deserialize save data")),
                );
            },
        };
        let (_version, file_gid, mut entries, stored_checksum, _timestamp) = parsed;
        let data_bytes = serialize_save_data(&entries);
        let computed = hash_data(data_bytes.as_slice());
        if !str_eq(stored_checksum.as_str(), computed.as_str()) {
            return Err(
                CacaoError::CryptoError(
                    String::from_str("Save file checksum mismatch - data may be corrupted"),
                ),
            );
        }
        let gid_ok = match &self.current_game_id {
            Some(g) => str_eq(g.as_str(), file_gid.as_str()),
            None => false,
        };
        if !gid_ok {
            return Err(CacaoError::CryptoError(String::from_str("Save file game ID mismatch")));
        }
        let ghost nodes = sv_entry_views(entries@);
        proof {
            crate::savebin::lemma_sv_entry_views_index(entries@);
        }
        let mut fresh: Vec<(String, SaveValue)> = Vec::new();
        let n = entries.len();
        let ghost entries0 = entries@;
        let mut i: usize = 0;
        while i < n
            invariant
                n == entries0.len(),
                0 <= i <= n,
                entries@ =~= entries0.skip(i as int),
                nodes == sv_entry_views(entries0),
                nodes.len() == n,
                forall|j: int| 0 <= j < n ==> nodes[j] == (entries0[j].0@, sv_view(entries0[j].1)),
                distinct_keys(fresh@),
                forall|k: Seq<char>|
                    #[trigger] has_key(fresh@, k) == pe_has(nodes.take(i as int), k),
                forall|k: Seq<char>|
                    #[trigger] pe_has(nodes.take(i as int), k) ==> sv_view(
                        crate::kvlist::value_sel(fresh@, k),
                    ) == pe_last(nodes.take(i as int), k),
            decreases n - i,
        {
            let entry = entries.remove(0);
            proof {
                assert(entry == entries0[i as int]);
                assert(entries@ =~= entries0.skip(i + 1));
            }
            let ghost key_v = entry.0@;
            let ghost node_v = sv_view(entry.1);
            let ghost fresh0 = fresh@;
            kv_insert(&mut fresh, entry.0, entry.1);
            proof {
                assert forall|k: Seq<char>|
                    #[trigger] has_key(fresh@, k) == pe_has(nodes.take(i + 1), k) by {
                    lemma_pe_step(nodes, i as int, k);
                    assert(has_key(fresh@, k) == (has_key(fresh0, k) || k == key_v));
                    assert(has_key(fresh0, k) == pe_has(nodes.take(i as int), k));
                }
                assert forall|k: Seq<char>|
                    #[trigger] pe_has(nodes.take(i + 1), k) implies sv_view(
                    crate::kvlist::value_sel(fresh@, k),
                ) == pe_last(nodes.take(i + 1), k) by {
                    lemma_pe_step(nodes, i as int, k);
                    assert(nodes[i as int] == (key_v, node_v));
                    if k == key_v {
                        assert(crate::kvlist::value_sel(fresh@, k) == entries0[i as int].1);
                    } else {
                        assert(pe_has(nodes.take(i as int), k));
                        assert(has_key(fresh0, k));
                        assert(crate::kvlist::value_sel(fresh@, k) == crate::kvlist::value_sel(
                            fresh0,
                            k,
                        ));
                        assert(sv_view(crate::kvlist::value_sel(fresh0, k)) == pe_last(
                            nodes.take(i as int),
                            k,
                        ));
                    }
                }
            }
            i = i + 1;
        }
        proof {
            assert(nodes.take(n as int) =~= nodes);
        }
        self.current_save_data = fresh;
        Ok(())
    }

    /// Binds `key` to `value` in the live mapping; a game context is owed.
    pub fn write(&mut self, key: String, value: SaveValue) -> (r: Result<(), CacaoError>)
        requires
            old(self).wf(),
        ensures
            final(self).wf(),
            final(self).saves_dir == old(self).saves_dir,
            final(self).current_game_id == old(self).current_game_id,
            final(self).encryption_key == old(self).encryption_key,
            r is Ok <==> old(self).current_game_id is Some,
            r is Ok ==> kv_upd(
                final(self).current_save_data@,
                old(self).current_save_data@,
                key@,
                value,
            ),
            r is Err ==> final(self).current_save_data@ == old(self).current_save_data@,
            r matches Err(e) ==> e is CryptoError,
    {
        if self.current_game_id.is_none() {
            return Err(CacaoError::CryptoError(String::from_str("No game context set")));
        }
        kv_insert(&mut self.current_save_data, key, value);
        Ok(())
    }

    /// Looks the value of `key` up.
    pub fn read(&self, key: &str) -> (r: Option<&SaveValue>)
        requires
            self.wf(),
        ensures
            r is Some <==> has_key(self.current_save_data@, key@),
            r matches Some(v) ==> *v == crate::kvlist::value_sel(self.current_save_data@, key@),
    {
        kv_get(&self.current_save_data, key)
    }

    /// Whether `key` is bound.
    pub fn contains_key(&self, key: &str) -> (r: bool)
        requires
            self.wf(),
        ensures
            r == has_key(self.current_save_data@, key@),
    {
        self.read(key).is_some()
    }

    /// Removes the binding of `key`, returning the removed value.
    pub fn remove(&mut self, key: &str) -> (r: Option<SaveValue>)
        requires
            old(self).wf(),
        ensures
            final(self).wf(),
            final(self).saves_dir == old(self).saves_dir,
            final(self).current_game_id == old(self).current_game_id,
            final(self).encryption_key == old(self).encryption_key,
            !has_key(final(self).current_save_data@, key@),
            r is Some <==> has_key(old(self).current_save_data@, key@),
            r matches Some(v) ==> v == crate::kvlist::value_sel(old(self).current_save_data@, key@),
            forall|k: Seq<char>|
                k != key@ ==> (#[trigger] has_key(final(self).current_save_data@, k) <==> has_key(
                    old(self).current_save_data@,
                    k,
                )),
            forall|k: Seq<char>|
                k != key@ && #[trigger] has_key(old(self).current_save_data@, k)
                    ==> crate::kvlist::value_sel(final(self).current_save_data@, k)
                    == crate::kvlist::value_sel(old(self).current_save_data@, k),
    {
        kv_remove(&mut self.current_save_data, key)
    }

    /// Empties the live mapping.
    pub fn clear(&mut self)
        ensures
            old(self).wf() ==> final(self).wf(),
            final(self).saves_dir == old(self).saves_dir,
            final(self).current_game_id == old(self).current_game_id,
            final(self).encryption_key == old(self).encryption_key,
            final(self).current_save_data@.len() == 0,
    {
        self.current_save_data.clear();
    }

    /// Assembles, checksums and encrypts the whole save record. The result
    /// decrypts under the same key to the record's plaintext encoding, whose
    /// checksum field is the SHA-256 of the serialized data payload. With a
    /// context set, encoding succeeds for every record up to the cipher's
    /// message limit.
    pub fn encode_save_file(&self, timestamp: u64) -> (r: Result<Vec<u8>, CacaoError>)
        requires
            self.wf(),
        ensures
            self.current_game_id is None ==> r is Err,
            self.current_game_id matches Some(gid) && file_enc(
                1u32,
                gid@,
                sv_entry_views(self.current_save_data@),
                sha256_hex_of(data_enc(sv_entry_views(self.current_save_data@))),
                timestamp,
            ).len() <= 0xF_FFFF_FFE0 ==> r is Ok,
            r matches Err(e) ==> e is CryptoError,
            r matches Ok(c) ==> self.current_game_id matches Some(gid) && aead_open_of(
                c@,
                self.encryption_key.unwrap()@,
            ) == Some(
                file_enc(
                    1u32,
                    gid@,
                    sv_entry_views(self.current_save_data@),
                    sha256_hex_of(data_enc(sv_entry_views(self.current_save_data@))),
                    timestamp,
                ),
            ) && c@.len() >= 12,
    {
        let gid = match &self.current_game_id {
            Some(g) => g.clone(),
            None => {
                return Err(CacaoError::CryptoError(String::from_str("No game context set")));
            },
        };
        let key = match &self.encryption_key {
            Some(k) => *k,
            None => {
                return Err(CacaoError::CryptoError(String::from_str("No encryption key available")));
            },
        };
        let data_bytes = serialize_save_data(&self.current_save_data);
        let checksum = hash_data(data_bytes.as_slice());
        let mut plain: Vec<u8> = Vec::new();
        crate::savebin::push_u32_le(&mut plain, 1);
        crate::savebin::push_str_key(&mut plain, gid.as_str());
        plain.append(&mut data_bytes.clone());
        crate::savebin::push_str_key(&mut plain, checksum.as_str());
        crate::savebin::push_u64_le(&mut plain, timestamp);
        proof {
            assert(plain@ =~= file_enc(
                1u32,
                gid@,
                sv_entry_views(self.current_save_data@),
                sha256_hex_of(data_enc(sv_entry_views(self.current_save_data@))),
                timestamp,
            ));
        }
        encrypt_data(plain.as_slice(), &key)
    }
}

/// The integer reading of what `key` holds: integers read back, doubles
/// truncate toward zero, anything else is the default.
pub open spec fn spec_read_int(data: Seq<(String, SaveValue)>, key: Seq<char>, default: i64) -> i64 {
    if has_key(data, key) {
        match crate::kvlist::value_sel(data, key) {
            SaveValue::Integer(i) => i,
            SaveValue::Float(bits) => spec_f64_trunc(bits),
            _ => default,
        }
    } else {
        default
    }
}

/// The double reading of what `key` holds, as IEEE-754 bits: doubles read
/// back, integers convert to the nearest double, anything else is the
/// default.
pub open spec fn spec_read_float_bits(
    data: Seq<(String, SaveValue)>,
    key: Seq<char>,
    default: u64,
) -> u64 {
    if has_key(data, key) {
        match crate::kvlist::value_sel(data, key) {
            SaveValue::Float(bits) => bits,
            SaveValue::Integer(i) => spec_i64_to_f64_bits(i),
            _ => default,
        }
    } else {
        default
    }
}

/// The boolean reading of what `key` holds.
pub open spec fn spec_read_bool(data: Seq<(String, SaveValue)>, key: Seq<char>, default: bool) -> bool {
    if has_key(data, key) {
        match crate::kvlist::value_sel(data, key) {
            SaveValue::Boolean(b) => b,
            _ => default,
        }
    } else {
        default
    }
}

/// The string reading of what `key` holds.
pub open spec fn spec_read_string(
    data: Seq<(String, SaveValue)>,
    key: Seq<char>,
    default: Seq<char>,
) -> Seq<char> {
    if has_key(data, key) {
        match crate::kvlist::value_sel(data, key) {
            SaveValue::String(s) => s@,
            _ => default,
        }
    } else {
        default
    }
}

impl SaveManager {
    /// Stores a string value.
    pub fn write_string(&mut self, key: String, value: String) -> (r: Result<(), CacaoError>)
        requires
            old(self).wf(),
        ensures
            final(self).wf(),
            final(self).saves_dir == old(self).saves_dir,
            final(self).current_game_id == old(self).current_game_id,
            final(self).encryption_key == old(self).encryption_key,
            r is Ok <==> old(self).current_game_id is Some,
            r is Ok ==> kv_upd(
                final(self).current_save_data@,
                old(self).current_save_data@,
                key@,
                (SaveValue::String(value)),
            ),
            r is Err ==> final(self).current_save_data@ == old(self).current_save_data@,
    {
        self.write(key, SaveValue::String(value))
    }

    /// Stores an integer value.
    pub fn write_int(&mut self, key: String, value: i64) -> (r: Result<(), CacaoError>)
        requires
            old(self).wf(),
        ensures
            final(self).wf(),
            final(self).saves_dir == old(self).saves_dir,
            final(self).current_game_id == old(self).current_game_id,
            final(self).encryption_key == old(self).encryption_key,
            r is Ok <==> old(self).current_game_id is Some,
            r is Ok ==> kv_upd(
                final(self).current_save_data@,
                old(self).current_save_data@,
                key@,
                (SaveValue::Integer(value)),
            ),
            r is Err ==> final(self).current_save_data@ == old(self).current_save_data@,
    {
        self.write(key, SaveValue::Integer(value))
    }

    /// Stores a double value, given as its IEEE-754 bits.
    pub fn write_float_bits(&mut self, key: String, bits: u64) -> (r: Result<(), CacaoError>)
        requires
            old(self).wf(),
        ensures
            final(self).wf(),
            final(self).saves_dir == old(self).saves_dir,
            final(self).current_game_id == old(self).current_game_id,
            final(self).encryption_key == old(self).encryption_key,
            r is Ok <==> old(self).current_game_id is Some,
            r is Ok ==> kv_upd(
                final(self).current_save_data@,
                old(self).current_save_data@,
                key@,
                (SaveValue::Float(bits)),
            ),
            r is Err ==> final(self).current_save_data@ == old(self).current_save_data@,
    {
        self.write(key, SaveValue::Float(bits))
    }

    /// Stores a boolean value.
    pub fn write_bool(&mut self, key: String, value: bool) -> (r: Result<(), CacaoError>)
        requires
            old(self).wf(),
        ensures
            final(self).wf(),
            final(self).saves_dir == old(self).saves_dir,
            final(self).current_game_id == old(self).current_game_id,
            final(self).encryption_key == old(self).encryption_key,
            r is Ok <==> old(self).current_game_id is Some,
            r is Ok ==> kv_upd(
                final(self).current_save_data@,
                old(self).current_save_data@,
                key@,
                (SaveValue::Boolean(value)),
            ),
            r is Err ==> final(self).current_save_data@ == old(self).current_save_data@,
    {
        self.write(key, SaveValue::Boolean(value))
    }

    /// Reads a string, with a default.
    pub fn read_string(&self, key: &str, default: &str) -> (r: String)
        requires
            self.wf(),
        ensures
            r@ == spec_read_string(self.current_save_data@, key@, default@),
    {
        match self.read(key) {
            Some(SaveValue::String(s)) => s.clone(),
            _ => String::from_str(default),
        }
    }

    /// Reads an integer, with a default; a stored double truncates toward
    /// zero.
    pub fn read_int(&self, key: &str, default: i64) -> (r: i64)
        requires
            self.wf(),
        ensures
            r == spec_read_int(self.current_save_data@, key@, default),
    {
        match self.read(key) {
            Some(SaveValue::Integer(i)) => *i,
            Some(SaveValue::Float(bits)) => f64_bits_to_i64_trunc(*bits),
            _ => default,
        }
    }

    /// Reads a double as its IEEE-754 bits, with a default; a stored
    /// integer converts to the nearest double.
    pub fn read_float_bits(&self, key: &str, default: u64) -> (r: u64)
        requires
            self.wf(),
        ensures
            r == spec_read_float_bits(self.current_save_data@, key@, default),
    {
        match self.read(key) {
            Some(SaveValue::Float(bits)) => *bits,
            Some(SaveValue::Integer(i)) => i64_to_f64_bits(*i),
            _ => default,
        }
    }

    /// Reads a boolean, with a default.
    pub fn read_bool(&self, key: &str, default: bool) -> (r: bool)
        requires
            self.wf(),
        ensures
            r == spec_read_bool(self.current_save_data@, key@, default),
    {
        match self.read(key) {
            Some(SaveValue::Boolean(b)) => *b,
            _ => default,
        }
    }

    /// Adds `amount` to the integer under `key` (0 when absent) and stores
    /// and returns the new value.
    pub fn increment_int(&mut self, key: String, amount: i64) -> (r: Result<i64, CacaoError>)
        requires
            old(self).wf(),
            i64::MIN <= spec_read_int(old(self).current_save_data@, key@, 0) + amount <= i64::MAX,
        ensures
            final(self).wf(),
            final(self).current_game_id == old(self).current_game_id,
            final(self).encryption_key == old(self).encryption_key,
            r is Ok <==> old(self).current_game_id is Some,
            r matches Ok(v) ==> v == spec_read_int(old(self).current_save_data@, key@, 0) + amount
                && kv_upd(
                final(self).current_save_data@,
                old(self).current_save_data@,
                key@,
                (SaveValue::Integer(v)),
            ),
            r is Err ==> final(self).current_save_data@ == old(self).current_save_data@,
    {
        let current = self.read_int(key.as_str(), 0);
        let new_value = current + amount;
        match self.write_int(key, new_value) {
            Ok(_) => Ok(new_value),
            Err(e) => Err(e),
        }
    }

    /// Flips the boolean under `key` (false when absent) and stores and
    /// returns the new value.
    pub fn toggle_bool(&mut self, key: String) -> (r: Result<bool, CacaoError>)
        requires
            old(self).wf(),
        ensures
            final(self).wf(),
            final(self).current_game_id == old(self).current_game_id,
            final(self).encryption_key == old(self).encryption_key,
            r is Ok <==> old(self).current_game_id is Some,
            r matches Ok(v) ==> v == !spec_read_bool(old(self).current_save_data@, key@, false)
                && kv_upd(
                final(self).current_save_data@,
                old(self).current_save_data@,
                key@,
                (SaveValue::Boolean(v)),
            ),
            r is Err ==> final(self).current_save_data@ == old(self).current_save_data@,
    {
        let current = self.read_bool(key.as_str(), false);
        let new_value = !current;
        match self.write_bool(key, new_value) {
            Ok(_) => Ok(new_value),
            Err(e) => Err(e),
        }
    }
}

/// Where a save file sits on disk, as the host reports it.
#[derive(Debug)]
pub struct SaveInfo {
    pub path: String,
    pub size: u64,
    pub modified_timestamp: u64,
    pub is_backup: bool,
}

/// A summary of the live mapping.
#[derive(Debug)]
pub struct SaveStats {
    pub total_keys: usize,
    pub estimated_size: usize,
    pub last_modified: u64,
}

/// A save record assembled by this store reads back in full: any ciphertext
/// that decrypts to the encoding of a record whose checksum field is the
/// hash of its data payload installs exactly that record's entries under
/// the game it was written for.
pub proof fn lemma_save_round_trip(
    cipher: Seq<u8>,
    key: Seq<u8>,
    gid: Seq<char>,
    entries: Seq<(Seq<char>, SaveNode)>,
    timestamp: u64,
)
    requires
        cipher.len() >= 12,
        crate::savebin::obj_wf(entries),
        entries.len() <= u64::MAX,
        vstd::utf8::encode_utf8(gid).len() <= u64::MAX,
        vstd::utf8::encode_utf8(sha256_hex_of(data_enc(entries))).len() <= u64::MAX,
        aead_open_of(cipher, key) == Some(
            file_enc(1u32, gid, entries, sha256_hex_of(data_enc(entries)), timestamp),
        ),
    ensures
        spec_loaded(cipher, key, gid) == Some(entries),
{
    crate::savebin::lemma_sp_file_enc(
        1u32,
        gid,
        entries,
        sha256_hex_of(data_enc(entries)),
        timestamp,
    );
}

} // verus!
