//! The guest script host: one interpreter instance per active bundle, gated
//! by the manifest's secret-key hash, with the host surface installed under
//! a fixed global name.

use vstd::prelude::*;
use vstd::utf8::encode_utf8;

use crate::crypto::sha256_hex_of;
use crate::errors::CacaoError;
use crate::manifest::GameInfo;

verus! {

#[verifier::external_type_specification]
#[verifier::external_body]
pub struct ExLua(mlua::Lua);

/// Relies on mlua::Lua::new: a fresh interpreter with an empty global table.
#[verifier::external_body]
fn lua_new() -> mlua::Lua {
    mlua::Lua::new()
}

/// Relies on mlua::Lua::create_table and Table set on the globals: installs
/// an empty host table under the fixed global name `cacao`; the error text
/// is the interpreter's.
#[verifier::external_body]
fn lua_install_host_table(lua: &mlua::Lua) -> (r: Result<(), String>)
{
    let table = match lua.create_table() {
        Ok(t) => t,
        Err(e) => return Err(e.to_string()),
    };
    match lua.globals().set("cacao", table) {
        Ok(_) => Ok(()),
        Err(e) => Err(e.to_string()),
    }
}

/// Relies on mlua::Lua::load and Chunk::exec: runs a script's source; what
/// it does depends on the script alone, so only success or the
/// interpreter's error text is reported.
#[verifier::external_body]
fn lua_exec(lua: &mlua::Lua, source: &str) -> (r: Result<(), String>)
{
    match lua.load(source).exec() {
        Ok(_) => Ok(()),
        Err(e) => Err(e.to_string()),
    }
}

/// Relies on mlua::Table::get and mlua::Function::call on the globals:
/// calls the global function `name` with no arguments when the script
/// defined one; reports whether it existed, or the interpreter's error.
#[verifier::external_body]
fn lua_call_global0(lua: &mlua::Lua, name: &str) -> (r: Result<bool, String>)
{
    match lua.globals().get::<mlua::Function>(name) {
        Ok(function) => match function.call::<()>(()) {
            Ok(_) => Ok(true),
            Err(e) => Err(e.to_string()),
        },
        Err(_) => Ok(false),
    }
}

/// An active bundle's script program and its interpreter.
pub struct Game {
    pub info: GameInfo,
    pub game_folder: String,
    pub lua: mlua::Lua,
    pub secret_key: String,
    pub initialized: bool,
}

impl Game {
    /// A host for a parsed bundle, not yet initialized.
    pub fn new(info: GameInfo, game_folder: String) -> (r: Self)
        ensures
            r.info == info,
            r.game_folder == game_folder,
            !r.initialized,
    {
        Game { info, game_folder, lua: lua_new(), secret_key: String::new(), initialized: false }
    }

    /// Unlocks and starts the guest: the secret key must hash to the
    /// manifest's `secret_key_hash`; then the host surface is installed,
    /// the entry script runs, and its `init` is called once if defined.
    /// A wrong key fails before anything runs.
    pub fn initialize(&mut self, secret_key: String, script_source: &str) -> (r: Result<
        (),
        CacaoError,
    >)
        ensures
            final(self).info == old(self).info,
            final(self).game_folder == old(self).game_folder,
            sha256_hex_of(encode_utf8(secret_key@)) != old(self).info.secret_key_hash@ ==> (
            r matches Err(e) && e is GameLoadError) && final(self).initialized == old(
                self,
            ).initialized,
            r is Ok ==> sha256_hex_of(encode_utf8(secret_key@)) == old(self).info.secret_key_hash@
                && final(self).initialized,
            r is Err ==> final(self).initialized == old(self).initialized,
            r matches Err(e) ==> e is GameLoadError || e is LuaError || e is ScriptError,
    {
        if !self.info.verify_secret_key(secret_key.as_str()) {
            return Err(CacaoError::GameLoadError(String::from_str("Invalid secret key")));
        }
        self.secret_key = secret_key;
        match lua_install_host_table(&self.lua) {
            Ok(_) => {},
            Err(m) => {
                return Err(CacaoError::LuaError(m));
            },
        }
        match lua_exec(&self.lua, script_source) {
            Ok(_) => {},
            Err(m) => {
                let mut message = String::from_str("Failed to load main script: ");
                message.append(m.as_str());
                return Err(CacaoError::ScriptError(message));
            },
        }
        match lua_call_global0(&self.lua, "init") {
            Ok(_) => {},
            Err(m) => {
                let mut message = String::from_str("Init function failed: ");
                message.append(m.as_str());
                return Err(CacaoError::ScriptError(message));
            },
        }
        self.initialized = true;
        Ok(())
    }

    /// Whether the per-frame callbacks may run.
    pub fn update_ready(&self) -> (r: bool)
        ensures
            r == self.initialized,
    {
        self.initialized
    }

    /// Calls the guest's `render` if the guest is running; a script error
    /// surfaces as `ScriptError` and does not poison later frames.
    pub fn render(&self) -> (r: Result<(), CacaoError>)
        ensures
            !self.initialized ==> r is Ok,
            r matches Err(e) ==> e is ScriptError && self.initialized,
    {
        if !self.initialized {
            return Ok(());
        }
        match lua_call_global0(&self.lua, "render") {
            Ok(_) => Ok(()),
            Err(m) => {
                let mut message = String::from_str("Render function failed: ");
                message.append(m.as_str());
                Err(CacaoError::ScriptError(message))
            },
        }
    }

    /// The manifest the host was created for.
    pub fn get_info(&self) -> (r: &GameInfo)
        ensures
            *r == self.info,
    {
        &self.info
    }

    /// The interpreter handle, for the host loop's per-frame `update(dt)`
    /// call, whose fractional-seconds argument the verified core cannot
    /// form.
    pub fn lua_handle(&self) -> &mlua::Lua {
        &self.lua
    }
}

} // verus!
