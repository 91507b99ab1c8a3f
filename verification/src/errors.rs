//! The single error taxonomy of the engine core.

use vstd::prelude::*;

verus! {

/// Every failure the core surfaces, by kind, with a human-readable message.
#[derive(Debug, Clone)]
pub enum CacaoError {
    IoError(String),
    RenderError(String),
    GameLoadError(String),
    CryptoError(String),
    AudioError(String),
    ScriptError(String),
    LuaError(String),
}

impl CacaoError {
    /// The message carried by the error, whatever its kind.
    pub fn message(&self) -> (r: &String)
        ensures
            r@ == self.spec_message(),
    {
        match self {
            CacaoError::IoError(m) => m,
            CacaoError::RenderError(m) => m,
            CacaoError::GameLoadError(m) => m,
            CacaoError::CryptoError(m) => m,
            CacaoError::AudioError(m) => m,
            CacaoError::ScriptError(m) => m,
            CacaoError::LuaError(m) => m,
        }
    }

    pub open spec fn spec_message(&self) -> Seq<char> {
        match self {
            CacaoError::IoError(m) => m@,
            CacaoError::RenderError(m) => m@,
            CacaoError::GameLoadError(m) => m@,
            CacaoError::CryptoError(m) => m@,
            CacaoError::AudioError(m) => m@,
            CacaoError::ScriptError(m) => m@,
            CacaoError::LuaError(m) => m@,
        }
    }
}

} // verus!
