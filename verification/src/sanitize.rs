//! Deterministic sanitization of UTF-8 names into file-system friendly
//! folder names: ASCII alphanumerics, `-` and `_` are kept, every other
//! character maps to `_`.

use vstd::prelude::*;
use vstd::string::StrSliceExecFns;

use crate::strutil::ascii_bytes_to_string;

verus! {

/// The character-level sanitization rule.
pub open spec fn sanitize_char(c: char) -> char {
    if ('a' <= c && c <= 'z') || ('A' <= c && c <= 'Z') || ('0' <= c && c <= '9') || c == '-'
        || c == '_' {
        c
    } else {
        '_'
    }
}

/// The sanitized form of a whole name.
pub open spec fn sanitized(s: Seq<char>) -> Seq<char> {
    s.map_values(|c: char| sanitize_char(c))
}

fn sanitize_char_exec(c: char) -> (b: u8)
    ensures
        b == sanitize_char(c) as u8,
        b < 128,
        (sanitize_char(c) as u32) < 128,
{
    let u = c as u32;
    if (97 <= u && u <= 122) || (65 <= u && u <= 90) || (48 <= u && u <= 57) || u == 45 || u == 95 {
        c as u8
    } else {
        95u8
    }
}

/// Derives the on-disk folder name for a bundle title.
pub fn sanitize_filename(filename: &str) -> (r: String)
    ensures
        r@ == sanitized(filename@),
{
    let n = filename.unicode_len();
    let mut out: Vec<u8> = Vec::new();
    let mut i: usize = 0;
    while i < n
        invariant
            n == filename@.len(),
            0 <= i <= n,
            out@.len() == i,
            forall|j: int| 0 <= j < i ==> out@[j] == sanitize_char(filename@[j]) as u8,
            forall|j: int| 0 <= j < i ==> out@[j] < 128,
            forall|j: int| 0 <= j < i ==> (sanitize_char(filename@[j]) as u32) < 128,
        decreases n - i,
    {
        let c = filename.get_char(i);
        let b = sanitize_char_exec(c);
        out.push(b);
        i = i + 1;
    }
    let r = ascii_bytes_to_string(out);
    proof {
        assert forall|j: int| 0 <= j < n implies r@[j] == sanitized(filename@)[j] by {
            assert(r@[j] == (sanitize_char(filename@[j]) as u8) as char);
        }
        assert(r@ =~= sanitized(filename@));
    }
    r
}

/// Derives the per-bundle save directory stem from a game identifier,
/// with the same rule as folder names.
pub fn sanitize_game_id(game_id: &str) -> (r: String)
    ensures
        r@ == sanitized(game_id@),
{
    sanitize_filename(game_id)
}

} // verus!
