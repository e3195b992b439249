//! The rules behind `GET`/`HEAD /data/{*name}`, `GET /data/__index` and
//! `GET /data/warden_modules/{id}.cr` — the Data URL scheme the browser build's chain fetches
//! against.
//!
//! The name in the URL is percent-decoded here, not left to the router's path-segment decoding:
//! chain names use `\` as their separator, and decoding the raw tail and mapping `/` to `\`
//! afterwards matches what the client's name encoder produces on the way out.
use vstd::prelude::*;
use vstd::string::StringSliceAdditionalSpecFns;
use crate::text::{chars_of, string_of, lower_seq, lower_chars};
use crate::addons::{split_at_char, split_chars};
use crate::chain::ChainEntry;
use crate::listing::{lossy_text, utf8_lossy};

verus! {

// ── Module files ─────────────────────────────────────────────────────────────────────────────────

/// An ASCII hexadecimal digit.
pub open spec fn is_hex_char(c: char) -> bool {
    ('0' <= c && c <= '9') || ('a' <= c && c <= 'f') || ('A' <= c && c <= 'F')
}

/// ASCII uppercase of one character; every other character is itself.
pub open spec fn ascii_upper(c: char) -> char {
    if 'a' <= c && c <= 'z' {
        ((c as u32) - 32) as char
    } else {
        c
    }
}

/// The on-disk filename for a requested module id: exactly 32 hex digits and `.cr`, the digits
/// uppercased (that is how the files are named); nothing for anything else.
pub open spec fn module_file_of(id: Seq<char>) -> Option<Seq<char>> {
    if id.len() == 35 && id.subrange(32, 35) == seq!['.', 'c', 'r'] && forall|i: int|
        0 <= i < 32 ==> is_hex_char(#[trigger] id[i]) {
        Some(id.subrange(0, 32).map_values(|c: char| ascii_upper(c)) + seq!['.', 'c', 'r'])
    } else {
        None
    }
}

fn upper_char(c: char) -> (u: char)
    ensures
        u == ascii_upper(c),
{
    if 'a' <= c && c <= 'z' {
        let b: u8 = ((c as u32) - 32) as u8;
        b as char
    } else {
        c
    }
}

/// The on-disk filename for a requested module id, or `None` when the id is not one. A name that
/// passes is exactly 32 hex digits plus `.cr`, so it holds no separator, no `..` and no dot beyond
/// the extension, and joining it under the module directory cannot leave it.
pub fn module_filename(id: &str) -> (r: Option<String>)
    ensures
        r matches Some(s) ==> module_file_of(id@) == Some(s@),
        r is None ==> module_file_of(id@) is None,
{
    let cs = chars_of(id);
    if cs.len() != 35 || cs[32] != '.' || cs[33] != 'c' || cs[34] != 'r' {
        proof {
            if cs@.len() == 35 && id@.subrange(32, 35) == seq!['.', 'c', 'r'] {
                assert(id@.subrange(32, 35)[0] == id@[32]);
                assert(id@.subrange(32, 35)[1] == id@[33]);
                assert(id@.subrange(32, 35)[2] == id@[34]);
            }
        }
        return None;
    }
    assert(id@.subrange(32, 35) =~= seq!['.', 'c', 'r']);
    let mut out: Vec<char> = Vec::new();
    for i in 0..32
        invariant
            cs@ == id@,
            cs@.len() == 35,
            forall|j: int| 0 <= j < i ==> is_hex_char(#[trigger] id@[j]),
            out@ == id@.subrange(0, i as int).map_values(|c: char| ascii_upper(c)),
    {
        let c = cs[i];
        if !(('0' <= c && c <= '9') || ('a' <= c && c <= 'f') || ('A' <= c && c <= 'F')) {
            return None;
        }
        out.push(upper_char(c));
        assert(id@.subrange(0, i + 1) =~= id@.subrange(0, i as int).push(c));
    }
    out.push('.');
    out.push('c');
    out.push('r');
    assert(out@ =~= id@.subrange(0, 32).map_values(|c: char| ascii_upper(c)) + seq!['.', 'c', 'r']);
    Some(string_of(out.as_slice()))
}

/// **A module name cannot leave the module directory.** Whatever id a request names, a filename
/// that comes back is 35 characters — 32 uppercase hex digits and `.cr` — so it holds no
/// separator, no `..`, and no dot but the extension's.
pub proof fn law_module_names_stay_in_their_directory(id: Seq<char>)
    requires
        module_file_of(id) is Some,
    ensures
        ({
            let name = module_file_of(id)->0;
            &&& name.len() == 35
            &&& !name.contains('/') && !name.contains('\\')
            &&& forall|i: int| 0 <= i < 35 && name[i] == '.' ==> i == 32
            &&& forall|i: int| 0 <= i < 32 ==> is_hex_char(#[trigger] name[i]) && !('a' <= name[i] && name[i] <= 'z')
        }),
{
    let name = module_file_of(id)->0;
    let head = id.subrange(0, 32).map_values(|c: char| ascii_upper(c));
    assert(name == head + seq!['.', 'c', 'r']);
    assert forall|i: int| 0 <= i < 32 implies is_hex_char(#[trigger] name[i]) && !('a' <= name[i] && name[i] <= 'z') by {
        assert(name[i] == ascii_upper(id[i]));
        assert(is_hex_char(id[i]));
    }
    assert(!name.contains('/')) by {
        if name.contains('/') {
            let k = choose|k: int| 0 <= k < name.len() && name[k] == '/';
            if k < 32 {
                assert(is_hex_char(name[k]));
            }
        }
    }
    assert(!name.contains('\\')) by {
        if name.contains('\\') {
            let k = choose|k: int| 0 <= k < name.len() && name[k] == '\\';
            if k < 32 {
                assert(is_hex_char(name[k]));
            }
        }
    }
    assert forall|i: int| 0 <= i < 35 && name[i] == '.' implies i == 32 by {
        if i < 32 {
            assert(is_hex_char(name[i]));
        }
    }
}

// ── Content types ────────────────────────────────────────────────────────────────────────────────

/// The text after the last `.` of a name, or the whole name when it has none
/// (`rsplit('.').next()`).
pub open spec fn extension_of(name: Seq<char>) -> Seq<char> {
    split_at_char(name, '.').last()
}

/// The `Content-Type` a chain name is served with, chosen for the compression predicate: BLP
/// textures and MP3 audio are already compressed and are named so the predicate skips them;
/// everything else is structured, redundant data and is compressed.
pub open spec fn content_type_of(name: Seq<char>) -> Seq<char> {
    if lower_seq(extension_of(name)) == seq!['b', 'l', 'p'] {
        "image/x-blp"@
    } else if lower_seq(extension_of(name)) == seq!['m', 'p', '3'] {
        "audio/mpeg"@
    } else {
        "application/octet-stream"@
    }
}

/// The `Content-Type` for a chain name; the extension match is ASCII-case-insensitive.
pub fn content_type(name: &str) -> (t: &'static str)
    ensures
        t@ == content_type_of(name@),
{
    let parts = split_chars(chars_of(name).as_slice(), '.');
    proof {
        crate::addons::lemma_split_nonempty(name@, '.');
    }
    let last = parts.len() - 1;
    let ext = lower_chars(parts[last].as_slice());
    assert(parts@[last as int]@ == extension_of(name@));
    if ext.len() == 3 && ext[0] == 'b' && ext[1] == 'l' && ext[2] == 'p' {
        assert(ext@ =~= seq!['b', 'l', 'p']);
        "image/x-blp"
    } else if ext.len() == 3 && ext[0] == 'm' && ext[1] == 'p' && ext[2] == '3' {
        assert(ext@ =~= seq!['m', 'p', '3']);
        assert(ext@ != seq!['b', 'l', 'p']);
        "audio/mpeg"
    } else {
        proof {
            if ext@ == seq!['b', 'l', 'p'] {
                assert(ext@[0] == 'b' && ext@[1] == 'l' && ext@[2] == 'p');
            }
            if ext@ == seq!['m', 'p', '3'] {
                assert(ext@[0] == 'm' && ext@[1] == 'p' && ext@[2] == '3');
            }
        }
        "application/octet-stream"
    }
}

// ── Request names ────────────────────────────────────────────────────────────────────────────────

/// The value of an ASCII hex digit byte (`char::to_digit(16)`), if it is one.
pub open spec fn hex_value(b: u8) -> Option<u8> {
    if 48 <= b <= 57 {
        Some((b - 48) as u8)
    } else if 97 <= b <= 102 {
        Some((b - 87) as u8)
    } else if 65 <= b <= 70 {
        Some((b - 55) as u8)
    } else {
        None
    }
}

/// Percent-decoding (WHATWG): every `%` followed by two hex digits becomes the byte they spell;
/// every other byte, a lone `%` included, stands for itself.
pub open spec fn percent_decoded(s: Seq<u8>) -> Seq<u8>
    decreases s.len(),
{
    if s.len() == 0 {
        Seq::empty()
    } else if s[0] == 37 && s.len() >= 3 && hex_value(s[1]) is Some && hex_value(s[2]) is Some {
        seq![(hex_value(s[1])->0 * 16 + hex_value(s[2])->0) as u8] + percent_decoded(s.skip(3))
    } else {
        seq![s[0]] + percent_decoded(s.skip(1))
    }
}

/// `percent_encoding::percent_decode_str(raw)`, collected: the bytes of `raw`'s UTF-8 encoding,
/// percent-decoded as that crate's `PercentDecode` iterator does (a `%` and two hex digits become
/// one byte; anything else passes through).
#[verifier::external_body]
fn percent_decode_bytes(raw: &str) -> (out: Vec<u8>)
    ensures
        out@ == percent_decoded(raw.spec_bytes()),
{
    percent_encoding::percent_decode_str(raw).collect()
}

/// A request path, percent-decoded and read as UTF-8 (invalid sequences replaced).
pub open spec fn decoded_path(raw: Seq<u8>) -> Seq<char> {
    lossy_text(percent_decoded(raw))
}

/// Percent-decode a request path (`percent_decode_str(raw).decode_utf8_lossy()`).
pub fn decode_path(raw: &str) -> (s: String)
    ensures
        s@ == decoded_path(raw.spec_bytes()),
{
    let bytes = percent_decode_bytes(raw);
    utf8_lossy(bytes.as_slice())
}

/// The chain name a `/data/` request asks for: the path tail after `/data/`, percent-decoded, with
/// `/` mapped to the chain's `\` separator.
pub open spec fn chain_name_of(raw: Seq<u8>) -> Seq<char> {
    decoded_path(raw).map_values(|c: char| if c == '/' { '\\' } else { c })
}

/// The chain name a `/data/` request tail names.
pub fn request_name(raw: &str) -> (name: String)
    ensures
        name@ == chain_name_of(raw.spec_bytes()),
{
    let decoded = decode_path(raw);
    let cs = chars_of(decoded.as_str());
    let mut out: Vec<char> = Vec::new();
    let n = cs.len();
    for i in 0..n
        invariant
            n == cs@.len(),
            cs@ == decoded@,
            out@ == decoded@.take(i as int).map_values(|c: char| if c == '/' { '\\' } else { c }),
    {
        let c = cs[i];
        out.push(if c == '/' { '\\' } else { c });
        assert(decoded@.take(i + 1) =~= decoded@.take(i as int).push(c));
    }
    assert(decoded@.take(n as int) =~= decoded@);
    string_of(out.as_slice())
}

// ── The name index ───────────────────────────────────────────────────────────────────────────────

#[verifier::external_type_specification]
#[verifier::external_body]
pub struct ExJsonError(serde_json::Error);

/// The bytes `serde_json::to_vec` writes for a list of strings.
pub uninterp spec fn json_of_names(names: Seq<Seq<char>>) -> Seq<u8>;

/// What `serde_json::from_slice::<Vec<String>>` reads out of `bytes`: the list of strings, or
/// nothing when the bytes are not a JSON array of strings.
pub uninterp spec fn json_name_list(bytes: Seq<u8>) -> Option<Seq<Seq<char>>>;

/// `serde_json::to_vec` of a list of strings. Its bytes are named [`json_of_names`]. It always
/// succeeds here: the writer is a `Vec<u8>`, whose writes cannot fail, and a string serializes
/// without a fallible step; the crate documents failure only for a `Serialize` impl that fails or
/// a map with non-string keys.
#[verifier::external_body]
fn names_to_json(names: &Vec<String>) -> (r: Result<Vec<u8>, serde_json::Error>)
    ensures
        r is Ok,
        r matches Ok(b) ==> b@ == json_of_names(names@.map_values(|s: String| s@)),
{
    serde_json::to_vec(names)
}

/// `serde_json::from_slice::<Vec<String>>`. Its result is named [`json_name_list`]: it succeeds
/// exactly when that name holds a list, and then yields that list.
#[verifier::external_body]
pub(crate) fn names_from_json(bytes: &[u8]) -> (r: Result<Vec<String>, serde_json::Error>)
    ensures
        r is Ok <==> json_name_list(bytes@) is Some,
        r matches Ok(v) ==> json_name_list(bytes@) == Some(v@.map_values(|s: String| s@)),
{
    serde_json::from_slice(bytes)
}

/// The names of a chain listing, in order.
pub open spec fn entry_names(entries: Seq<ChainEntry>) -> Seq<Seq<char>> {
    entries.map_values(|e: ChainEntry| e.name@)
}

/// The body of `GET /data/__index`: every listed name, as a JSON array of strings.
pub fn index_body(entries: &[ChainEntry]) -> (body: Vec<u8>)
    ensures
        body@ == json_of_names(entry_names(entries@)),
{
    let mut names: Vec<String> = Vec::new();
    let n = entries.len();
    for i in 0..n
        invariant
            n == entries@.len(),
            names@.map_values(|s: String| s@) == entry_names(entries@.take(i as int)),
    {
        let ghost before = names@.map_values(|s: String| s@);
        names.push(entries[i].name.clone());
        assert(entries@.take(i + 1) =~= entries@.take(i as int).push(entries@[i as int]));
        assert(names@.map_values(|s: String| s@) =~= before.push(entries@[i as int].name@));
    }
    assert(entries@.take(n as int) =~= entries@);
    match names_to_json(&names) {
        Ok(b) => b,
        Err(_) => {
            assert(false);
            Vec::new()
        },
    }
}

} // verus!
