//! The config: where it lives, the TOML text that holds the braindump file
//! path, and when a configured path is usable.

use vstd::prelude::*;
use crate::paths::{join, join_spec};
use crate::text::{chars_of, push_all, string_from_chars, trim, trim_spec};

verus! {

/// The text of an optional string.
pub open spec fn opt_chars(o: Option<String>) -> Option<Seq<char>> {
    match o {
        Some(s) => Some(s@),
        None => None,
    }
}

/// The texts of a string result.
pub open spec fn res_chars(r: Result<String, String>) -> Result<Seq<char>, Seq<char>> {
    match r {
        Ok(s) => Ok(s@),
        Err(e) => Err(e@),
    }
}

/// The config key that holds the braindump file path.
pub open spec fn path_key() -> Seq<char> {
    "braindump_file_path"@
}

/// The error when no config directory can be determined.
pub open spec fn no_config_dir_error() -> Seq<char> {
    "failed to determine config directory"@
}

/// The config directory: the platform's config-home variable when it is set
/// and not empty (`XDG_CONFIG_HOME` on Unix, `APPDATA` on Windows), else
/// `~/.config`. Directories are joined by the Unix rules of `paths::join`.
pub open spec fn config_dir_spec(config_home: Option<Seq<char>>, home: Option<Seq<char>>) -> Result<Seq<char>, Seq<char>> {
    match config_home {
        Some(x) if x.len() > 0 => Ok(x),
        _ => match home {
            Some(h) => Ok(join_spec(h, ".config"@)),
            None => Err(no_config_dir_error()),
        },
    }
}

/// The config directory, from the value of the config-home variable and the
/// home directory.
pub fn config_dir(config_home: Option<String>, home: Option<String>) -> (r: Result<String, String>)
    ensures
        res_chars(r) == config_dir_spec(opt_chars(config_home), opt_chars(home)),
{
    if let Some(x) = config_home {
        if !x.as_str().is_empty() {
            return Ok(x);
        }
    }
    match home {
        Some(h) => Ok(join(h.as_str(), ".config")),
        None => Err("failed to determine config directory".to_owned()),
    }
}

/// The directory that holds braindump's config: `<config dir>/braindump`.
pub open spec fn braindump_config_dir_spec(config_home: Option<Seq<char>>, home: Option<Seq<char>>) -> Result<Seq<char>, Seq<char>> {
    match config_dir_spec(config_home, home) {
        Ok(d) => Ok(join_spec(d, "braindump"@)),
        Err(e) => Err(e),
    }
}

/// The directory that holds braindump's config, from the value of the
/// config-home variable and the home directory.
pub fn braindump_config_dir(config_home: Option<String>, home: Option<String>) -> (r: Result<String, String>)
    ensures
        res_chars(r) == braindump_config_dir_spec(opt_chars(config_home), opt_chars(home)),
{
    match config_dir(config_home, home) {
        Ok(d) => Ok(join(d.as_str(), "braindump")),
        Err(e) => Err(e),
    }
}

/// The config file: `<config dir>/braindump/config.toml`.
pub open spec fn config_path_spec(config_home: Option<Seq<char>>, home: Option<Seq<char>>) -> Result<Seq<char>, Seq<char>> {
    match braindump_config_dir_spec(config_home, home) {
        Ok(d) => Ok(join_spec(d, "config.toml"@)),
        Err(e) => Err(e),
    }
}

/// The config file, from the value of the config-home variable and the
/// home directory.
pub fn config_path(config_home: Option<String>, home: Option<String>) -> (r: Result<String, String>)
    ensures
        res_chars(r) == config_path_spec(opt_chars(config_home), opt_chars(home)),
{
    match braindump_config_dir(config_home, home) {
        Ok(d) => Ok(join(d.as_str(), "config.toml")),
        Err(e) => Err(e),
    }
}

/// A key that TOML writes bare: letters, digits, `-` and `_`, at least one.
pub open spec fn is_bare_key(k: Seq<char>) -> bool {
    &&& k.len() > 0
    &&& forall|i: int|
        0 <= i < k.len() ==> {
            let c = #[trigger] k[i];
            ||| ('a' <= c && c <= 'z')
            ||| ('A' <= c && c <= 'Z')
            ||| ('0' <= c && c <= '9')
            ||| c == '-'
            ||| c == '_'
        }
}

/// A string that TOML writes as a basic string without escapes: no double
/// quote, no backslash, and no control character (tab included: the writer
/// escapes it).
pub open spec fn is_plain_string(v: Seq<char>) -> bool {
    forall|i: int|
        0 <= i < v.len() ==> {
            let c = #[trigger] v[i];
            &&& c != '"'
            &&& c != '\\'
            &&& ' ' <= c
            &&& c != '\u{7f}'
        }
}

/// The one-line TOML document `key = "value"` followed by a line feed.
pub open spec fn toml_line(key: Seq<char>, value: Seq<char>) -> Seq<char> {
    key + seq![' ', '=', ' ', '"'] + value + seq!['"', '\n']
}

/// The value of a one-line document `key = "value"` with a bare key and a
/// plain value, if `text` is such a document.
pub open spec fn simple_toml_value(text: Seq<char>, key: Seq<char>) -> Option<Seq<char>> {
    if is_bare_key(key) && exists|v: Seq<char>| is_plain_string(v) && #[trigger] toml_line(key, v) == text {
        Some(choose|v: Seq<char>| is_plain_string(v) && #[trigger] toml_line(key, v) == text)
    } else {
        None
    }
}

/// What `toml::from_str::<toml::Table>` gives for `text` as the string value
/// at the top-level key `key`: `None` when the text is no TOML document, or
/// has no such key, or its value there is not a string.
pub uninterp spec fn toml_string_value(text: Seq<char>, key: Seq<char>) -> Option<Seq<char>>;

/// The string value at `key` of the TOML document `text`: the value of a
/// one-line `key = "value"` document, and otherwise what the parser gives.
pub open spec fn toml_value_at(text: Seq<char>, key: Seq<char>) -> Option<Seq<char>> {
    match simple_toml_value(text, key) {
        Some(v) => Some(v),
        None => toml_string_value(text, key),
    }
}

/// Parses `text` with `toml::from_str` into a `toml::Table` and reads the
/// string at the top-level key `key`. The contract claims that the result
/// depends on the two texts alone, and that a one-line document
/// `key = "value"` with a bare key and a plain value gives that value, as the
/// TOML grammar that the crate implements says.
#[verifier::external_body]
fn toml_string_entry(text: &str, key: &str) -> (r: Option<String>)
    ensures
        opt_chars(r) == (match simple_toml_value(text@, key@) {
            Some(v) => Some(v),
            None => toml_string_value(text@, key@),
        }),
{
    match toml::from_str::<toml::Table>(text) {
        Ok(table) => table.get(key).and_then(|value| value.as_str()).map(|s| s.to_string()),
        Err(_) => None,
    }
}

/// What `toml::to_string` gives for a table holding the single string entry
/// `key = value`: the document, or the text of the error.
pub uninterp spec fn toml_document(key: Seq<char>, value: Seq<char>) -> Result<Seq<char>, Seq<char>>;

/// The TOML text for a table holding the single string entry `key = value`:
/// the line `key = "value"` for a bare key and a plain value, and otherwise
/// what the serializer gives.
pub open spec fn toml_text_for(key: Seq<char>, value: Seq<char>) -> Result<Seq<char>, Seq<char>> {
    if is_bare_key(key) && is_plain_string(value) {
        Ok(toml_line(key, value))
    } else {
        toml_document(key, value)
    }
}

/// Serializes a `toml::Table` with the single entry `key = value` (a string)
/// with `toml::to_string`, mapping an error to its message. The contract
/// claims that the result depends on the two texts alone; that a bare key and
/// a plain value give the line `key = "value"` and a line feed (the crate
/// writes such a key unquoted and such a value as a basic string without
/// escapes); and that what it writes reads back: parsing the document gives
/// `value` at `key`, since its string encodings (escaped basic strings,
/// literal strings, their multi-line forms) are lossless. It does not state
/// when serializing fails.
#[verifier::external_body]
fn toml_string_document(key: &str, value: &str) -> (r: Result<String, String>)
    ensures
        res_chars(r) == (if is_bare_key(key@) && is_plain_string(value@) {
            Ok(toml_line(key@, value@))
        } else {
            toml_document(key@, value@)
        }),
        r matches Ok(t) ==> (match simple_toml_value(t@, key@) {
            Some(v) => Some(v),
            None => toml_string_value(t@, key@),
        }) == Some(value@),
{
    let mut table = toml::Table::new();
    table.insert(key.to_string(), toml::Value::String(value.to_string()));
    toml::to_string(&table).map_err(|error| error.to_string())
}

/// The braindump file path that a config text names: the string at
/// `braindump_file_path`, trimmed, if it is not empty.
pub open spec fn configured_path_spec(text: Seq<char>) -> Option<Seq<char>> {
    match toml_value_at(text, path_key()) {
        Some(v) => if trim_spec(v).len() == 0 {
            None
        } else {
            Some(trim_spec(v))
        },
        None => None,
    }
}

/// The braindump file path that the config text `text` names, trimmed;
/// `None` when the text is no TOML, lacks the key, holds no string there, or
/// holds only whitespace.
pub fn configured_path(text: &str) -> (r: Option<String>)
    ensures
        opt_chars(r) == configured_path_spec(text@),
{
    match toml_string_entry(text, "braindump_file_path") {
        Some(v) => {
            let t = trim(v.as_str());
            if t.as_str().is_empty() {
                None
            } else {
                Some(t)
            }
        },
        None => None,
    }
}

/// The config text that records `path`, or the error to report.
pub open spec fn config_text_spec(path: Seq<char>) -> Result<Seq<char>, Seq<char>> {
    match toml_text_for(path_key(), path) {
        Ok(t) => Ok(t),
        Err(e) => Err("failed to serialize config: "@ + e),
    }
}

/// The config text that records `path` as the braindump file path. What is
/// saved is read back: the text names `path`, trimmed (or nothing, when the
/// trimmed path is empty).
pub fn config_text(path: &str) -> (r: Result<String, String>)
    ensures
        res_chars(r) == config_text_spec(path@),
        r matches Ok(t) ==> configured_path_spec(t@) == (if trim_spec(path@).len() == 0 {
            None
        } else {
            Some(trim_spec(path@))
        }),
{
    match toml_string_document("braindump_file_path", path) {
        Ok(t) => Ok(t),
        Err(e) => {
            let mut msg = chars_of("failed to serialize config: ");
            let ec = chars_of(e.as_str());
            push_all(&mut msg, &ec);
            Err(string_from_chars(&msg))
        },
    }
}

proof fn lemma_path_key_is_bare()
    ensures
        is_bare_key(path_key()),
{
    reveal_strlit("braindump_file_path");
    let k = path_key();
    assert(k.len() == 19);
    assert forall|i: int| 0 <= i < k.len() implies {
        let c = #[trigger] k[i];
        ||| ('a' <= c && c <= 'z')
        ||| ('A' <= c && c <= 'Z')
        ||| ('0' <= c && c <= '9')
        ||| c == '-'
        ||| c == '_'
    } by {
        reveal_strlit("braindump_file_path");
    }
}

proof fn lemma_toml_line_injective(key: Seq<char>, v1: Seq<char>, v2: Seq<char>)
    requires
        toml_line(key, v1) == toml_line(key, v2),
    ensures
        v1 == v2,
{
    let t1 = toml_line(key, v1);
    let t2 = toml_line(key, v2);
    assert(t1.len() == key.len() + 4 + v1.len() + 2);
    assert(t2.len() == key.len() + 4 + v2.len() + 2);
    assert(v1.len() == v2.len());
    assert forall|i: int| 0 <= i < v1.len() implies v1[i] == v2[i] by {
        assert(t1[key.len() + 4 + i] == v1[i]);
        assert(t2[key.len() + 4 + i] == v2[i]);
    }
    assert(v1 =~= v2);
}

/// A plain path is saved as one line and read back: the config written for a
/// path that TOML holds as a basic string without escapes and that has no
/// surrounding whitespace is exactly `braindump_file_path = "PATH"` and a line
/// feed, and reading that config gives the same path. (For every path,
/// `config_text` ensures that what it writes reads back.)
pub proof fn law_plain_path_is_saved_as_one_line(path: Seq<char>)
    requires
        path.len() > 0,
        is_plain_string(path),
        trim_spec(path) == path,
    ensures
        config_text_spec(path) == Ok::<Seq<char>, Seq<char>>(toml_line(path_key(), path)),
        configured_path_spec(toml_line(path_key(), path)) == Some(path),
{
    lemma_path_key_is_bare();
    let t = toml_line(path_key(), path);
    assert(is_plain_string(path) && toml_line(path_key(), path) == t);
    let v = choose|v: Seq<char>| is_plain_string(v) && #[trigger] toml_line(path_key(), v) == t;
    lemma_toml_line_injective(path_key(), v, path);
}

/// Whether a directory with permission bits `mode` accepts new files: some
/// write bit (owner, group or other) is set, `mode & 0o222 != 0`.
pub fn dir_accepts_files(mode: u32) -> (r: bool)
    ensures
        r == (mode & 0o222u32 != 0),
{
    mode & 0o222 != 0
}

/// What opening a configured braindump file for appending gave.
#[derive(Clone, Copy, Debug, PartialEq, Eq)]
pub enum OpenProbe {
    Opened,
    NotFound,
    Failed,
}

/// What was found at one ancestor of a braindump file that does not exist.
#[derive(Clone, Copy, Debug, PartialEq, Eq)]
pub enum AncestorProbe {
    /// The parent is the empty path (a relative file name); `cwd_ok` tells
    /// whether the current directory can be determined.
    EmptyParent { cwd_ok: bool },
    /// The ancestor exists; `mode` holds its permission bits when they could
    /// be read.
    Existing { is_dir: bool, mode: Option<u32> },
    /// The ancestor does not exist: look further up.
    Missing,
    /// Its metadata could not be read for another reason.
    Failed,
}

/// Whether the ancestors of a missing file, nearest first, let its parents be
/// created: the first ancestor that is not missing decides; running out of
/// ancestors (past the root) means no.
pub open spec fn creatable_spec(chain: Seq<AncestorProbe>) -> bool
    decreases chain.len(),
{
    if chain.len() == 0 {
        false
    } else {
        match chain[0] {
            AncestorProbe::EmptyParent { cwd_ok } => cwd_ok,
            AncestorProbe::Existing { is_dir, mode } => is_dir && (match mode {
                Some(m) => m & 0o222u32 != 0,
                None => false,
            }),
            AncestorProbe::Missing => creatable_spec(chain.skip(1)),
            AncestorProbe::Failed => false,
        }
    }
}

/// Whether the missing braindump file could be created, judged from what its
/// ancestors are, nearest first.
pub fn creatable_ancestor(chain: &Vec<AncestorProbe>) -> (r: bool)
    ensures
        r == creatable_spec(chain@),
{
    let mut i: usize = 0;
    proof {
        assert(chain@.skip(0) =~= chain@);
    }
    while i < chain.len()
        invariant
            0 <= i <= chain@.len(),
            creatable_spec(chain@.skip(i as int)) == creatable_spec(chain@),
        decreases chain@.len() - i,
    {
        proof {
            assert(chain@.skip(i as int)[0] == chain@[i as int]);
            assert(chain@.skip(i as int).skip(1) =~= chain@.skip(i + 1));
        }
        match chain[i] {
            AncestorProbe::EmptyParent { cwd_ok } => {
                return cwd_ok;
            },
            AncestorProbe::Existing { is_dir, mode } => {
                return is_dir && match mode {
                    Some(m) => dir_accepts_files(m),
                    None => false,
                };
            },
            AncestorProbe::Missing => {},
            AncestorProbe::Failed => {
                return false;
            },
        }
        i = i + 1;
    }
    false
}

/// Whether a configured braindump file path is usable.
pub open spec fn usable_spec(open: OpenProbe, chain: Seq<AncestorProbe>) -> bool {
    match open {
        OpenProbe::Opened => true,
        OpenProbe::NotFound => creatable_spec(chain),
        OpenProbe::Failed => false,
    }
}

/// Whether a configured braindump file path is usable: it opens for
/// appending, or it does not exist and its parents can be created.
pub fn usable_path(open: OpenProbe, chain: &Vec<AncestorProbe>) -> (r: bool)
    ensures
        r == usable_spec(open, chain@),
{
    match open {
        OpenProbe::Opened => true,
        OpenProbe::NotFound => creatable_ancestor(chain),
        OpenProbe::Failed => false,
    }
}

} // verus!
