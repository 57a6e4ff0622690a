//! Names of the files the server keeps in its data directory, and the
//! directory watched for configuration changes.

use vstd::prelude::*;
use crate::config_store::hex_digit;
use crate::log_store::{file_name_of, path_file_name};
use crate::text::{push_char, push_str, str_equal, string_from_str};

verus! {

/// The data directory under the home directory.
pub const APP_DIR_NAME: &'static str = ".host-bridge";

/// The directory of execution outputs and history.
pub const EXECUTIONS_DIR_NAME: &'static str = "executions";

/// The execution history file.
pub const EXECUTION_HISTORY_FILE_NAME: &'static str = "history.json";

/// The directory of log files.
pub const LOGS_DIR_NAME: &'static str = "logs";

/// The directory of stored SSH passwords.
pub const PASSWORDS_DIR_NAME: &'static str = "passwords";

/// The runtime log file.
pub const DEFAULT_LOG_FILE_NAME: &'static str = "host-bridge.log";

/// The prefix of temporary log files.
pub const TEMP_LOG_FILE_PREFIX: &'static str = "host-bridge-mcp-";

/// The prefix of stored SSH password files.
pub const SSH_PASSWORD_FILE_PREFIX: &'static str = "ssh-password-";

/// A byte kept as is in a file name: an ASCII letter or digit, `-` or `_`.
pub open spec fn is_name_byte(b: u8) -> bool {
    (48 <= b && b <= 57) || (65 <= b && b <= 90) || (97 <= b && b <= 122) || b == 45 || b == 95
}

/// How one byte is written in a file name.
pub open spec fn encode_byte(b: u8) -> Seq<char> {
    if is_name_byte(b) {
        seq![b as char]
    } else {
        seq!['-', hex_digit((b / 16) as nat), hex_digit((b % 16) as nat)]
    }
}

/// The bytes, each kept or written as `-` and two lower-case hex digits.
pub open spec fn encode_bytes(bs: Seq<u8>) -> Seq<char>
    decreases bs.len(),
{
    if bs.len() == 0 {
        Seq::empty()
    } else {
        encode_bytes(bs.drop_last()) + encode_byte(bs.last())
    }
}

/// A text made safe as part of a file name; `target` when it is empty.
pub open spec fn encode_component_spec(value: Seq<char>) -> Seq<char> {
    let e = encode_bytes(vstd::utf8::encode_utf8(value));
    if e.len() == 0 {
        "target"@
    } else {
        e
    }
}

/// The hexadecimal digit for a value below 16.
fn hex(v: u8) -> (c: char)
    requires
        v < 16,
    ensures
        c == hex_digit(v as nat),
{
    if v < 10 {
        let b: u8 = 48 + v;
        b as char
    } else {
        let b: u8 = 87 + v;
        b as char
    }
}

/// A text made safe as part of a file name.
pub fn encode_file_name_component(value: &str) -> (s: String)
    ensures
        s@ == encode_component_spec(value@),
{
    let bytes = value.as_bytes();
    let mut out = String::new();
    let mut i: usize = 0;
    while i < bytes.len()
        invariant
            i <= bytes@.len(),
            bytes@ == vstd::utf8::encode_utf8(value@),
            out@ == encode_bytes(bytes@.take(i as int)),
        decreases bytes@.len() - i,
    {
        let b = bytes[i];
        if (48 <= b && b <= 57) || (65 <= b && b <= 90) || (97 <= b && b <= 122) || b == 45 || b
            == 95 {
            push_char(&mut out, b as char);
        } else {
            push_char(&mut out, '-');
            push_char(&mut out, hex(b / 16));
            push_char(&mut out, hex(b % 16));
        }
        proof {
            let t = bytes@.take(i + 1);
            assert(t.drop_last() =~= bytes@.take(i as int));
            assert(t.last() == b);
            assert(out@ =~= encode_bytes(t));
        }
        i += 1;
    }
    assert(bytes@.take(i as int) =~= bytes@);
    if i == 0 {
        return string_from_str("target");
    }
    proof {
        lemma_encode_nonempty(bytes@);
    }
    out
}

/// Encoding bytes gives at least one character per byte.
proof fn lemma_encode_nonempty(bs: Seq<u8>)
    ensures
        encode_bytes(bs).len() >= bs.len(),
    decreases bs.len(),
{
    if bs.len() > 0 {
        lemma_encode_nonempty(bs.drop_last());
    }
}

/// The file holding an execution's output.
pub fn execution_output_file_name(execution_id: &str) -> (s: String)
    ensures
        s@ == execution_id@ + ".log"@,
{
    let mut s = string_from_str(execution_id);
    push_str(&mut s, ".log");
    s
}

/// A temporary log file with a unique part.
pub fn temporary_log_file_name(unique: &str) -> (s: String)
    ensures
        s@ == TEMP_LOG_FILE_PREFIX@ + unique@ + ".log"@,
{
    let mut s = string_from_str(TEMP_LOG_FILE_PREFIX);
    push_str(&mut s, unique);
    push_str(&mut s, ".log");
    s
}

/// The file holding the stored password of an SSH server.
pub fn ssh_password_file_name(server_name: &str) -> (s: String)
    ensures
        s@ == SSH_PASSWORD_FILE_PREFIX@ + encode_component_spec(server_name@) + ".txt"@,
{
    let mut s = string_from_str(SSH_PASSWORD_FILE_PREFIX);
    let e = encode_file_name_component(server_name);
    push_str(&mut s, e.as_str());
    push_str(&mut s, ".txt");
    s
}

/// What `Path::parent` gives for a path, each text by view.
pub uninterp spec fn path_parent(p: Seq<char>) -> Option<Seq<char>>;

/// The path without its final component (`Path::parent`), as text: `None`
/// when the path ends in a root or prefix or is empty, `Some("")` for a
/// relative path of one component (as the standard library documents). A
/// parent that is not valid Unicode comes back with replacement characters.
#[verifier::external_body]
fn parent_of(p: &str) -> (r: Option<String>)
    ensures
        match r {
            Some(s) => path_parent(p@) == Some(s@),
            None => path_parent(p@) is None,
        },
{
    match std::path::Path::new(p).parent() {
        Some(parent) => Some(parent.to_string_lossy().into_owned()),
        None => None,
    }
}

/// The directory watched for changes of the configuration file: its parent
/// directory, or the current directory when it has none.
pub open spec fn watched_directory_spec(parent: Option<Seq<char>>) -> Seq<char> {
    match parent {
        Some(d) => if d.len() > 0 {
            d
        } else {
            "."@
        },
        None => "."@,
    }
}

/// The directory watched for changes of the configuration file.
pub fn watched_directory_for_config_path(config_path: &str) -> (d: String)
    ensures
        d@ == watched_directory_spec(path_parent(config_path@)),
{
    match parent_of(config_path) {
        Some(parent) => {
            if crate::text::chars_of(parent.as_str()).len() > 0 {
                parent
            } else {
                string_from_str(".")
            }
        },
        None => string_from_str("."),
    }
}

/// Whether a changed path concerns the configuration file: it is the file
/// itself, or a file of the same name directly in the watched directory.
/// All paths are taken as already normalized.
pub open spec fn concerns_config(p: Seq<char>, config_path: Seq<char>, watched_directory: Seq<char>) -> bool {
    ||| p == config_path
    ||| (path_parent(p) == Some(watched_directory) && path_file_name(p) is Some && path_file_name(p)
        == path_file_name(config_path))
}

/// Whether a file event on `event_paths` concerns the configuration file.
pub fn event_targets_config_path(event_paths: &Vec<String>, config_path: &str, watched_directory: &str) -> (b: bool)
    ensures
        b == exists|i: int|
            0 <= i < event_paths@.len() && #[trigger] concerns_config(
                event_paths@[i]@,
                config_path@,
                watched_directory@,
            ),
{
    let target_name = file_name_of(config_path);
    let mut i: usize = 0;
    while i < event_paths.len()
        invariant
            i <= event_paths@.len(),
            match target_name {
                Some(s) => path_file_name(config_path@) == Some(s@),
                None => path_file_name(config_path@) is None,
            },
            forall|j: int|
                0 <= j < i ==> !#[trigger] concerns_config(event_paths@[j]@, config_path@, watched_directory@),
        decreases event_paths@.len() - i,
    {
        let p = event_paths[i].as_str();
        if str_equal(p, config_path) {
            assert(concerns_config(event_paths@[i as int]@, config_path@, watched_directory@));
            return true;
        }
        let in_directory = match parent_of(p) {
            Some(parent) => str_equal(parent.as_str(), watched_directory),
            None => false,
        };
        if in_directory {
            let same_name = match (file_name_of(p), &target_name) {
                (Some(a), Some(b)) => str_equal(a.as_str(), b.as_str()),
                _ => false,
            };
            if same_name {
                assert(concerns_config(event_paths@[i as int]@, config_path@, watched_directory@));
                return true;
            }
        }
        i += 1;
    }
    false
}

/// The kind of one component of a path, as the standard library splits it.
#[derive(Debug, Clone, Copy, PartialEq, Eq, Structural)]
pub enum PathPartKind {
    /// A Windows prefix such as `C:`.
    Prefix,
    /// The root separator.
    Root,
    /// `.`
    Current,
    /// `..`
    Parent,
    /// A name.
    Normal,
}

/// The components kept when the first `n` components of a path are
/// normalized without looking at the disk, by their positions: `.` is
/// dropped, and `..` drops the name or `..` before it, or is kept where
/// there is none (after a root, a prefix, or at the start).
pub open spec fn lexical_normal_form(kinds: Seq<PathPartKind>, n: int) -> Seq<int>
    decreases n,
{
    if n <= 0 {
        Seq::empty()
    } else {
        let kept = lexical_normal_form(kinds, n - 1);
        let i = n - 1;
        match kinds[i] {
            PathPartKind::Current => kept,
            PathPartKind::Parent => if kept.len() > 0 && (kinds[kept.last()] == PathPartKind::Normal
                || kinds[kept.last()] == PathPartKind::Parent) {
                kept.drop_last()
            } else {
                kept.push(i)
            },
            _ => kept.push(i),
        }
    }
}

/// The positions of the components that remain when a path is normalized
/// lexically; an empty result stands for `.`.
pub fn normalize_path_parts(kinds: &Vec<PathPartKind>) -> (kept: Vec<usize>)
    ensures
        kept@.map_values(|i: usize| i as int) == lexical_normal_form(kinds@, kinds@.len() as int),
{
    let mut kept: Vec<usize> = Vec::new();
    let mut i: usize = 0;
    while i < kinds.len()
        invariant
            i <= kinds@.len(),
            kept@.map_values(|k: usize| k as int) == lexical_normal_form(kinds@, i as int),
            forall|k: int| 0 <= k < kept@.len() ==> #[trigger] kept@[k] < i,
        decreases kinds@.len() - i,
    {
        let ghost before = kept@;
        assert(before.map_values(|k: usize| k as int).len() == before.len());
        match kinds[i] {
            PathPartKind::Current => {},
            PathPartKind::Parent => {
                let n = kept.len();
                let drops = n > 0 && (kinds[kept[n - 1]] == PathPartKind::Normal || kinds[kept[n - 1]]
                    == PathPartKind::Parent);
                if drops {
                    kept.pop();
                    assert(kept@.map_values(|k: usize| k as int) =~= before.map_values(|k: usize| k as int).drop_last());
                } else {
                    kept.push(i);
                    assert(kept@.map_values(|k: usize| k as int) =~= before.map_values(|k: usize| k as int).push(i as int));
                }
            },
            _ => {
                kept.push(i);
                assert(kept@.map_values(|k: usize| k as int) =~= before.map_values(|k: usize| k as int).push(i as int));
            },
        }
        i += 1;
    }
    kept
}

/// What a configured data directory names, after trimming white space:
/// the home directory (`~`), a path under it (`~/` and the rest), or the
/// text as written. Each form keeps the trimmed text, which is used as is
/// when the home directory is unknown.
#[derive(Debug, Clone, PartialEq, Eq)]
pub enum ConfiguredDataDir {
    Home { written: String },
    UnderHome { rest: String, written: String },
    AsWritten(String),
}

/// The form of a configured data directory.
pub fn classify_data_dir(value: &str) -> (d: ConfiguredDataDir)
    ensures
        ({
            let t = crate::text::trim_seq(value@);
            if t == "~"@ {
                d matches ConfiguredDataDir::Home { written } && written@ == t
            } else if crate::text::seq_starts_with(t, "~/"@) {
                d matches ConfiguredDataDir::UnderHome { rest, written } && rest@ == t.skip(2)
                    && written@ == t
            } else {
                d matches ConfiguredDataDir::AsWritten(written) && written@ == t
            }
        }),
{
    let t = crate::text::trimmed_chars(value);
    let tilde = crate::text::chars_of("~");
    let prefix = crate::text::chars_of("~/");
    proof {
        reveal_strlit("~");
        reveal_strlit("~/");
    }
    let written = crate::text::string_from_chars(t.as_slice());
    if crate::text::chars_equal(t.as_slice(), tilde.as_slice()) {
        ConfiguredDataDir::Home { written }
    } else if crate::text::starts_with_chars(t.as_slice(), prefix.as_slice()) {
        let rest_chars = crate::text::slice_range(t.as_slice(), 2, t.len());
        assert(rest_chars@ =~= t@.skip(2));
        let rest = crate::text::string_from_chars(rest_chars.as_slice());
        ConfiguredDataDir::UnderHome { rest, written }
    } else {
        ConfiguredDataDir::AsWritten(written)
    }
}

} // verus!
