//! The project configuration kept in `shadow.toml`.

use vstd::prelude::*;
use crate::text::{chars_of, copy_str, push_str, same_text};

verus! {

/// The configuration file at the repository root.
pub const CONFIG_FILE: &'static str = "shadow.toml";

/// The only backend type this version supports.
pub const VOLCENGINE_TOS: &'static str = "volcengine_tos";

/// Errors in a configuration.
#[derive(Debug, Clone, PartialEq, Eq)]
pub enum ConfigError {
    /// `version` is not 1.
    UnsupportedVersion(u32),
    /// `name` is not a single plain key segment.
    InvalidName,
    /// The backend type is not `volcengine_tos`.
    UnsupportedBackend(String),
    /// Endpoint, region or bucket is empty or blank.
    BlankBackendField,
    /// The prefix starts or ends with `/`.
    PrefixEdgeSlash,
    /// The prefix has a `..` component.
    PrefixParentComponent,
}

/// Where remote objects are stored.
#[derive(Debug, Clone, PartialEq, Eq)]
pub struct BackendConfig {
    pub kind: String,
    pub endpoint: String,
    pub region: String,
    pub bucket: String,
    pub prefix: String,
}

/// The contents of `shadow.toml`.
#[derive(Debug, Clone, PartialEq, Eq)]
pub struct Config {
    pub version: u32,
    /// The project's namespace in the bucket: the first segment of every
    /// object key.
    pub name: String,
    pub backend: Option<BackendConfig>,
}

/// The prefix used when the configuration names none.
pub fn default_prefix() -> (r: String)
    ensures
        r@ == "shadow"@,
{
    copy_str("shadow")
}

/// Unicode `White_Space`, as `char::is_whitespace` and `str::trim` use it.
pub open spec fn is_white_space(c: char) -> bool {
    ('\u{9}' <= c && c <= '\u{d}') || c == ' ' || c == '\u{85}' || c == '\u{a0}' || c == '\u{1680}'
        || ('\u{2000}' <= c && c <= '\u{200a}') || c == '\u{2028}' || c == '\u{2029}'
        || c == '\u{202f}' || c == '\u{205f}' || c == '\u{3000}'
}

/// Whether text is empty once trimmed: it holds only white space.
pub open spec fn is_blank(s: Seq<char>) -> bool {
    forall|i: int| 0 <= i < s.len() ==> is_white_space(#[trigger] s[i])
}

pub(crate) fn white_space_char(c: char) -> (r: bool)
    ensures
        r == is_white_space(c),
{
    ('\u{9}' <= c && c <= '\u{d}') || c == ' ' || c == '\u{85}' || c == '\u{a0}' || c == '\u{1680}'
        || ('\u{2000}' <= c && c <= '\u{200a}') || c == '\u{2028}' || c == '\u{2029}'
        || c == '\u{202f}' || c == '\u{205f}' || c == '\u{3000}'
}

/// Whether `s.trim().is_empty()`.
pub fn blank(s: &str) -> (r: bool)
    ensures
        r == is_blank(s@),
{
    let cs = chars_of(s);
    for i in 0..cs.len()
        invariant
            cs@ == s@,
            forall|j: int| 0 <= j < i ==> is_white_space(#[trigger] cs@[j]),
    {
        if !white_space_char(cs[i]) {
            return false;
        }
    }
    true
}

/// Whether the `/`-separated part `s[start..end]` is exactly `..`.
pub open spec fn is_parent_part(s: Seq<char>, start: int, end: int) -> bool {
    end == start + 2 && s[start] == '.' && s[start + 1] == '.'
}

/// Whether some `/`-separated part of `s` is `..`: a `..` that starts at the
/// beginning or after a `/`, and ends at the end or before a `/`.
pub open spec fn has_parent_part(s: Seq<char>) -> bool {
    exists|i: int|
        0 <= i && i + 2 <= s.len() && #[trigger] is_parent_part(s, i, i + 2) && (i == 0 || s[i - 1]
            == '/') && (i + 2 == s.len() || s[i + 2] == '/')
}

/// What `validate_prefix` decides.
pub open spec fn prefix_check(s: Seq<char>) -> Result<(), ConfigError> {
    if s.len() > 0 && (s[0] == '/' || s[s.len() - 1] == '/') {
        Err(ConfigError::PrefixEdgeSlash)
    } else if has_parent_part(s) {
        Err(ConfigError::PrefixParentComponent)
    } else {
        Ok(())
    }
}

/// Rejects a prefix that starts or ends with `/` or has a `..` component.
pub fn validate_prefix(prefix: &str) -> (r: Result<(), ConfigError>)
    ensures
        r == prefix_check(prefix@),
{
    let cs = chars_of(prefix);
    let n = cs.len();
    if n > 0 && (cs[0] == '/' || cs[n - 1] == '/') {
        return Err(ConfigError::PrefixEdgeSlash);
    }
    let mut i: usize = 0;
    while n >= 2 && i <= n - 2
        invariant
            cs@ == prefix@,
            n == cs.len(),
            i <= n,
            !(n > 0 && (cs@[0] == '/' || cs@[n - 1] == '/')),
            forall|k: int|
                0 <= k < i && k + 2 <= n ==> !(#[trigger] is_parent_part(cs@, k, k + 2) && (k == 0
                    || cs@[k - 1] == '/') && (k + 2 == n || cs@[k + 2] == '/')),
        decreases n - i,
    {
        if cs[i] == '.' && cs[i + 1] == '.' && (i == 0 || cs[i - 1] == '/') && (i + 2 == n || cs[i
            + 2] == '/') {
            assert(is_parent_part(cs@, i as int, i + 2));
            return Err(ConfigError::PrefixParentComponent);
        }
        i = i + 1;
    }
    assert(!has_parent_part(prefix@)) by {
        if has_parent_part(prefix@) {
            let k = choose|k: int|
                0 <= k && k + 2 <= prefix@.len() && #[trigger] is_parent_part(prefix@, k, k + 2) && (k
                    == 0 || prefix@[k - 1] == '/') && (k + 2 == prefix@.len() || prefix@[k + 2] == '/');
            assert(k < i);
        }
    }
    Ok(())
}

/// What `Config::validate` decides.
pub open spec fn config_check(c: Config) -> Result<(), ConfigError> {
    if c.version != 1 {
        Err(ConfigError::UnsupportedVersion(c.version))
    } else if !is_valid_name(c.name@) {
        Err(ConfigError::InvalidName)
    } else {
        match c.backend {
            None => Ok(()),
            Some(b) => if b.kind@ != VOLCENGINE_TOS@ {
                Err(ConfigError::UnsupportedBackend(b.kind))
            } else if is_blank(b.endpoint@) || is_blank(b.region@) || is_blank(b.bucket@) {
                Err(ConfigError::BlankBackendField)
            } else {
                prefix_check(b.prefix@)
            },
        }
    }
}

/// The start of a new `shadow.toml`, up to the project name.
pub const INITIAL_DOCUMENT_HEAD: &'static str = "version = 1\nname = \"";

/// The rest of a new `shadow.toml`: a commented-out backend example.
pub const INITIAL_DOCUMENT_TAIL: &'static str = "\"\n\n# [backend]\n# type = \"volcengine_tos\"\n# endpoint = \"https://tos-cn-beijing.volces.com\"\n# region = \"cn-beijing\"\n# bucket = \"example-shadow\"\n# prefix = \"shadow\"\n";

/// Whether `name` can be a project namespace: not blank, not `.` or `..`,
/// and free of `/` (which would split the key segment), `"` and `\\` (which
/// would need escaping in `shadow.toml`) and control characters.
pub open spec fn is_valid_name(name: Seq<char>) -> bool {
    &&& !is_blank(name)
    &&& name != seq!['.']
    &&& name != seq!['.', '.']
    &&& forall|i: int| 0 <= i < name.len() ==> is_name_char(#[trigger] name[i])
}

/// Whether a character may appear in a project name.
pub open spec fn is_name_char(c: char) -> bool {
    c != '/' && c != '"' && c != '\\' && c >= ' ' && c != '\u{7f}'
}

/// Checks a project name.
pub fn validate_name(name: &str) -> (r: Result<(), ConfigError>)
    ensures
        r is Ok <==> is_valid_name(name@),
        r matches Err(e) ==> e == ConfigError::InvalidName,
{
    let cs = chars_of(name);
    if blank(name) {
        return Err(ConfigError::InvalidName);
    }
    if cs.len() == 1 && cs[0] == '.' {
        assert(cs@ =~= seq!['.']);
        return Err(ConfigError::InvalidName);
    }
    if cs.len() == 2 && cs[0] == '.' && cs[1] == '.' {
        assert(cs@ =~= seq!['.', '.']);
        return Err(ConfigError::InvalidName);
    }
    let mut i: usize = 0;
    while i < cs.len()
        invariant
            i <= cs@.len(),
            cs@ == name@,
            forall|j: int| 0 <= j < i ==> is_name_char(#[trigger] cs@[j]),
        decreases cs.len() - i,
    {
        let c = cs[i];
        if c == '/' || c == '"' || c == '\\' || c < ' ' || c == '\u{7f}' {
            assert(!is_name_char(cs@[i as int]));
            return Err(ConfigError::InvalidName);
        }
        i = i + 1;
    }
    Ok(())
}

impl Config {
    /// A fresh version-1 configuration for project `name`, with no backend;
    /// fails when the name is not valid.
    pub fn new(name: &str) -> (r: Result<Config, ConfigError>)
        ensures
            r is Ok <==> is_valid_name(name@),
            r matches Ok(c) ==> c.version == 1 && c.name@ == name@ && c.backend is None
                && config_check(c) == Ok::<(), ConfigError>(()),
            r matches Err(e) ==> e == ConfigError::InvalidName,
    {
        match validate_name(name) {
            Ok(()) => Ok(Config { version: 1, name: copy_str(name), backend: None }),
            Err(e) => Err(e),
        }
    }

    /// Checks the version, the project name and the backend settings.
    pub fn validate(&self) -> (r: Result<(), ConfigError>)
        ensures
            r == config_check(*self),
    {
        if self.version != 1 {
            return Err(ConfigError::UnsupportedVersion(self.version));
        }
        if validate_name(self.name.as_str()).is_err() {
            return Err(ConfigError::InvalidName);
        }
        match &self.backend {
            None => Ok(()),
            Some(backend) => {
                if !same_text(backend.kind.as_str(), VOLCENGINE_TOS) {
                    return Err(ConfigError::UnsupportedBackend(backend.kind.clone()));
                }
                if blank(backend.endpoint.as_str()) || blank(backend.region.as_str()) || blank(
                    backend.bucket.as_str(),
                ) {
                    return Err(ConfigError::BlankBackendField);
                }
                validate_prefix(backend.prefix.as_str())
            },
        }
    }

    /// The text of a new `shadow.toml` for this configuration.
    pub fn initial_document(&self) -> (r: String)
        ensures
            r@ == INITIAL_DOCUMENT_HEAD@ + self.name@ + INITIAL_DOCUMENT_TAIL@,
    {
        let mut out = copy_str(INITIAL_DOCUMENT_HEAD);
        push_str(&mut out, self.name.as_str());
        push_str(&mut out, INITIAL_DOCUMENT_TAIL);
        out
    }
}

} // verus!
