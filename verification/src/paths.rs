//! Paths: joining, and the per-user directories the `dirs` crate finds.

use vstd::prelude::*;
use crate::chars::{chars_of, string_of, append_chars};

verus! {

/// What `Path::join` gives for `base` and `part` on Unix: `part` itself when
/// it is absolute (starts with `/`); otherwise `part` appended to `base`, with
/// a `/` between them unless `base` is empty or already ends with one.
pub open spec fn joined_path(base: Seq<char>, part: Seq<char>) -> Seq<char> {
    if part.len() > 0 && part[0] == '/' {
        part
    } else if base.len() == 0 || base.last() == '/' {
        base + part
    } else {
        base + seq!['/'] + part
    }
}

/// `Path::new(base).join(part)`, as a string.
pub fn path_join(base: &str, part: &str) -> (r: String)
    ensures
        r@ == joined_path(base@, part@),
{
    let b = chars_of(base);
    let p = chars_of(part);
    if p.len() > 0 && p[0] == '/' {
        return string_of(&p);
    }
    let mut out = b;
    if out.len() > 0 && out[out.len() - 1] != '/' {
        out.push('/');
    }
    append_chars(&mut out, &p);
    string_of(&out)
}

/// `dirs::home_dir`: the user's home directory, if one can be found. It
/// depends on the environment, so nothing is stated of it.
#[verifier::external_body]
pub(crate) fn home_dir() -> (r: Option<String>) {
    dirs::home_dir().map(|p| p.to_string_lossy().into_owned())
}

/// `dirs::cache_dir`: the user's cache directory (`$XDG_CACHE_HOME` or
/// `~/.cache`), if one can be found. It depends on the environment, so nothing
/// is stated of it.
#[verifier::external_body]
pub(crate) fn cache_dir() -> (r: Option<String>) {
    dirs::cache_dir().map(|p| p.to_string_lossy().into_owned())
}

/// `dirs::data_dir`: the user's data directory (`$XDG_DATA_HOME` or
/// `~/.local/share`), if one can be found. It depends on the environment, so
/// nothing is stated of it.
#[verifier::external_body]
pub(crate) fn data_dir() -> (r: Option<String>) {
    dirs::data_dir().map(|p| p.to_string_lossy().into_owned())
}

/// `dirs::config_dir`: the user's configuration directory
/// (`$XDG_CONFIG_HOME` or `~/.config`), if one can be found. It depends on
/// the environment, so nothing is stated of it.
#[verifier::external_body]
pub(crate) fn config_dir() -> (r: Option<String>) {
    dirs::config_dir().map(|p| p.to_string_lossy().into_owned())
}

} // verus!
