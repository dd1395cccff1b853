//! Reading `raw.conf`, the configuration of the package manager.
//!
//! The file holds `key=value` lines: `mode=binary` or `mode=source`, the
//! local tree (`source=` or `root=`), the remote repository (`url=`), an
//! AUR-like repository (`community=`) and `local=true` to use locally built
//! packages.
use vstd::prelude::*;

use crate::error::RawError;
use crate::text::{
    any_line_starting, any_line_starting_exec, chars_of, concat, contains, contains_exec,
    ends_with, ends_with_exec, keyed_value, keyed_value_exec, rsplit_once, rsplit_once_exec,
    single, string_of,
};

verus! {

/// The configuration asks for the binary mode.
pub open spec fn is_binary_mode(conf: Seq<char>) -> bool {
    contains(conf, "mode=binary"@)
}

/// The configuration asks for the source mode.
pub open spec fn is_source_mode(conf: Seq<char>) -> bool {
    contains(conf, "mode=source"@)
}

/// The configuration names every path its mode needs: `source=` and `url=`
/// in binary mode, `root=` in source mode.
pub open spec fn conf_complete(conf: Seq<char>) -> bool {
    if is_binary_mode(conf) {
        keyed_value(conf, "source="@) is Some && keyed_value(conf, "url="@) is Some
    } else if is_source_mode(conf) {
        keyed_value(conf, "root="@) is Some
    } else {
        true
    }
}

/// The mode, the local tree and the repository URL a configuration sets
/// (binary mode checked first), or the error when it sets no mode.
pub open spec fn parse_conf(conf: Seq<char>) -> Result<(Seq<char>, Seq<char>, Seq<char>), RawError> {
    if is_binary_mode(conf) {
        Ok(("binary"@, keyed_value(conf, "source="@).unwrap(), keyed_value(conf, "url="@).unwrap()))
    } else if is_source_mode(conf) {
        Ok(("source"@, keyed_value(conf, "root="@).unwrap(), seq![]))
    } else {
        Err(RawError::ModeNotSpecified)
    }
}

/// Whether the configuration asks for the source mode.
pub fn is_source_mode_of(conf: &str) -> (r: bool)
    ensures
        r == is_source_mode(conf@),
{
    contains_exec(&chars_of(conf), &chars_of("mode=source"))
}

/// Whether the configuration asks for the binary mode.
pub fn is_binary_mode_of(conf: &str) -> (r: bool)
    ensures
        r == is_binary_mode(conf@),
{
    contains_exec(&chars_of(conf), &chars_of("mode=binary"))
}

fn keyed(conf: &[char], key: &str) -> (r: Option<Vec<char>>)
    ensures
        match r {
            Some(v) => keyed_value(conf@, key@) == Some(v@),
            None => keyed_value(conf@, key@) is None,
        },
{
    keyed_value_exec(conf, &chars_of(key))
}

/// Whether the configuration names every path its mode needs.
pub fn conf_complete_of(conf: &str) -> (r: bool)
    ensures
        r == conf_complete(conf@),
{
    let c = chars_of(conf);
    if is_binary_mode_of(conf) {
        keyed(&c, "source=").is_some() && keyed(&c, "url=").is_some()
    } else if is_source_mode_of(conf) {
        keyed(&c, "root=").is_some()
    } else {
        true
    }
}

/// The mode (`"binary"` or `"source"`), the local tree and the repository
/// URL (empty in source mode) set by a configuration.
pub fn parse_conf_of(conf: &str) -> (r: Result<(String, String, String), RawError>)
    requires
        conf_complete(conf@),
    ensures
        match r {
            Ok(t) => parse_conf(conf@) == Ok::<(Seq<char>, Seq<char>, Seq<char>), RawError>((t.0@, t.1@, t.2@)),
            Err(e) => parse_conf(conf@) == Err::<(Seq<char>, Seq<char>, Seq<char>), RawError>(e),
        },
{
    let c = chars_of(conf);
    if is_binary_mode_of(conf) {
        let repo = keyed(&c, "source=").unwrap();
        let url = keyed(&c, "url=").unwrap();
        Ok((string_of(&chars_of("binary")), string_of(&repo), string_of(&url)))
    } else if is_source_mode_of(conf) {
        let root = keyed(&c, "root=").unwrap();
        Ok((string_of(&chars_of("source")), string_of(&root), String::new()))
    } else {
        Err(RawError::ModeNotSpecified)
    }
}

/// A URL with one trailing `/` removed (the text before its last `/`).
pub open spec fn without_trailing_slash(url: Seq<char>) -> Seq<char> {
    if ends_with(url, seq!['/']) {
        rsplit_once(url, seq!['/']).unwrap().0
    } else {
        url
    }
}

fn without_trailing_slash_of(url: &[char]) -> (r: Vec<char>)
    ensures
        r@ == without_trailing_slash(url@),
{
    let slash = single('/');
    if ends_with_exec(url, &slash) {
        proof { crate::text::lemma_ends_with_found(url@, seq!['/']); }
        rsplit_once_exec(url, &slash).unwrap().0
    } else {
        crate::text::slice_vec(url, 0, url.len())
    }
}

/// The repository URL (`url=`) without a trailing `/`.
pub open spec fn repo_url(conf: Seq<char>) -> Result<Seq<char>, RawError> {
    match keyed_value(conf, "url="@) {
        Some(u) => Ok(without_trailing_slash(u)),
        None => Err(RawError::UrlNotSet),
    }
}

/// The repository URL (`url=`) without a trailing `/`.
pub fn repo_url_of(conf: &str) -> (r: Result<String, RawError>)
    ensures
        match r {
            Ok(u) => repo_url(conf@) == Ok::<Seq<char>, RawError>(u@),
            Err(e) => repo_url(conf@) == Err::<Seq<char>, RawError>(e),
        },
{
    match keyed(&chars_of(conf), "url=") {
        Some(u) => Ok(string_of(&without_trailing_slash_of(&u))),
        None => Err(RawError::UrlNotSet),
    }
}

/// The repository URL of a binary-mode configuration, as `url=` gives it.
pub open spec fn binary_repo_url(conf: Seq<char>) -> Result<Seq<char>, RawError> {
    if !is_binary_mode(conf) {
        Err(RawError::NotBinaryMode)
    } else {
        match keyed_value(conf, "url="@) {
            Some(u) => Ok(u),
            None => Err(RawError::UrlNotSet),
        }
    }
}

/// The repository URL of a binary-mode configuration.
pub fn binary_repo_url_of(conf: &str) -> (r: Result<String, RawError>)
    ensures
        match r {
            Ok(u) => binary_repo_url(conf@) == Ok::<Seq<char>, RawError>(u@),
            Err(e) => binary_repo_url(conf@) == Err::<Seq<char>, RawError>(e),
        },
{
    if !is_binary_mode_of(conf) {
        return Err(RawError::NotBinaryMode);
    }
    match keyed(&chars_of(conf), "url=") {
        Some(u) => Ok(string_of(&u)),
        None => Err(RawError::UrlNotSet),
    }
}

/// The git repository of package `pkg` in the AUR-like repository that
/// `community=` names: that URL without a trailing `/`, then `/pkg`.
pub open spec fn community_repo(conf: Seq<char>, pkg: Seq<char>) -> Result<Seq<char>, RawError> {
    if !any_line_starting(conf, "community="@) {
        Err(RawError::CommunityNotSet)
    } else {
        Ok(without_trailing_slash(keyed_value(conf, "community="@).unwrap()) + seq!['/'] + pkg)
    }
}

/// The git repository of package `pkg` in the AUR-like repository.
pub fn community_repo_of(conf: &str, pkg: &str) -> (r: Result<String, RawError>)
    ensures
        match r {
            Ok(u) => community_repo(conf@, pkg@) == Ok::<Seq<char>, RawError>(u@),
            Err(e) => community_repo(conf@, pkg@) == Err::<Seq<char>, RawError>(e),
        },
{
    let c = chars_of(conf);
    let key = chars_of("community=");
    if !any_line_starting_exec(&c, &key) {
        return Err(RawError::CommunityNotSet);
    }
    proof { crate::text::lemma_any_line_starting(conf@, "community="@); }
    let u = keyed_value_exec(&c, &key).unwrap();
    let base = without_trailing_slash_of(&u);
    let with_slash = concat(&base, &single('/'));
    Ok(string_of(&concat(&with_slash, &chars_of(pkg))))
}

/// The directory whose `index.raw` lists package checksums: `source=`,
/// or else `root=`.
pub open spec fn checksum_dir(conf: Seq<char>) -> Result<Seq<char>, RawError> {
    match keyed_value(conf, "source="@) {
        Some(s) => Ok(s),
        None => match keyed_value(conf, "root="@) {
            Some(r) => Ok(r),
            None => Err(RawError::NoSourceOrRoot),
        },
    }
}

/// The directory whose `index.raw` lists package checksums.
pub fn checksum_dir_of(conf: &str) -> (r: Result<String, RawError>)
    ensures
        match r {
            Ok(d) => checksum_dir(conf@) == Ok::<Seq<char>, RawError>(d@),
            Err(e) => checksum_dir(conf@) == Err::<Seq<char>, RawError>(e),
        },
{
    let c = chars_of(conf);
    match keyed(&c, "source=") {
        Some(s) => Ok(string_of(&s)),
        None => match keyed(&c, "root=") {
            Some(r) => Ok(string_of(&r)),
            None => Err(RawError::NoSourceOrRoot),
        },
    }
}

/// The configuration uses locally built packages: it contains `local=true`.
pub open spec fn uses_local_packages(conf: Seq<char>) -> bool {
    contains(conf, "local=true"@)
}

/// Whether the configuration uses locally built packages.
pub fn uses_local_packages_of(conf: &str) -> (r: bool)
    ensures
        r == uses_local_packages(conf@),
{
    contains_exec(&chars_of(conf), &chars_of("local=true"))
}

/// The local tree (`root=`).
pub open spec fn tree_root(conf: Seq<char>) -> Result<Seq<char>, RawError> {
    match keyed_value(conf, "root="@) {
        Some(r) => Ok(r),
        None => Err(RawError::RootNotSet),
    }
}

/// The local tree (`root=`).
pub fn tree_root_of(conf: &str) -> (r: Result<String, RawError>)
    ensures
        match r {
            Ok(d) => tree_root(conf@) == Ok::<Seq<char>, RawError>(d@),
            Err(e) => tree_root(conf@) == Err::<Seq<char>, RawError>(e),
        },
{
    match keyed(&chars_of(conf), "root=") {
        Some(r) => Ok(string_of(&r)),
        None => Err(RawError::RootNotSet),
    }
}

/// The local tree to take built packages from: `Some(root=)` when the
/// configuration holds `local=` and its first `local=` line says `true`,
/// `None` when it does not ask for local packages.
pub open spec fn local_repo_root(conf: Seq<char>) -> Result<Option<Seq<char>>, RawError> {
    if !contains(conf, "local="@) {
        Ok(None)
    } else {
        match keyed_value(conf, "local="@) {
            None => Err(RawError::LocalLineMissing),
            Some(v) => if v == "true"@ {
                match keyed_value(conf, "root="@) {
                    Some(r) => Ok(Some(r)),
                    None => Err(RawError::RootNotSet),
                }
            } else {
                Ok(None)
            },
        }
    }
}

/// The local tree to take built packages from, if the configuration asks for it.
pub fn local_repo_root_of(conf: &str) -> (r: Result<Option<String>, RawError>)
    ensures
        match r {
            Ok(o) => match o {
                Some(d) => local_repo_root(conf@) == Ok::<Option<Seq<char>>, RawError>(Some(d@)),
                None => local_repo_root(conf@) == Ok::<Option<Seq<char>>, RawError>(None),
            },
            Err(e) => local_repo_root(conf@) == Err::<Option<Seq<char>>, RawError>(e),
        },
{
    let c = chars_of(conf);
    if !contains_exec(&c, &chars_of("local=")) {
        return Ok(None);
    }
    match keyed(&c, "local=") {
        None => Err(RawError::LocalLineMissing),
        Some(v) => {
            if crate::text::same_text(&v, &chars_of("true")) {
                match keyed(&c, "root=") {
                    Some(r) => Ok(Some(string_of(&r))),
                    None => Err(RawError::RootNotSet),
                }
            } else {
                Ok(None)
            }
        },
    }
}

} // verus!
