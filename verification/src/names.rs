//! Names of package archives: `name.version#release.raw.tar.gz`.
use vstd::prelude::*;

use crate::error::RawError;
use crate::text::{
    after, after_exec, before, before_exec, chars_of, concat, contains, contains_exec, ends_with,
    ends_with_exec, lemma_find_at_join, lemma_lacks, lemma_split_nonempty, lacks, single, split, split_exec,
    string_of, string_views,
};

verus! {

/// The suffix of every archive the library builds.
pub open spec fn archive_suffix() -> Seq<char> {
    ".raw.tar.gz"@
}

/// The file name of the archive of `name` at `version` and `release`.
pub open spec fn archive_file_name(name: Seq<char>, version: Seq<char>, release: Seq<char>) -> Seq<char> {
    name + seq!['.'] + version + seq!['#'] + release + archive_suffix()
}

/// The package name in an archive's file name: the text before its first `.`.
pub open spec fn package_name(file: Seq<char>) -> Option<Seq<char>> {
    before(file, seq!['.'])
}

/// The version and release in an archive's file name: between the first `.`
/// and the following `#`, and between the first `#` and the `.` after it.
pub open spec fn archive_version_release(file: Seq<char>) -> Option<(Seq<char>, Seq<char>)> {
    match after(file, seq!['.']) {
        Some(rest) => match before(rest, seq!['#']) {
            Some(version) => match after(file, seq!['#']) {
                Some(tail) => match before(tail, seq!['.']) {
                    Some(release) => Some((version, release)),
                    None => None,
                },
                None => None,
            },
            None => None,
        },
        None => None,
    }
}

/// Like `archive_version_release`, with the release ending at `.raw`.
pub open spec fn built_version_release(file: Seq<char>) -> Option<(Seq<char>, Seq<char>)> {
    match after(file, seq!['.']) {
        Some(rest) => match before(rest, seq!['#']) {
            Some(version) => match after(file, seq!['#']) {
                Some(tail) => match before(tail, ".raw"@) {
                    Some(release) => Some((version, release)),
                    None => None,
                },
                None => None,
            },
            None => None,
        },
        None => None,
    }
}

/// A file name that marks a built package: it contains `.raw.`.
pub open spec fn is_raw_archive(file: Seq<char>) -> bool {
    contains(file, ".raw."@)
}

/// A file name the installer can unpack: it ends with `.tar.gz` or `.tgz`.
pub open spec fn is_tarball(file: Seq<char>) -> bool {
    ends_with(file, ".tar.gz"@) || ends_with(file, ".tgz"@)
}

/// The last `/`-separated part of a URL: the name a download is saved under.
pub open spec fn url_file_name(url: Seq<char>) -> Seq<char> {
    split(url, '/').last()
}

/// The package name in an archive's file name.
pub fn package_name_of(file: &str) -> (r: Option<String>)
    ensures
        match r {
            Some(n) => package_name(file@) == Some(n@),
            None => package_name(file@) is None,
        },
{
    let f = chars_of(file);
    match before_exec(&f, &single('.')) {
        Some(n) => Some(string_of(&n)),
        None => None,
    }
}

/// The version and release in an archive's file name.
pub fn archive_version_release_of(file: &str) -> (r: Option<(String, String)>)
    ensures
        match r {
            Some(vr) => archive_version_release(file@) == Some((vr.0@, vr.1@)),
            None => archive_version_release(file@) is None,
        },
{
    let f = chars_of(file);
    let rest = after_exec(&f, &single('.'))?;
    let version = before_exec(&rest, &single('#'))?;
    let tail = after_exec(&f, &single('#'))?;
    let release = before_exec(&tail, &single('.'))?;
    Some((string_of(&version), string_of(&release)))
}

/// The version and release in the file name of a built package.
pub fn built_version_release_of(file: &str) -> (r: Option<(String, String)>)
    ensures
        match r {
            Some(vr) => built_version_release(file@) == Some((vr.0@, vr.1@)),
            None => built_version_release(file@) is None,
        },
{
    let f = chars_of(file);
    let raw = chars_of(".raw");
    let rest = after_exec(&f, &single('.'))?;
    let version = before_exec(&rest, &single('#'))?;
    let tail = after_exec(&f, &single('#'))?;
    let release = before_exec(&tail, &raw)?;
    Some((string_of(&version), string_of(&release)))
}

/// The file name of the archive of `name` at `version` and `release`.
pub fn archive_file_name_of(name: &str, version: &str, release: &str) -> (r: String)
    ensures
        r@ == archive_file_name(name@, version@, release@),
{
    let a = concat(&chars_of(name), &single('.'));
    let b = concat(&a, &chars_of(version));
    let c = concat(&b, &single('#'));
    let d = concat(&c, &chars_of(release));
    let e = concat(&d, &chars_of(".raw.tar.gz"));
    string_of(&e)
}

/// Whether a file name marks a built package.
pub fn is_raw_archive_name(file: &str) -> (r: bool)
    ensures
        r == is_raw_archive(file@),
{
    contains_exec(&chars_of(file), &chars_of(".raw."))
}

/// Whether a file name is one the installer can unpack.
pub fn is_tarball_name(file: &str) -> (r: bool)
    ensures
        r == is_tarball(file@),
{
    let f = chars_of(file);
    ends_with_exec(&f, &chars_of(".tar.gz")) || ends_with_exec(&f, &chars_of(".tgz"))
}

/// The name a download of `url` is saved under.
pub fn url_file_name_of(url: &str) -> (r: String)
    ensures
        r@ == url_file_name(url@),
{
    let mut parts = split_exec(&chars_of(url), '/');
    proof { lemma_split_nonempty(url@, '/', 0); }
    let last = parts.pop().unwrap();
    string_of(&last)
}

/// The shell command that runs a package's hook script `pkg.hook`
/// (`pre-install`, `post-install`, `pre-remove`, `post-remove`).
pub open spec fn hook_command(pkg: Seq<char>, hook: Seq<char>) -> Seq<char> {
    "chmod u+x "@ + pkg + seq!['.'] + hook + " && ./"@ + pkg + seq!['.'] + hook
}

/// The shell command that runs a package's hook script.
pub fn hook_command_of(pkg: &str, hook: &str) -> (r: String)
    ensures
        r@ == hook_command(pkg@, hook@),
{
    let script = concat(&concat(&chars_of(pkg), &single('.')), &chars_of(hook));
    let a = concat(&chars_of("chmod u+x "), &script);
    let b = concat(&a, &chars_of(" && ./"));
    let c = concat(&b, &script);
    assert(c@ =~= hook_command(pkg@, hook@));
    string_of(&c)
}

/// The version and release of every built package among the directory
/// entries `entries` (those whose name contains `.raw.`), in order; an
/// error when one of them does not carry both.
pub open spec fn local_builds(entries: Seq<Seq<char>>) -> Result<Seq<(Seq<char>, Seq<char>)>, RawError>
    decreases entries.len(),
{
    if entries.len() == 0 {
        Ok(seq![])
    } else {
        match local_builds(entries.drop_last()) {
            Err(e) => Err(e),
            Ok(prev) => if !is_raw_archive(entries.last()) {
                Ok(prev)
            } else {
                match archive_version_release(entries.last()) {
                    Some(vr) => Ok(prev.push(vr)),
                    None => Err(RawError::MalformedArchiveName),
                }
            },
        }
    }
}

/// The versions and releases as plain texts.
pub open spec fn pair_views(v: Seq<(String, String)>) -> Seq<(Seq<char>, Seq<char>)> {
    v.map_values(|p: (String, String)| (p.0@, p.1@))
}

/// The version and release of every built package among directory entries.
pub fn local_builds_of(entries: &[String]) -> (r: Result<Vec<(String, String)>, RawError>)
    ensures
        match r {
            Ok(v) => local_builds(string_views(entries@)) == Ok::<Seq<(Seq<char>, Seq<char>)>, RawError>(pair_views(v@)),
            Err(e) => local_builds(string_views(entries@)) == Err::<Seq<(Seq<char>, Seq<char>)>, RawError>(e),
        },
{
    let mut out: Vec<(String, String)> = Vec::new();
    let mut i: usize = 0;
    assert(string_views(entries@).take(0) =~= Seq::<Seq<char>>::empty());
    assert(pair_views(out@) =~= Seq::<(Seq<char>, Seq<char>)>::empty());
    while i < entries.len()
        invariant
            i <= entries@.len(),
            local_builds(string_views(entries@).take(i as int)) == Ok::<Seq<(Seq<char>, Seq<char>)>, RawError>(pair_views(out@)),
        decreases entries.len() - i,
    {
        let ghost es = string_views(entries@);
        assert(es.take(i + 1).drop_last() =~= es.take(i as int));
        assert(es.take(i + 1).last() == entries@[i as int]@);
        if is_raw_archive_name(entries[i].as_str()) {
            match archive_version_release_of(entries[i].as_str()) {
                Some(vr) => {
                    let ghost old_o = out@;
                    out.push(vr);
                    assert(pair_views(out@) =~= pair_views(old_o).push((vr.0@, vr.1@)));
                },
                None => {
                    proof { lemma_local_builds_err(es, i as int + 1); }
                    return Err(RawError::MalformedArchiveName);
                },
            }
        }
        i = i + 1;
    }
    assert(string_views(entries@).take(entries@.len() as int) =~= string_views(entries@));
    Ok(out)
}

proof fn lemma_local_builds_err(es: Seq<Seq<char>>, k: int)
    requires
        0 < k <= es.len(),
        local_builds(es.take(k)) is Err,
    ensures
        local_builds(es) == local_builds(es.take(k)),
    decreases es.len() - k,
{
    if k < es.len() {
        assert(es.take(k + 1).drop_last() =~= es.take(k));
        lemma_local_builds_err(es, k + 1);
    } else {
        assert(es.take(k) =~= es);
    }
}

/// The version and release of the first built package among directory
/// entries (the first whose name contains `.raw.`), release ending at `.raw`.
pub open spec fn first_built(entries: Seq<Seq<char>>) -> Result<(Seq<char>, Seq<char>), RawError>
    decreases entries.len(),
{
    if entries.len() == 0 {
        Err(RawError::NoPackageGenerated)
    } else if is_raw_archive(entries[0]) {
        match built_version_release(entries[0]) {
            Some(vr) => Ok(vr),
            None => Err(RawError::MalformedArchiveName),
        }
    } else {
        first_built(entries.drop_first())
    }
}

/// The version and release of the first built package among directory entries.
pub fn first_built_of(entries: &[String]) -> (r: Result<(String, String), RawError>)
    ensures
        match r {
            Ok(vr) => first_built(string_views(entries@)) == Ok::<(Seq<char>, Seq<char>), RawError>((vr.0@, vr.1@)),
            Err(e) => first_built(string_views(entries@)) == Err::<(Seq<char>, Seq<char>), RawError>(e),
        },
{
    let mut i: usize = 0;
    assert(string_views(entries@).skip(0) =~= string_views(entries@));
    while i < entries.len()
        invariant
            i <= entries@.len(),
            first_built(string_views(entries@)) == first_built(string_views(entries@).skip(i as int)),
        decreases entries.len() - i,
    {
        let ghost es = string_views(entries@).skip(i as int);
        assert(es[0] == entries@[i as int]@);
        assert(es.drop_first() =~= string_views(entries@).skip(i + 1));
        if is_raw_archive_name(entries[i].as_str()) {
            return match built_version_release_of(entries[i].as_str()) {
                Some(vr) => Ok(vr),
                None => Err(RawError::MalformedArchiveName),
            };
        }
        i = i + 1;
    }
    Err(RawError::NoPackageGenerated)
}

/// The first directory entry that is a built package (contains `.raw.`).
pub open spec fn first_raw_archive(entries: Seq<Seq<char>>) -> Option<Seq<char>>
    decreases entries.len(),
{
    if entries.len() == 0 {
        None
    } else if is_raw_archive(entries[0]) {
        Some(entries[0])
    } else {
        first_raw_archive(entries.drop_first())
    }
}

/// The first directory entry that is a built package.
pub fn first_raw_archive_of(entries: &[String]) -> (r: Option<String>)
    ensures
        match r {
            Some(e) => first_raw_archive(string_views(entries@)) == Some(e@),
            None => first_raw_archive(string_views(entries@)) is None,
        },
{
    let mut i: usize = 0;
    assert(string_views(entries@).skip(0) =~= string_views(entries@));
    while i < entries.len()
        invariant
            i <= entries@.len(),
            first_raw_archive(string_views(entries@)) == first_raw_archive(string_views(entries@).skip(i as int)),
        decreases entries.len() - i,
    {
        let ghost es = string_views(entries@).skip(i as int);
        assert(es[0] == entries@[i as int]@);
        assert(es.drop_first() =~= string_views(entries@).skip(i + 1));
        if is_raw_archive_name(entries[i].as_str()) {
            return Some(string_of(&chars_of(entries[i].as_str())));
        }
        i = i + 1;
    }
    None
}

/// Some directory entry contains `s`.
pub open spec fn some_entry_contains(entries: Seq<Seq<char>>, s: Seq<char>) -> bool {
    exists|k: int| 0 <= k < entries.len() && contains(#[trigger] entries[k], s)
}

/// Whether some directory entry contains `s`.
pub fn some_entry_contains_of(entries: &[String], s: &str) -> (r: bool)
    ensures
        r == some_entry_contains(string_views(entries@), s@),
{
    let p = chars_of(s);
    let mut i: usize = 0;
    while i < entries.len()
        invariant
            i <= entries@.len(),
            p@ == s@,
            forall|k: int| 0 <= k < i ==> !contains(#[trigger] string_views(entries@)[k], s@),
        decreases entries.len() - i,
    {
        assert(string_views(entries@)[i as int] == entries@[i as int]@);
        if contains_exec(&chars_of(entries[i].as_str()), &p) {
            return true;
        }
        i = i + 1;
    }
    false
}

/// Reading back a built archive's file name gives the name, version and
/// release it was made from, when the name holds no `.` or `#`, the
/// version no `#` and the release no `.`.
pub proof fn archive_name_round_trip(name: Seq<char>, version: Seq<char>, release: Seq<char>)
    requires
        !contains(name, seq!['.']),
        !contains(name, seq!['#']),
        !contains(version, seq!['#']),
        !contains(release, seq!['.']),
    ensures
        package_name(archive_file_name(name, version, release)) == Some(name),
        archive_version_release(archive_file_name(name, version, release)) == Some((version, release)),
        built_version_release(archive_file_name(name, version, release)) == Some((version, release)),
{
    reveal_strlit(".raw.tar.gz");
    reveal_strlit(".raw");
    lemma_lacks(name, '.');
    lemma_lacks(name, '#');
    lemma_lacks(version, '#');
    lemma_lacks(release, '.');
    let sfx = archive_suffix();
    let f = archive_file_name(name, version, release);
    // the first `.` ends the name
    let rest1 = seq!['.'] + version + seq!['#'] + release + sfx;
    assert(f =~= name + rest1);
    assert(rest1.subrange(0, 1) =~= seq!['.']);
    lemma_find_at_join(name, rest1, seq!['.']);
    let after_dot = version + seq!['#'] + release + sfx;
    assert(rest1.skip(1) =~= after_dot);
    // the first `#` after it ends the version
    let rest2 = seq!['#'] + release + sfx;
    assert(after_dot =~= version + rest2);
    assert(rest2.subrange(0, 1) =~= seq!['#']);
    lemma_find_at_join(version, rest2, seq!['#']);
    // the first `#` of the whole name
    let head = name + seq!['.'] + version;
    assert(lacks(head, '#'));
    assert(f =~= head + rest2);
    lemma_find_at_join(head, rest2, seq!['#']);
    let tail = release + sfx;
    assert(rest2.skip(1) =~= tail);
    // the release ends at the suffix's `.`
    assert(sfx.subrange(0, 1) =~= seq!['.']);
    lemma_find_at_join(release, sfx, seq!['.']);
    assert(sfx.subrange(0, 4) =~= ".raw"@);
    lemma_find_at_join(release, sfx, ".raw"@);
}

} // verus!
