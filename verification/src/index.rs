//! The repository index `index.raw`.
//!
//! Each line describes one package: `collection/name/Pkgfile|version|release|sha`,
//! the path of its `Pkgfile`, its version and release, and the SHA-256 of
//! its built archive (`none` when none was built).
use vstd::prelude::*;

use crate::error::RawError;
use crate::text::{
    after, after_exec, before, before_exec, chars_of, concat, contains, contains_exec, join,
    lacks, line_containing, line_containing_exec, line_starting, line_starting_exec, rsplit_once,
    rsplit_once_exec, single, split, split_exec, string_of, views,
};

verus! {

/// The text every index line of package `pkg` contains: `pkg/Pkgfile`.
pub open spec fn pkgfile_key(pkg: Seq<char>) -> Seq<char> {
    pkg + "/Pkgfile"@
}

/// The first index line that contains `pkg/Pkgfile`.
pub open spec fn index_line_for(index: Seq<char>, pkg: Seq<char>) -> Option<Seq<char>> {
    line_containing(index, pkgfile_key(pkg))
}

/// Field `k` of an index line (fields are separated by `|`).
pub open spec fn index_field(line: Seq<char>, k: int) -> Option<Seq<char>> {
    if 0 <= k < split(line, '|').len() {
        Some(split(line, '|')[k])
    } else {
        None
    }
}

/// The first index line that contains `pkg/Pkgfile`.
pub fn index_line_for_of(index: &str, pkg: &str) -> (r: Option<String>)
    ensures
        match r {
            Some(l) => index_line_for(index@, pkg@) == Some(l@),
            None => index_line_for(index@, pkg@) is None,
        },
{
    let key = concat(&chars_of(pkg), &chars_of("/Pkgfile"));
    match line_containing_exec(&chars_of(index), &key) {
        Some(l) => Some(string_of(&l)),
        None => None,
    }
}

fn field_of(line: &[char], k: usize) -> (r: Option<Vec<char>>)
    ensures
        match r {
            Some(f) => index_field(line@, k as int) == Some(f@),
            None => index_field(line@, k as int) is None,
        },
{
    let mut fields = split_exec(line, '|');
    if k < fields.len() {
        assert(views(fields@)[k as int] == fields@[k as int]@);
        Some(fields.swap_remove(k))
    } else {
        None
    }
}

/// Field `k` of an index line.
pub fn index_field_of(line: &str, k: usize) -> (r: Option<String>)
    ensures
        match r {
            Some(f) => index_field(line@, k as int) == Some(f@),
            None => index_field(line@, k as int) is None,
        },
{
    match field_of(&chars_of(line), k) {
        Some(f) => Some(string_of(&f)),
        None => None,
    }
}

/// The checksum the index records for package `pkg`: field 3 of its line.
pub open spec fn index_checksum(index: Seq<char>, pkg: Seq<char>) -> Result<Seq<char>, RawError> {
    match index_line_for(index, pkg) {
        None => Err(RawError::NotInIndex),
        Some(l) => match index_field(l, 3) {
            Some(sha) => Ok(sha),
            None => Err(RawError::ChecksumMissing),
        },
    }
}

/// The checksum the index records for package `pkg`.
pub fn index_checksum_of(index: &str, pkg: &str) -> (r: Result<String, RawError>)
    ensures
        match r {
            Ok(s) => index_checksum(index@, pkg@) == Ok::<Seq<char>, RawError>(s@),
            Err(e) => index_checksum(index@, pkg@) == Err::<Seq<char>, RawError>(e),
        },
{
    match index_line_for_of(index, pkg) {
        None => Err(RawError::NotInIndex),
        Some(l) => match field_of(&chars_of(l.as_str()), 3) {
            Some(sha) => Ok(string_of(&sha)),
            None => Err(RawError::ChecksumMissing),
        },
    }
}

/// The index key of a package file: the text before the first `.` of an
/// archive name (one that contains `.raw.`), the name itself otherwise.
pub open spec fn package_key(package: Seq<char>) -> Seq<char> {
    if contains(package, ".raw."@) {
        before(package, seq!['.']).unwrap()
    } else {
        package
    }
}

/// The index key of a package file.
pub fn package_key_of(package: &str) -> (r: String)
    ensures
        r@ == package_key(package@),
{
    let p = chars_of(package);
    if contains_exec(&p, &chars_of(".raw.")) {
        proof {
            reveal_strlit(".raw.");
            crate::text::lemma_contains_char_of(package@, ".raw."@, 0);
            crate::text::lemma_lacks(package@, '.');
            crate::text::lemma_lacks(package@, ".raw."@[0]);
        }
        string_of(&before_exec(&p, &single('.')).unwrap())
    } else {
        string_of(&p)
    }
}

/// The name of the package an index line describes: the last `/`-part of
/// the path before `/Pkgfile`.
pub open spec fn index_entry_name(line: Seq<char>) -> Option<Seq<char>> {
    match before(line, "/Pkgfile"@) {
        Some(path) => match rsplit_once(path, seq!['/']) {
            Some(parts) => Some(parts.1),
            None => None,
        },
        None => None,
    }
}

/// The name of the package an index line describes.
pub fn index_entry_name_of(line: &str) -> (r: Result<String, RawError>)
    ensures
        match r {
            Ok(n) => index_entry_name(line@) == Some(n@),
            Err(e) => index_entry_name(line@) is None && e == RawError::NameMissing,
        },
{
    let path = match before_exec(&chars_of(line), &chars_of("/Pkgfile")) {
        Some(p) => p,
        None => return Err(RawError::NameMissing),
    };
    match rsplit_once_exec(&path, &single('/')) {
        Some(parts) => Ok(string_of(&parts.1)),
        None => Err(RawError::NameMissing),
    }
}

/// The version (field 1) and release (field 2) of an index line.
pub open spec fn index_version_release(line: Seq<char>) -> Result<(Seq<char>, Seq<char>), RawError> {
    match index_field(line, 1) {
        None => Err(RawError::VersionMissing),
        Some(v) => match index_field(line, 2) {
            None => Err(RawError::ReleaseMissing),
            Some(r) => Ok((v, r)),
        },
    }
}

/// The version and release of an index line.
pub fn index_version_release_of(line: &str) -> (r: Result<(String, String), RawError>)
    ensures
        match r {
            Ok(vr) => index_version_release(line@) == Ok::<(Seq<char>, Seq<char>), RawError>((vr.0@, vr.1@)),
            Err(e) => index_version_release(line@) == Err::<(Seq<char>, Seq<char>), RawError>(e),
        },
{
    let l = chars_of(line);
    match field_of(&l, 1) {
        None => Err(RawError::VersionMissing),
        Some(v) => match field_of(&l, 2) {
            None => Err(RawError::ReleaseMissing),
            Some(r) => Ok((string_of(&v), string_of(&r))),
        },
    }
}

/// The index line of a package: path, version, release and checksum,
/// separated by `|`.
pub open spec fn index_line(path: Seq<char>, version: Seq<char>, release: Seq<char>, sha: Seq<char>) -> Seq<char> {
    path + seq!['|'] + version + seq!['|'] + release + seq!['|'] + sha
}

/// The index line of a package.
pub fn index_line_of(path: &str, version: &str, release: &str, sha: &str) -> (r: String)
    ensures
        r@ == index_line(path@, version@, release@, sha@),
{
    let bar = single('|');
    let a = concat(&chars_of(path), &bar);
    let b = concat(&a, &chars_of(version));
    let c = concat(&b, &bar);
    let d = concat(&c, &chars_of(release));
    let e = concat(&d, &bar);
    let f = concat(&e, &chars_of(sha));
    string_of(&f)
}

/// A `Pkgfile` value with its quotes removed: the text between the first
/// two `"` when it holds one, the value itself otherwise.
pub open spec fn unquote(v: Seq<char>) -> Seq<char> {
    if contains(v, seq!['"']) {
        before(after(v, seq!['"']).unwrap(), seq!['"']).unwrap()
    } else {
        v
    }
}

/// The line a `Pkgfile` variable is read from: the first line that starts
/// with `name`, or `default` when none does.
pub open spec fn pkgfile_line(pkgfile: Seq<char>, name: Seq<char>, default: Seq<char>) -> Seq<char> {
    match line_starting(pkgfile, name) {
        Some(l) => l,
        None => default,
    }
}

/// The value of a `Pkgfile` variable as the index records it: the text
/// after `name=` on its line, quotes removed.
pub open spec fn pkgfile_value(pkgfile: Seq<char>, name: Seq<char>, default: Seq<char>) -> Seq<char> {
    unquote(after(pkgfile_line(pkgfile, name, default), name + seq!['=']).unwrap())
}

/// The value of a `Pkgfile` variable can be read: its line holds `name=`,
/// and the value holds no single `"`.
pub open spec fn pkgfile_value_readable(pkgfile: Seq<char>, name: Seq<char>, default: Seq<char>) -> bool {
    let raw = after(pkgfile_line(pkgfile, name, default), name + seq!['=']);
    &&& raw is Some
    &&& unquote_readable(raw.unwrap())
}

/// A value either holds no `"` or holds two of them.
pub open spec fn unquote_readable(v: Seq<char>) -> bool {
    contains(v, seq!['"']) ==> (after(v, seq!['"']) is Some && before(after(v, seq!['"']).unwrap(), seq!['"']) is Some)
}

fn unquote_of(v: &[char]) -> (r: Vec<char>)
    requires
        unquote_readable(v@),
    ensures
        r@ == unquote(v@),
{
    let q = single('"');
    if contains_exec(v, &q) {
        let a = after_exec(v, &q).unwrap();
        before_exec(&a, &q).unwrap()
    } else {
        crate::text::slice_vec(v, 0, v.len())
    }
}

fn pkgfile_raw_value(pkgfile: &[char], name: &[char], default: &[char]) -> (r: Option<Vec<char>>)
    ensures
        match r {
            Some(v) => after(pkgfile_line(pkgfile@, name@, default@), name@ + seq!['=']) == Some(v@),
            None => after(pkgfile_line(pkgfile@, name@, default@), name@ + seq!['=']) is None,
        },
{
    let key = concat(name, &single('='));
    match line_starting_exec(pkgfile, name) {
        Some(l) => after_exec(&l, &key),
        None => after_exec(default, &key),
    }
}

/// Whether the `version` and `release` of a `Pkgfile` can be read for the index.
pub fn pkgfile_readable(pkgfile: &str) -> (r: bool)
    ensures
        r == (pkgfile_value_readable(pkgfile@, "version"@, "version=unknown"@)
            && pkgfile_value_readable(pkgfile@, "release"@, "release=1"@)),
{
    let p = chars_of(pkgfile);
    let ok_v = match pkgfile_raw_value(&p, &chars_of("version"), &chars_of("version=unknown")) {
        Some(v) => unquote_readable_of(&v),
        None => false,
    };
    let ok_r = match pkgfile_raw_value(&p, &chars_of("release"), &chars_of("release=1")) {
        Some(v) => unquote_readable_of(&v),
        None => false,
    };
    ok_v && ok_r
}

fn unquote_readable_of(v: &[char]) -> (r: bool)
    ensures
        r == unquote_readable(v@),
{
    let q = single('"');
    if contains_exec(v, &q) {
        match after_exec(v, &q) {
            Some(a) => before_exec(&a, &q).is_some(),
            None => false,
        }
    } else {
        true
    }
}

/// The index line of the package whose `Pkgfile` lies at `path` (relative
/// to the tree) and whose built archive has checksum `sha`.
pub open spec fn pkgfile_index_line(path: Seq<char>, pkgfile: Seq<char>, sha: Seq<char>) -> Seq<char> {
    index_line(
        path,
        pkgfile_value(pkgfile, "version"@, "version=unknown"@),
        pkgfile_value(pkgfile, "release"@, "release=1"@),
        sha,
    )
}

/// The index line of the package whose `Pkgfile` lies at `path`.
pub fn pkgfile_index_line_of(path: &str, pkgfile: &str, sha: &str) -> (r: String)
    requires
        pkgfile_value_readable(pkgfile@, "version"@, "version=unknown"@),
        pkgfile_value_readable(pkgfile@, "release"@, "release=1"@),
    ensures
        r@ == pkgfile_index_line(path@, pkgfile@, sha@),
{
    let p = chars_of(pkgfile);
    let v = unquote_of(&pkgfile_raw_value(&p, &chars_of("version"), &chars_of("version=unknown")).unwrap());
    let rl = unquote_of(&pkgfile_raw_value(&p, &chars_of("release"), &chars_of("release=1")).unwrap());
    index_line_of(path, string_of(&v).as_str(), string_of(&rl).as_str(), sha)
}

/// Reading an index line written by the library gives back its version,
/// release and checksum, when none of its four parts holds a `|`.
pub proof fn index_line_round_trip(path: Seq<char>, version: Seq<char>, release: Seq<char>, sha: Seq<char>)
    requires
        lacks(path, '|'),
        lacks(version, '|'),
        lacks(release, '|'),
        lacks(sha, '|'),
    ensures
        split(index_line(path, version, release, sha), '|') == seq![path, version, release, sha],
        index_version_release(index_line(path, version, release, sha)) == Ok::<(Seq<char>, Seq<char>), RawError>((version, release)),
        index_field(index_line(path, version, release, sha), 3) == Some(sha),
{
    let l = index_line(path, version, release, sha);
    let bar = seq!['|'];
    let p3 = sha;
    let p2 = release + bar + sha;
    let p1 = version + bar + p2;
    assert(l =~= path + bar + p1);
    crate::text::lemma_split_cons(path, p1, '|');
    crate::text::lemma_split_cons(version, p2, '|');
    crate::text::lemma_split_cons(release, p3, '|');
    crate::text::lemma_split_single(sha, '|');
    assert(split(l, '|') =~= seq![path, version, release, sha]);
}

/// The directory of package `pkg` in the tree: its index line up to `/Pkgfile`.
pub open spec fn package_dir(index: Seq<char>, pkg: Seq<char>) -> Option<Seq<char>> {
    match index_line_for(index, pkg) {
        Some(l) => before(l, "/Pkgfile"@),
        None => None,
    }
}

/// The directory of package `pkg` in the tree.
pub fn package_dir_of(index: &str, pkg: &str) -> (r: Option<String>)
    ensures
        match r {
            Some(d) => package_dir(index@, pkg@) == Some(d@),
            None => package_dir(index@, pkg@) is None,
        },
{
    match index_line_for_of(index, pkg) {
        Some(l) => match before_exec(&chars_of(l.as_str()), &chars_of("/Pkgfile")) {
            Some(d) => Some(string_of(&d)),
            None => None,
        },
        None => None,
    }
}

/// The first index line that holds `/pkg/`: the line of package `pkg`'s directory.
pub open spec fn line_with_dir(index: Seq<char>, pkg: Seq<char>) -> Option<Seq<char>> {
    line_containing(index, seq!['/'] + pkg + seq!['/'])
}

/// The first index line that holds `/pkg/`.
pub fn line_with_dir_of(index: &str, pkg: &str) -> (r: Option<String>)
    ensures
        match r {
            Some(l) => line_with_dir(index@, pkg@) == Some(l@),
            None => line_with_dir(index@, pkg@) is None,
        },
{
    let key = concat(&concat(&single('/'), &chars_of(pkg)), &single('/'));
    match line_containing_exec(&chars_of(index), &key) {
        Some(l) => Some(string_of(&l)),
        None => None,
    }
}

/// The directory part of an index line: the text before `/Pkgfile`.
pub open spec fn pkgfile_dir(line: Seq<char>) -> Option<Seq<char>> {
    before(line, "/Pkgfile"@)
}

/// The directory part of an index line.
pub fn pkgfile_dir_of(line: &str) -> (r: Option<String>)
    ensures
        match r {
            Some(d) => pkgfile_dir(line@) == Some(d@),
            None => pkgfile_dir(line@) is None,
        },
{
    match before_exec(&chars_of(line), &chars_of("/Pkgfile")) {
        Some(d) => Some(string_of(&d)),
        None => None,
    }
}

/// The tree path as the index walk uses it: ending with `/`.
pub open spec fn tree_prefix(path: Seq<char>) -> Seq<char> {
    if crate::text::ends_with(path, seq!['/']) {
        path
    } else {
        path + seq!['/']
    }
}

/// The tree path ending with `/`.
pub fn tree_prefix_of(path: &str) -> (r: String)
    ensures
        r@ == tree_prefix(path@),
{
    let p = chars_of(path);
    if crate::text::ends_with_exec(&p, &single('/')) {
        string_of(&p)
    } else {
        string_of(&concat(&p, &single('/')))
    }
}

/// The path of a file found under the tree, relative to it: the text after
/// the trimmed tree path.
pub open spec fn relative_entry(found: Seq<char>, tree: Seq<char>) -> Option<Seq<char>> {
    after(found, crate::text::trim(tree))
}

/// The path of a file found under the tree, relative to it.
pub fn relative_entry_of(found: &str, tree: &str) -> (r: Option<String>)
    ensures
        match r {
            Some(e) => relative_entry(found@, tree@) == Some(e@),
            None => relative_entry(found@, tree@) is None,
        },
{
    match after_exec(&chars_of(found), &crate::text::trim_exec(&chars_of(tree))) {
        Some(e) => Some(string_of(&e)),
        None => None,
    }
}

/// The first index line that contains `pkg` (what `raw search` reports).
pub open spec fn search_index(index: Seq<char>, pkg: Seq<char>) -> Option<Seq<char>> {
    line_containing(index, pkg)
}

/// The first index line that contains `pkg`.
pub fn search_index_of(index: &str, pkg: &str) -> (r: Option<String>)
    ensures
        match r {
            Some(l) => search_index(index@, pkg@) == Some(l@),
            None => search_index(index@, pkg@) is None,
        },
{
    match line_containing_exec(&chars_of(index), &chars_of(pkg)) {
        Some(l) => Some(string_of(&l)),
        None => None,
    }
}

} // verus!
