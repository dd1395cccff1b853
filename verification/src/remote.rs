//! Decisions about packages of the remote binary repository.
use vstd::prelude::*;

use crate::error::RawError;
use crate::index::{index_entry_name, index_entry_name_of, index_version_release, index_version_release_of};
use crate::meta::{installed_version_release, meta_version_release};
use crate::text::{
    before, before_exec, chars_of, concat, contains, contains_exec, line_containing,
    lemma_contains_char_of, lemma_find_line_containing, line_containing_exec, lines, lines_exec, same_text,
    single, string_of, string_views, trim, trim_exec, views,
};

verus! {

/// Where the archive of `pkg` at `version` and `release` lies in the
/// repository at `url`: `url/collection/pkg/pkg.version%23release.raw.tar.gz`
/// (`%23` is the URL escape of `#`).
pub open spec fn remote_archive_url(
    url: Seq<char>,
    collection: Seq<char>,
    pkg: Seq<char>,
    version: Seq<char>,
    release: Seq<char>,
) -> Seq<char> {
    url + seq!['/'] + collection + seq!['/'] + pkg + seq!['/'] + pkg + seq!['.'] + version + "%23"@
        + release + ".raw.tar.gz"@
}

/// Where the archive of `pkg` at `version` and `release` lies in the repository at `url`.
pub fn remote_archive_url_of(url: &str, collection: &str, pkg: &str, version: &str, release: &str) -> (r: String)
    ensures
        r@ == remote_archive_url(url@, collection@, pkg@, version@, release@),
{
    let slash = single('/');
    let p = chars_of(pkg);
    let mut t = concat(&chars_of(url), &slash);
    t = concat(&t, &chars_of(collection));
    t = concat(&t, &slash);
    t = concat(&t, &p);
    t = concat(&t, &slash);
    t = concat(&t, &p);
    t = concat(&t, &single('.'));
    t = concat(&t, &chars_of(version));
    t = concat(&t, &chars_of("%23"));
    t = concat(&t, &chars_of(release));
    t = concat(&t, &chars_of(".raw.tar.gz"));
    string_of(&t)
}

/// What `raw get` does with a package found in the index.
#[derive(Debug, PartialEq, Eq, Clone)]
pub enum GetAction {
    /// Install the locally built package instead of downloading.
    InstallLocal,
    /// Download the archive at this URL.
    Download(String),
}

/// The decision of `raw get pkg` against the index `index` of the
/// repository at `url`, given the version and release of the locally built
/// package (when local packages are used and one was built): `Ok(None)` to
/// install the local build, `Ok(Some(u))` to download `u`.
pub open spec fn get_plan(
    index: Seq<char>,
    pkg: Seq<char>,
    url: Seq<char>,
    local: Option<(Seq<char>, Seq<char>)>,
) -> Result<Option<Seq<char>>, RawError> {
    if !contains(index, pkg) {
        Err(RawError::PackageNotFound)
    } else {
        match line_containing(index, seq!['/'] + pkg + seq!['/']) {
            None => Err(RawError::NoSuchPackage),
            Some(line) => match index_version_release(line) {
                Err(e) => Err(e),
                Ok(vr) => {
                    if local is Some && (local.unwrap().0 != vr.0 || local.unwrap().1 != vr.1) {
                        Ok(None)
                    } else {
                        let col = before(line, seq!['/']).unwrap();
                        Ok(Some(remote_archive_url(url, col, pkg, vr.0, vr.1)))
                    }
                },
            },
        }
    }
}

/// The decision of `raw get pkg`.
pub fn plan_get(index: &str, pkg: &str, url: &str, local: &Option<(String, String)>) -> (r: Result<GetAction, RawError>)
    ensures
        match r {
            Ok(GetAction::InstallLocal) => get_plan(index@, pkg@, url@, local_view(local)) == Ok::<Option<Seq<char>>, RawError>(None),
            Ok(GetAction::Download(u)) => get_plan(index@, pkg@, url@, local_view(local)) == Ok::<Option<Seq<char>>, RawError>(Some(u@)),
            Err(e) => get_plan(index@, pkg@, url@, local_view(local)) == Err::<Option<Seq<char>>, RawError>(e),
        },
{
    let ix = chars_of(index);
    let p = chars_of(pkg);
    if !contains_exec(&ix, &p) {
        return Err(RawError::PackageNotFound);
    }
    let key = concat(&concat(&single('/'), &p), &single('/'));
    let line = match line_containing_exec(&ix, &key) {
        None => return Err(RawError::NoSuchPackage),
        Some(l) => l,
    };
    let line_s = string_of(&line);
    let (version, release) = match index_version_release_of(line_s.as_str()) {
        Err(e) => return Err(e),
        Ok(vr) => vr,
    };
    match local {
        Some(lv) => {
            if !same_text(&chars_of(lv.0.as_str()), &chars_of(version.as_str()))
                || !same_text(&chars_of(lv.1.as_str()), &chars_of(release.as_str())) {
                return Ok(GetAction::InstallLocal);
            }
        },
        None => {},
    }
    proof {
        lemma_collection_found(ix@, key@);
    }
    let col = before_exec(&line, &single('/')).unwrap();
    Ok(GetAction::Download(
        remote_archive_url_of(url, string_of(&col).as_str(), pkg, version.as_str(), release.as_str()),
    ))
}

/// The index line holding `/pkg/` has a `/`, so the collection before it is found.
proof fn lemma_collection_found(index: Seq<char>, key: Seq<char>)
    requires
        key.len() > 0,
        key[0] == '/',
        line_containing(index, key) is Some,
    ensures
        before(line_containing(index, key).unwrap(), seq!['/']) is Some,
{
    lemma_find_line_containing(lines(index), key, 0);
    lemma_contains_char_of(line_containing(index, key).unwrap(), key, 0);
    assert(seq![key[0]] =~= seq!['/']);
}

/// `raw get` on a package the index lists (its line found by `/pkg/`, with
/// version `v` and release `r`): when a local build is known whose version
/// or release differs from the index's, the plan is to install that local
/// build; when none is known, or it has the index's version and release,
/// the plan is to download the archive of that version and release from
/// the package's collection in the repository.
pub proof fn get_plan_follows_local_build(
    index: Seq<char>,
    pkg: Seq<char>,
    url: Seq<char>,
    line: Seq<char>,
    v: Seq<char>,
    r: Seq<char>,
    local: Option<(Seq<char>, Seq<char>)>,
)
    requires
        contains(index, pkg),
        line_containing(index, seq!['/'] + pkg + seq!['/']) == Some(line),
        index_version_release(line) == Ok::<(Seq<char>, Seq<char>), RawError>((v, r)),
    ensures
        local matches Some(lv) && (lv.0 != v || lv.1 != r) ==> get_plan(index, pkg, url, local)
            == Ok::<Option<Seq<char>>, RawError>(None),
        !(local matches Some(lv) && (lv.0 != v || lv.1 != r)) ==> get_plan(index, pkg, url, local)
            == Ok::<Option<Seq<char>>, RawError>(
            Some(remote_archive_url(url, before(line, seq!['/']).unwrap(), pkg, v, r)),
        ),
        before(line, seq!['/']) is Some,
{
    let key = seq!['/'] + pkg + seq!['/'];
    assert(key[0] == '/');
    lemma_collection_found(index, key);
}

/// The local version and release as plain texts.
pub open spec fn local_view(local: &Option<(String, String)>) -> Option<(Seq<char>, Seq<char>)> {
    match local {
        Some(vr) => Some((vr.0@, vr.1@)),
        None => None,
    }
}

/// Two version-release pairs differ in their version or in their release.
pub open spec fn version_release_differ(v1: Seq<char>, r1: Seq<char>, v2: Seq<char>, r2: Seq<char>) -> bool {
    v1 != v2 || r1 != r2
}

/// Whether two version-release pairs differ.
pub fn version_release_differ_of(v1: &str, r1: &str, v2: &str, r2: &str) -> (r: bool)
    ensures
        r == version_release_differ(v1@, r1@, v2@, r2@),
{
    !same_text(&chars_of(v1), &chars_of(v2)) || !same_text(&chars_of(r1), &chars_of(r2))
}

/// The position of the first `x` in `names` at or after `i`, or -1.
pub open spec fn first_index(names: Seq<Seq<char>>, x: Seq<char>, i: int) -> int
    decreases names.len() - i,
{
    if i < 0 || i >= names.len() {
        -1
    } else if names[i] == x {
        i
    } else {
        first_index(names, x, i + 1)
    }
}

/// What `raw changelog` makes of one index line, given the installed
/// packages `names` and their `META` texts `metas`: the line's package when
/// it is installed and the version or release the index gives differs from
/// its `META`, `None` when not; or the first error met, in the order the
/// package name, the installed version, the installed release, the index
/// version and the index release are read.
pub open spec fn update_candidate(line: Seq<char>, names: Seq<Seq<char>>, metas: Seq<Seq<char>>) -> Result<Option<Seq<char>>, RawError> {
    match index_entry_name(line) {
        None => Err(RawError::NameMissing),
        Some(name) => {
            let k = first_index(names, name, 0);
            if k < 0 {
                Ok(None)
            } else {
                match meta_version_release(metas[k]) {
                    Err(e) => Err(e),
                    Ok(installed) => match index_version_release(line) {
                        Err(e) => Err(e),
                        Ok(offered) => if version_release_differ(installed.0, installed.1, offered.0, offered.1) {
                            Ok(Some(name))
                        } else {
                            Ok(None)
                        },
                    },
                }
            }
        },
    }
}

/// The names of an optional package, as a sequence.
pub open spec fn opt_seq(o: Option<Seq<char>>) -> Seq<Seq<char>> {
    match o {
        Some(n) => seq![n],
        None => seq![],
    }
}

/// `front` put before a list of names, an error left as it is.
pub open spec fn prepend(front: Seq<Seq<char>>, r: Result<Seq<Seq<char>>, RawError>) -> Result<Seq<Seq<char>>, RawError> {
    match r {
        Ok(v) => Ok(front + v),
        Err(e) => Err(e),
    }
}

/// The installed packages the index lines `ls` offer another version or
/// release of, in index order; or the first error of a line.
pub open spec fn to_update(ls: Seq<Seq<char>>, names: Seq<Seq<char>>, metas: Seq<Seq<char>>) -> Result<Seq<Seq<char>>, RawError>
    decreases ls.len(),
{
    if ls.len() == 0 {
        Ok(seq![])
    } else {
        match update_candidate(ls[0], names, metas) {
            Err(e) => Err(e),
            Ok(o) => prepend(opt_seq(o), to_update(ls.drop_first(), names, metas)),
        }
    }
}

fn position_of(names: &[String], x: &str) -> (r: Option<usize>)
    ensures
        match r {
            Some(k) => k as int == first_index(string_views(names@), x@, 0) && k < names@.len(),
            None => first_index(string_views(names@), x@, 0) == -1,
        },
{
    let ghost ns = string_views(names@);
    let mut i: usize = 0;
    while i < names.len()
        invariant
            i <= names@.len(),
            ns == string_views(names@),
            first_index(ns, x@, 0) == first_index(ns, x@, i as int),
        decreases names.len() - i,
    {
        assert(ns[i as int] == names@[i as int]@);
        if same_text(&chars_of(names[i].as_str()), &chars_of(x)) {
            return Some(i);
        }
        i = i + 1;
    }
    None
}

fn update_candidate_of(line: &str, names: &[String], metas: &[String]) -> (r: Result<Option<String>, RawError>)
    requires
        names@.len() == metas@.len(),
    ensures
        match r {
            Ok(Some(n)) => update_candidate(line@, string_views(names@), string_views(metas@)) == Ok::<Option<Seq<char>>, RawError>(Some(n@)),
            Ok(None) => update_candidate(line@, string_views(names@), string_views(metas@)) == Ok::<Option<Seq<char>>, RawError>(None),
            Err(e) => update_candidate(line@, string_views(names@), string_views(metas@)) == Err::<Option<Seq<char>>, RawError>(e),
        },
{
    let name = match index_entry_name_of(line) {
        Err(e) => return Err(e),
        Ok(n) => n,
    };
    let k = match position_of(names, name.as_str()) {
        None => return Ok(None),
        Some(k) => k,
    };
    assert(string_views(metas@)[k as int] == metas@[k as int]@);
    let installed = match installed_version_release(metas[k].as_str()) {
        Err(e) => return Err(e),
        Ok(vr) => vr,
    };
    let offered = match index_version_release_of(line) {
        Err(e) => return Err(e),
        Ok(vr) => vr,
    };
    if version_release_differ_of(installed.0.as_str(), installed.1.as_str(), offered.0.as_str(), offered.1.as_str()) {
        Ok(Some(name))
    } else {
        Ok(None)
    }
}

/// The installed packages (`installed`, whose `META` texts are `metas`)
/// for which the index offers another version or release, in index order:
/// what `raw changelog` lists.
pub fn packages_to_update(index: &str, installed: &[String], metas: &[String]) -> (r: Result<Vec<String>, RawError>)
    requires
        installed@.len() == metas@.len(),
    ensures
        match r {
            Ok(v) => to_update(lines(index@), string_views(installed@), string_views(metas@)) == Ok::<Seq<Seq<char>>, RawError>(string_views(v@)),
            Err(e) => to_update(lines(index@), string_views(installed@), string_views(metas@)) == Err::<Seq<Seq<char>>, RawError>(e),
        },
{
    let ls = lines_exec(&chars_of(index));
    let ghost names = string_views(installed@);
    let ghost ms = string_views(metas@);
    let mut out: Vec<String> = Vec::new();
    assert(views(ls@).skip(0) =~= views(ls@));
    proof {
        match to_update(views(ls@), names, ms) {
            Ok(v) => assert(string_views(out@) + v =~= v),
            Err(_) => {},
        }
    }
    let mut i: usize = 0;
    while i < ls.len()
        invariant
            i <= ls@.len(),
            views(ls@) == lines(index@),
            installed@.len() == metas@.len(),
            names == string_views(installed@),
            ms == string_views(metas@),
            to_update(views(ls@), names, ms) == prepend(string_views(out@), to_update(views(ls@).skip(i as int), names, ms)),
        decreases ls.len() - i,
    {
        let ghost rest = views(ls@).skip(i as int);
        assert(rest[0] == ls@[i as int]@);
        assert(rest.drop_first() =~= views(ls@).skip(i + 1));
        let line = string_of(&ls[i]);
        let ghost before = string_views(out@);
        match update_candidate_of(line.as_str(), installed, metas) {
            Err(e) => {
                return Err(e);
            },
            Ok(Some(n)) => {
                let ghost tail = to_update(views(ls@).skip(i + 1), names, ms);
                out.push(n);
                assert(string_views(out@) =~= before + seq![n@]);
                proof {
                    match tail {
                        Ok(v) => assert((before + seq![n@]) + v =~= before + (seq![n@] + v)),
                        Err(_) => {},
                    }
                }
            },
            Ok(None) => {
                let ghost tail = to_update(views(ls@).skip(i + 1), names, ms);
                proof {
                    match tail {
                        Ok(v) => assert(before + (Seq::<Seq<char>>::empty() + v) =~= before + v),
                        Err(_) => {},
                    }
                }
            },
        }
        i = i + 1;
    }
    assert(views(ls@).skip(ls@.len() as int) =~= Seq::<Seq<char>>::empty());
    assert(string_views(out@) + Seq::<Seq<char>>::empty() =~= string_views(out@));
    Ok(out)
}

/// What `raw upgrade` does about one index line.
#[derive(Debug, PartialEq, Eq, Clone, Copy, Structural)]
pub enum UpgradeStep {
    /// A blank line, or a package that is not installed.
    Skip,
    /// Reinstall the locally built package, whose version or release
    /// differs from the index's.
    ReinstallLocal,
    /// Fetch the repository's build: its version or release differs from
    /// the installed one.
    Fetch,
    /// The installed package has the index's version and release.
    UpToDate,
}

/// The decision of `raw upgrade` on index line `line` (trimmed), given
/// whether its package is installed, the version and release of its local
/// build (when local packages are used), and its installed `META` text; or
/// the first error met, reading the package name, the index version and
/// release, then the installed version and release.
pub open spec fn upgrade_decision(
    line: Seq<char>,
    installed: bool,
    local: Option<(Seq<char>, Seq<char>)>,
    meta: Seq<char>,
) -> Result<UpgradeStep, RawError> {
    let l = trim(line);
    if l.len() == 0 {
        Ok(UpgradeStep::Skip)
    } else {
        match index_entry_name(l) {
            None => Err(RawError::NameMissing),
            Some(_) => match index_version_release(l) {
                Err(e) => Err(e),
                Ok(offered) => if !installed {
                    Ok(UpgradeStep::Skip)
                } else if local is Some && version_release_differ(local.unwrap().0, local.unwrap().1, offered.0, offered.1) {
                    Ok(UpgradeStep::ReinstallLocal)
                } else {
                    match meta_version_release(meta) {
                        Err(e) => Err(e),
                        Ok(current) => if version_release_differ(offered.0, offered.1, current.0, current.1) {
                            Ok(UpgradeStep::Fetch)
                        } else {
                            Ok(UpgradeStep::UpToDate)
                        },
                    }
                },
            },
        }
    }
}

/// The decision of `raw upgrade` on one index line.
pub fn upgrade_step(line: &str, installed: bool, local: &Option<(String, String)>, meta: &str) -> (r: Result<UpgradeStep, RawError>)
    ensures
        r == upgrade_decision(line@, installed, local_view(local), meta@),
{
    let t = trim_exec(&chars_of(line));
    if t.len() == 0 {
        return Ok(UpgradeStep::Skip);
    }
    let ts = string_of(&t);
    match index_entry_name_of(ts.as_str()) {
        Err(e) => return Err(e),
        Ok(_) => {},
    }
    let offered = match index_version_release_of(ts.as_str()) {
        Err(e) => return Err(e),
        Ok(vr) => vr,
    };
    if !installed {
        return Ok(UpgradeStep::Skip);
    }
    match local {
        Some(lv) => {
            if version_release_differ_of(lv.0.as_str(), lv.1.as_str(), offered.0.as_str(), offered.1.as_str()) {
                return Ok(UpgradeStep::ReinstallLocal);
            }
        },
        None => {},
    }
    match installed_version_release(meta) {
        Err(e) => Err(e),
        Ok(current) => if version_release_differ_of(offered.0.as_str(), offered.1.as_str(), current.0.as_str(), current.1.as_str()) {
            Ok(UpgradeStep::Fetch)
        } else {
            Ok(UpgradeStep::UpToDate)
        },
    }
}

} // verus!
