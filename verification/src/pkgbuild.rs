//! Building a package from its `Pkgfile`: the decisions `raw package` takes.
use vstd::prelude::*;

use crate::error::RawError;
use crate::names::{archive_version_release, archive_version_release_of};
use crate::text::{
    after, after_exec, any_line_starting, any_line_starting_exec, chars_of, concat, contains,
    contains_exec, join, join_exec, keyed_value, keyed_value_exec, lemma_views_push, line_starting,
    line_starting_exec, lines, lines_exec, list_contains, same_text, single, starts_with, string_of,
    string_views, strings_of, views, words, words_exec,
};

verus! {

/// The variables a `Pkgfile` defines, as `bash` prints them one per line.
#[derive(Debug, PartialEq, Eq, Clone)]
pub struct PkgfileVars {
    pub version: String,
    pub name: String,
    pub packager: String,
    pub release: String,
    pub description: String,
    pub depends: String,
    pub source: String,
    pub makedepends: Vec<String>,
}

/// How many variables the printout holds, in the order version, name,
/// packager, release, description, rundepends, sources, makedepends.
pub open spec fn pkgfile_var_count() -> int {
    8
}

/// The variables read from the printout `out`: its first eight lines, the
/// last split into words; the error names the first missing line.
pub fn parse_pkgfile_vars(out: &str) -> (r: Result<PkgfileVars, RawError>)
    ensures
        match r {
            Ok(v) => {
                let ls = lines(out@);
                &&& ls.len() >= pkgfile_var_count()
                &&& v.version@ == ls[0]
                &&& v.name@ == ls[1]
                &&& v.packager@ == ls[2]
                &&& v.release@ == ls[3]
                &&& v.description@ == ls[4]
                &&& v.depends@ == ls[5]
                &&& v.source@ == ls[6]
                &&& string_views(v.makedepends@) == words(ls[7])
            },
            Err(e) => lines(out@).len() < pkgfile_var_count() && e == RawError::MissingPkgfileVariable(
                lines(out@).len() as usize,
            ),
        },
{
    let ls = lines_exec(&chars_of(out));
    if ls.len() < 8 {
        return Err(RawError::MissingPkgfileVariable(ls.len()));
    }
    let ghost vs = views(ls@);
    assert(vs[0] == ls@[0]@ && vs[1] == ls@[1]@ && vs[2] == ls@[2]@ && vs[3] == ls@[3]@);
    assert(vs[4] == ls@[4]@ && vs[5] == ls@[5]@ && vs[6] == ls@[6]@ && vs[7] == ls@[7]@);
    Ok(PkgfileVars {
        version: string_of(&ls[0]),
        name: string_of(&ls[1]),
        packager: string_of(&ls[2]),
        release: string_of(&ls[3]),
        description: string_of(&ls[4]),
        depends: string_of(&ls[5]),
        source: string_of(&ls[6]),
        makedepends: strings_of(&words_exec(&ls[7])),
    })
}

/// The sources of a build are kept unless a line starts with `RAW_KEEP_SOURCES=false`.
pub open spec fn keeps_sources(pkgfile: Seq<char>) -> bool {
    !any_line_starting(pkgfile, "RAW_KEEP_SOURCES=false"@)
}

/// Whether the downloaded sources of a build are kept.
pub fn keeps_sources_of(pkgfile: &str) -> (r: bool)
    ensures
        r == keeps_sources(pkgfile@),
{
    !any_line_starting_exec(&chars_of(pkgfile), &chars_of("RAW_KEEP_SOURCES=false"))
}

/// The `Pkgfile` defines `prepare()`.
pub open spec fn has_prepare(p: Seq<char>) -> bool {
    contains(p, "prepare()"@)
}

/// The `Pkgfile` defines `package()`.
pub open spec fn has_package(p: Seq<char>) -> bool {
    contains(p, "package()"@)
}

/// The `Pkgfile` defines `build()`.
pub open spec fn has_build(p: Seq<char>) -> bool {
    contains(p, "build()"@)
}

/// The `Pkgfile` names a build style with `build=`.
pub open spec fn names_style(p: Seq<char>) -> bool {
    contains(p, "build="@)
}

/// A `Pkgfile` that mentions `build=` has a line that starts with it.
pub open spec fn style_line_present(p: Seq<char>) -> bool {
    !has_build(p) && names_style(p) ==> any_line_starting(p, "build="@)
}

/// The build style a `Pkgfile` without `build()` uses: what follows the `=`
/// of its first `build=` line, or `build-default` when it names none.
pub open spec fn build_style(p: Seq<char>) -> Option<Seq<char>> {
    if has_build(p) {
        None
    } else if names_style(p) {
        after(line_starting(p, "build="@).unwrap(), seq!['='])
    } else {
        Some("build-default"@)
    }
}

/// Whether a `Pkgfile` that mentions `build=` has a line starting with it.
pub fn style_line_present_of(pkgfile: &str) -> (r: bool)
    ensures
        r == style_line_present(pkgfile@),
{
    let p = chars_of(pkgfile);
    if !contains_exec(&p, &chars_of("build()")) && contains_exec(&p, &chars_of("build=")) {
        any_line_starting_exec(&p, &chars_of("build="))
    } else {
        true
    }
}

/// The build style file a `Pkgfile` without `build()` relies on: `/etc/raw.d/style`.
pub fn build_style_path(pkgfile: &str) -> (r: Option<String>)
    requires
        style_line_present(pkgfile@),
    ensures
        match r {
            Some(s) => build_style(pkgfile@) is Some && s@ == "/etc/raw.d/"@ + build_style(pkgfile@).unwrap(),
            None => build_style(pkgfile@) is None,
        },
{
    match style_of(&chars_of(pkgfile)) {
        Some(s) => Some(string_of(&concat(&chars_of("/etc/raw.d/"), &s))),
        None => None,
    }
}

fn style_of(p: &[char]) -> (r: Option<Vec<char>>)
    requires
        style_line_present(p@),
    ensures
        match r {
            Some(s) => build_style(p@) == Some(s@),
            None => build_style(p@) is None,
        },
{
    if contains_exec(p, &chars_of("build()")) {
        None
    } else if contains_exec(p, &chars_of("build=")) {
        proof { crate::text::lemma_any_line_starting(p@, "build="@); }
        let l = line_starting_exec(p, &chars_of("build=")).unwrap();
        after_exec(&l, &single('='))
    } else {
        Some(chars_of("build-default"))
    }
}

/// A `Pkgfile` without `build()` always yields a build style.
pub proof fn lemma_style_found(p: Seq<char>)
    requires
        !has_build(p),
        style_line_present(p),
    ensures
        build_style(p) is Some,
{
    if names_style(p) {
        let key = "build="@;
        crate::text::lemma_any_line_starting(p, key);
        let ls = lines(p);
        crate::text::lemma_find_line_starting(ls, key, 0);
        let l = line_starting(p, key).unwrap();
        assert(starts_with(l, key));
        crate::text::lemma_contains_at(l, key, 0);
        reveal_strlit("build=");
        crate::text::lemma_contains_char_of(l, key, 5);
        assert(key[5] == '=');
        crate::text::lemma_find_from(l, seq!['='], 0);
    }
}

/// The start of every build command.
pub open spec fn build_prefix() -> Seq<char> {
    "fakeroot bash -eo pipefail -c 'source Pkgfile && PKG=$(pwd)/pkg && SRC=$(pwd)/work && cd work && "@
}

/// The steps of a build: `prepare` if defined, then `build` or the style
/// file sourced, then `package` if defined.
pub open spec fn build_steps(p: Seq<char>, core: Seq<char>) -> Seq<Seq<char>> {
    (if has_prepare(p) { seq!["prepare"@] } else { seq![] }) + seq![core] + (if has_package(p) {
        seq!["package"@]
    } else {
        seq![]
    })
}

/// The command that builds a package: the steps joined by `&& cd $SRC &&`
/// inside the `fakeroot bash` call.
pub open spec fn build_command_text(p: Seq<char>, core: Seq<char>) -> Seq<char> {
    build_prefix() + join(build_steps(p, core), " && cd $SRC && "@) + seq!['\'']
}

/// The command that builds the package of `Pkgfile` text `p`, given
/// whether its build style file exists: `build` when it defines
/// `build()`, else `source /etc/raw.d/style`; `None` (the build is refused)
/// when that file is missing.
pub open spec fn build_command(p: Seq<char>, style_available: bool) -> Option<Seq<char>> {
    if has_build(p) {
        Some(build_command_text(p, "build"@))
    } else if !style_available {
        None
    } else {
        Some(build_command_text(p, "source /etc/raw.d/"@ + build_style(p).unwrap()))
    }
}

/// The error a refused build of `Pkgfile` text `p` reports: the `build=`
/// line whose style is missing, or, when it names no style, which of
/// `prepare()` and `package()` it defines.
pub open spec fn build_refusal(p: Seq<char>, e: RawError) -> bool {
    match e {
        RawError::NoBuildStyle(line) => names_style(p) && line_starting(p, "build="@) == Some(line@),
        RawError::NoDefaultBuildStyle => !names_style(p) && has_prepare(p),
        RawError::NoDefaultBuildStyleSet => !names_style(p) && !has_prepare(p) && has_package(p),
        RawError::NoDefaultBuildStyleAvailable => !names_style(p) && !has_prepare(p) && !has_package(p),
        _ => false,
    }
}

/// The command that builds a package, or the error of a refused build.
pub fn build_command_of(pkgfile: &str, style_available: bool) -> (r: Result<String, RawError>)
    requires
        style_line_present(pkgfile@),
    ensures
        match r {
            Ok(c) => build_command(pkgfile@, style_available) == Some(c@),
            Err(e) => build_command(pkgfile@, style_available) is None && build_refusal(pkgfile@, e),
        },
{
    let p = chars_of(pkgfile);
    let core = if contains_exec(&p, &chars_of("build()")) {
        chars_of("build")
    } else if !style_available {
        if contains_exec(&p, &chars_of("build=")) {
            proof { crate::text::lemma_any_line_starting(p@, "build="@); }
            let line = line_starting_exec(&p, &chars_of("build=")).unwrap();
            return Err(RawError::NoBuildStyle(string_of(&line)));
        } else if contains_exec(&p, &chars_of("prepare()")) {
            return Err(RawError::NoDefaultBuildStyle);
        } else if contains_exec(&p, &chars_of("package()")) {
            return Err(RawError::NoDefaultBuildStyleSet);
        } else {
            return Err(RawError::NoDefaultBuildStyleAvailable);
        }
    } else {
        let style = style_of(&p);
        proof {
            lemma_style_found(p@);
        }
        concat(&chars_of("source /etc/raw.d/"), &style.unwrap())
    };
    let mut steps: Vec<Vec<char>> = Vec::new();
    if contains_exec(&p, &chars_of("prepare()")) {
        steps.push(chars_of("prepare"));
    }
    steps.push(core);
    if contains_exec(&p, &chars_of("package()")) {
        steps.push(chars_of("package"));
    }
    assert(views(steps@) =~= build_steps(p@, core@));
    let body = join_exec(&steps, &chars_of(" && cd $SRC && "));
    let cmd = concat(&concat(&chars_of("fakeroot bash -eo pipefail -c 'source Pkgfile && PKG=$(pwd)/pkg && SRC=$(pwd)/work && cd work && "), &body), &single('\''));
    Ok(string_of(&cmd))
}

/// The build command with its output also appended to the build log in `home`.
pub open spec fn logged_command(cmd: Seq<char>, home: Seq<char>) -> Seq<char> {
    cmd + " 2>&1 | tee -a "@ + home + "/.local/share/raw/raw.log"@
}

/// The build command with its output also appended to the build log in `home`.
pub fn logged_command_of(cmd: &str, home: &str) -> (r: String)
    ensures
        r@ == logged_command(cmd@, home@),
{
    let a = concat(&chars_of(cmd), &chars_of(" 2>&1 | tee -a "));
    let b = concat(&a, &chars_of(home));
    string_of(&concat(&b, &chars_of("/.local/share/raw/raw.log")))
}

/// The footprint line of a file found at `path` under the package
/// directory `pkg_dir`: the text after `pkg_dir` and the `/` that follows,
/// with ` -> target` for a symlink; `None` for the directory itself.
pub open spec fn footprint_entry(path: Seq<char>, pkg_dir: Seq<char>, link: Option<Seq<char>>) -> Result<Option<Seq<char>>, RawError> {
    match after(path, pkg_dir) {
        None => Err(RawError::OutsidePackageDir),
        Some(rel) => if rel.len() == 0 {
            Ok(None)
        } else {
            match after(rel, seq!['/']) {
                None => Err(RawError::OutsidePackageDir),
                Some(entry) => match link {
                    Some(target) => Ok(Some(entry + " -> "@ + target)),
                    None => Ok(Some(entry)),
                },
            }
        },
    }
}

/// The footprint line of a file found at `path` under `pkg_dir`.
pub fn footprint_entry_of(path: &str, pkg_dir: &str, link: Option<&str>) -> (r: Result<Option<String>, RawError>)
    ensures
        match r {
            Ok(Some(l)) => footprint_entry(path@, pkg_dir@, opt_view(link)) == Ok::<Option<Seq<char>>, RawError>(Some(l@)),
            Ok(None) => footprint_entry(path@, pkg_dir@, opt_view(link)) == Ok::<Option<Seq<char>>, RawError>(None),
            Err(e) => footprint_entry(path@, pkg_dir@, opt_view(link)) == Err::<Option<Seq<char>>, RawError>(e),
        },
{
    let rel = match after_exec(&chars_of(path), &chars_of(pkg_dir)) {
        None => return Err(RawError::OutsidePackageDir),
        Some(r) => r,
    };
    if rel.len() == 0 {
        return Ok(None);
    }
    let entry = match after_exec(&rel, &single('/')) {
        None => return Err(RawError::OutsidePackageDir),
        Some(e) => e,
    };
    match link {
        Some(target) => {
            let t = concat(&concat(&entry, &chars_of(" -> ")), &chars_of(target));
            Ok(Some(string_of(&t)))
        },
        None => Ok(Some(string_of(&entry))),
    }
}

/// An optional text as a plain value.
pub open spec fn opt_view(o: Option<&str>) -> Option<Seq<char>> {
    match o {
        Some(s) => Some(s@),
        None => None,
    }
}

/// The lines of `a` that are not lines of `b`, in order.
pub open spec fn lines_not_in(a: Seq<Seq<char>>, b: Seq<Seq<char>>) -> Seq<Seq<char>>
    decreases a.len(),
{
    if a.len() == 0 {
        seq![]
    } else {
        lines_not_in(a.drop_last(), b) + (if b.contains(a.last()) {
            seq![]
        } else {
            seq![a.last()]
        })
    }
}

fn lines_not_in_of(a: &Vec<Vec<char>>, b: &Vec<Vec<char>>) -> (r: Vec<Vec<char>>)
    ensures
        views(r@) == lines_not_in(views(a@), views(b@)),
{
    let mut out: Vec<Vec<char>> = Vec::new();
    let mut i: usize = 0;
    while i < a.len()
        invariant
            i <= a@.len(),
            views(out@) == lines_not_in(views(a@).take(i as int), views(b@)),
        decreases a.len() - i,
    {
        let ghost ps = views(a@);
        assert(ps.take(i + 1).drop_last() =~= ps.take(i as int));
        assert(ps.take(i + 1).last() == a@[i as int]@);
        if !list_contains(b, &a[i]) {
            let l = crate::text::slice_vec(&a[i], 0, a[i].len());
            assert(l@ =~= a@[i as int]@);
            let ghost old_o = out@;
            out.push(l);
            proof { lemma_views_push(old_o, l); }
        }
        i = i + 1;
    }
    assert(views(a@).take(a@.len() as int) =~= views(a@));
    out
}

/// How a footprint changed between two builds: the lines it lost and the
/// lines it gained, each in its footprint's order.
pub fn footprint_changes(existing: &str, fresh: &str) -> (r: (Vec<String>, Vec<String>))
    ensures
        string_views(r.0@) == lines_not_in(lines(existing@), lines(fresh@)),
        string_views(r.1@) == lines_not_in(lines(fresh@), lines(existing@)),
{
    let old_ls = lines_exec(&chars_of(existing));
    let new_ls = lines_exec(&chars_of(fresh));
    let missing = lines_not_in_of(&old_ls, &new_ls);
    let added = lines_not_in_of(&new_ls, &old_ls);
    (strings_of(&missing), strings_of(&added))
}

/// A line is among the lines not in `b` exactly when it is a line of `a`
/// and not of `b`.
pub proof fn lines_not_in_exact(a: Seq<Seq<char>>, b: Seq<Seq<char>>, x: Seq<char>)
    ensures
        lines_not_in(a, b).contains(x) <==> (a.contains(x) && !b.contains(x)),
    decreases a.len(),
{
    if a.len() > 0 {
        let init = a.drop_last();
        lines_not_in_exact(init, b, x);
        assert(a =~= init.push(a.last()));
        let prev = lines_not_in(init, b);
        let tail = if b.contains(a.last()) { seq![] } else { seq![a.last()] };
        let r = lines_not_in(a, b);
        assert(r =~= prev + tail);
        if r.contains(x) {
            let k = choose|k: int| 0 <= k < r.len() && r[k] == x;
            if k < prev.len() {
                assert(prev[k] == x);
            } else {
                assert(tail[k - prev.len()] == x);
            }
        }
        if a.contains(x) && !b.contains(x) {
            let k = choose|k: int| 0 <= k < a.len() && a[k] == x;
            if k < init.len() {
                assert(init[k] == x);
                let j = choose|j: int| 0 <= j < prev.len() && prev[j] == x;
                assert(r[j] == x);
            } else {
                assert(r[r.len() - 1] == x);
            }
        }
    }
}

/// An unchanged footprint reports neither lost nor gained lines.
pub proof fn unchanged_footprint_has_no_changes(a: Seq<Seq<char>>)
    ensures
        lines_not_in(a, a) == Seq::<Seq<char>>::empty(),
    decreases a.len(),
{
    if a.len() > 0 {
        let init = a.drop_last();
        assert(a.contains(a.last())) by {
            assert(a[a.len() - 1] == a.last());
        }
        lemma_lines_not_in_superset(init, a);
    }
}

proof fn lemma_lines_not_in_superset(a: Seq<Seq<char>>, b: Seq<Seq<char>>)
    requires
        forall|k: int| 0 <= k < a.len() ==> b.contains(#[trigger] a[k]),
    ensures
        lines_not_in(a, b) == Seq::<Seq<char>>::empty(),
    decreases a.len(),
{
    if a.len() > 0 {
        let init = a.drop_last();
        assert forall|k: int| 0 <= k < init.len() implies b.contains(#[trigger] init[k]) by {
            assert(init[k] == a[k]);
        }
        lemma_lines_not_in_superset(init, b);
        assert(b.contains(a[a.len() - 1]));
    }
}

/// A source fetched from the network: it contains `http`.
pub open spec fn is_remote_source(src: Seq<char>) -> bool {
    contains(src, "http"@)
}

/// A source that is a compressed patch, copied as it is: it contains `.patch.gz`.
pub open spec fn is_patch(src: Seq<char>) -> bool {
    contains(src, ".patch.gz"@)
}

/// Whether a source is fetched from the network.
pub fn is_remote_source_of(src: &str) -> (r: bool)
    ensures
        r == is_remote_source(src@),
{
    contains_exec(&chars_of(src), &chars_of("http"))
}

/// Whether a source is a compressed patch.
pub fn is_patch_of(src: &str) -> (r: bool)
    ensures
        r == is_patch(src@),
{
    contains_exec(&chars_of(src), &chars_of(".patch.gz"))
}

/// The sources of a build: the words of the `source` variable.
pub fn source_list(source: &str) -> (r: Vec<String>)
    ensures
        string_views(r@) == words(source@),
{
    strings_of(&words_exec(&chars_of(source)))
}

/// A built makedepend can be installed as it is: its archive's version
/// equals the `version=` of its `Pkgfile`, or its release the `release=`.
pub open spec fn prebuilt_usable(archive: Seq<char>, pkgfile: Seq<char>) -> Result<bool, RawError> {
    match archive_version_release(archive) {
        None => Err(RawError::MalformedArchiveName),
        Some(vr) => match keyed_value(pkgfile, "version="@) {
            None => Err(RawError::PkgfileVersionMissing),
            Some(v) => match keyed_value(pkgfile, "release="@) {
                None => Err(RawError::PkgfileReleaseMissing),
                Some(r) => Ok(vr.0 == v || vr.1 == r),
            },
        },
    }
}

/// Whether a built makedepend can be installed as it is.
pub fn prebuilt_usable_of(archive: &str, pkgfile: &str) -> (r: Result<bool, RawError>)
    ensures
        match r {
            Ok(b) => prebuilt_usable(archive@, pkgfile@) == Ok::<bool, RawError>(b),
            Err(e) => prebuilt_usable(archive@, pkgfile@) == Err::<bool, RawError>(e),
        },
{
    let vr = match archive_version_release_of(archive) {
        None => return Err(RawError::MalformedArchiveName),
        Some(vr) => vr,
    };
    let p = chars_of(pkgfile);
    let v = match keyed_value_exec(&p, &chars_of("version=")) {
        None => return Err(RawError::PkgfileVersionMissing),
        Some(v) => v,
    };
    let r = match keyed_value_exec(&p, &chars_of("release=")) {
        None => return Err(RawError::PkgfileReleaseMissing),
        Some(r) => r,
    };
    Ok(same_text(&chars_of(vr.0.as_str()), &v) || same_text(&chars_of(vr.1.as_str()), &r))
}

} // verus!
