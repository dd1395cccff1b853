//! Questions about the database of installed packages (`/var/lib/pkg/DB`).
//!
//! Each installed package has a directory there holding its `META` record
//! and `files`, its footprint: one installed path per line.
use vstd::prelude::*;

use crate::meta::{
    meta_dependencies, meta_dependencies_of, required_in_lines, required_in_meta, required_in_meta_of,
};
use crate::text::{
    char_vecs_of, chars_of, concat, contains, contains_exec, first_word, first_word_exec,
    lemma_contains_concat, lemma_singleton_contains, lemma_views_push, lines, lines_exec,
    list_contains, same_text, single, starts_with, starts_with_exec, string_of, string_views,
    strings_of, strip_leading, views, words,
};

verus! {

/// Every package named by the `R` lines of `metas`, in order.
pub open spec fn required_by_all(metas: Seq<Seq<char>>) -> Seq<Seq<char>>
    decreases metas.len(),
{
    if metas.len() == 0 {
        seq![]
    } else {
        required_by_all(metas.drop_last()) + required_in_meta(metas.last())
    }
}

/// The packages of `pkgs` that no package requires, in order.
pub open spec fn not_required(pkgs: Seq<Seq<char>>, required: Seq<Seq<char>>) -> Seq<Seq<char>>
    decreases pkgs.len(),
{
    if pkgs.len() == 0 {
        seq![]
    } else {
        not_required(pkgs.drop_last(), required) + (if required.contains(pkgs.last()) {
            seq![]
        } else {
            seq![pkgs.last()]
        })
    }
}

/// The orphans among installed packages `pkgs` whose `META` texts are `metas`.
pub open spec fn orphans(pkgs: Seq<Seq<char>>, metas: Seq<Seq<char>>) -> Seq<Seq<char>> {
    not_required(pkgs, required_by_all(metas))
}

/// The orphans among the installed packages `pkgs`, whose `META` texts
/// are `metas`: the packages that no `R` line names, in order.
pub fn find_orphans(pkgs: &[String], metas: &[String]) -> (r: Vec<String>)
    ensures
        string_views(r@) == orphans(string_views(pkgs@), string_views(metas@)),
{
    let mut required: Vec<Vec<char>> = Vec::new();
    let mut i: usize = 0;
    while i < metas.len()
        invariant
            i <= metas@.len(),
            views(required@) == required_by_all(string_views(metas@).take(i as int)),
        decreases metas.len() - i,
    {
        let ghost ms = string_views(metas@);
        assert(ms.take(i + 1).drop_last() =~= ms.take(i as int));
        assert(ms.take(i + 1).last() == metas@[i as int]@);
        let more = required_in_meta_of(metas[i].as_str());
        let mut k: usize = 0;
        let ghost before = views(required@);
        while k < more.len()
            invariant
                k <= more@.len(),
                views(required@) == before + views(more@).take(k as int),
            decreases more.len() - k,
        {
            let w = crate::text::slice_vec(&more[k], 0, more[k].len());
            assert(w@ =~= more@[k as int]@);
            let ghost old_r = required@;
            required.push(w);
            proof { lemma_views_push(old_r, w); }
            assert(views(required@) =~= before + views(more@).take(k + 1));
            k = k + 1;
        }
        assert(views(more@).take(more@.len() as int) =~= views(more@));
        i = i + 1;
    }
    assert(string_views(metas@).take(metas@.len() as int) =~= string_views(metas@));
    let mut out: Vec<Vec<char>> = Vec::new();
    let mut j: usize = 0;
    while j < pkgs.len()
        invariant
            j <= pkgs@.len(),
            views(required@) == required_by_all(string_views(metas@)),
            views(out@) == not_required(string_views(pkgs@).take(j as int), views(required@)),
        decreases pkgs.len() - j,
    {
        let ghost ps = string_views(pkgs@);
        assert(ps.take(j + 1).drop_last() =~= ps.take(j as int));
        assert(ps.take(j + 1).last() == pkgs@[j as int]@);
        let p = chars_of(pkgs[j].as_str());
        if !list_contains(&required, &p) {
            let ghost old_o = out@;
            out.push(p);
            proof { lemma_views_push(old_o, p); }
        }
        j = j + 1;
    }
    assert(string_views(pkgs@).take(pkgs@.len() as int) =~= string_views(pkgs@));
    strings_of(&out)
}

/// The orphans are exactly the installed packages that no `R` line names.
pub proof fn orphans_are_unrequired(pkgs: Seq<Seq<char>>, metas: Seq<Seq<char>>, x: Seq<char>)
    ensures
        orphans(pkgs, metas).contains(x) <==> (pkgs.contains(x) && !required_by_all(metas).contains(x)),
{
    lemma_not_required(pkgs, required_by_all(metas), x);
}

proof fn lemma_not_required(pkgs: Seq<Seq<char>>, required: Seq<Seq<char>>, x: Seq<char>)
    ensures
        not_required(pkgs, required).contains(x) <==> (pkgs.contains(x) && !required.contains(x)),
    decreases pkgs.len(),
{
    if pkgs.len() > 0 {
        let init = pkgs.drop_last();
        lemma_not_required(init, required, x);
        assert(pkgs =~= init.push(pkgs.last()));
        let tail = if required.contains(pkgs.last()) { seq![] } else { seq![pkgs.last()] };
        let r = not_required(pkgs, required);
        assert(r =~= not_required(init, required) + tail);
        if r.contains(x) {
            let k = choose|k: int| 0 <= k < r.len() && r[k] == x;
            if k < not_required(init, required).len() {
                assert(not_required(init, required)[k] == x);
            } else {
                assert(tail[k - not_required(init, required).len()] == x);
            }
        }
        if pkgs.contains(x) && !required.contains(x) {
            let k = choose|k: int| 0 <= k < pkgs.len() && pkgs[k] == x;
            if k < init.len() {
                assert(init[k] == x);
                let j = choose|j: int| 0 <= j < not_required(init, required).len() && not_required(init, required)[j] == x;
                assert(r[j] == x);
            } else {
                assert(r[r.len() - 1] == x);
            }
        }
    }
}

/// Some line of `ls`, read as a system path (a `/` put in front), contains `path`.
pub open spec fn lists_path(ls: Seq<Seq<char>>, path: Seq<char>) -> bool
    decreases ls.len(),
{
    ls.len() > 0 && (lists_path(ls.drop_last(), path) || contains(seq!['/'] + ls.last(), path))
}

/// The footprint `files` lists a system path containing `path`: some line
/// `l` has `/l` containing it (so `/usr/bin/htop` is found on the line
/// `usr/bin/htop`).
pub open spec fn owns_path(files: Seq<char>, path: Seq<char>) -> bool {
    lists_path(lines(files), path)
}

fn owns_path_of(files: &str, path: &[char]) -> (r: bool)
    ensures
        r == owns_path(files@, path@),
{
    let ls = lines_exec(&chars_of(files));
    let mut i: usize = 0;
    while i < ls.len()
        invariant
            i <= ls@.len(),
            views(ls@) == lines(files@),
            !lists_path(views(ls@).take(i as int), path@),
        decreases ls.len() - i,
    {
        let ghost ps = views(ls@);
        assert(ps.take(i + 1).drop_last() =~= ps.take(i as int));
        assert(ps.take(i + 1).last() == ls@[i as int]@);
        let rooted = concat(&single('/'), &ls[i]);
        if contains_exec(&rooted, path) {
            proof {
                lemma_lists_path_prefix(ps, path@, (i + 1) as int);
            }
            return true;
        }
        i = i + 1;
    }
    assert(views(ls@).take(ls@.len() as int) =~= views(ls@));
    false
}

proof fn lemma_lists_path_prefix(ls: Seq<Seq<char>>, path: Seq<char>, n: int)
    requires
        0 <= n <= ls.len(),
        lists_path(ls.take(n), path),
    ensures
        lists_path(ls, path),
    decreases ls.len() - n,
{
    if n < ls.len() {
        assert(ls.take(n + 1).drop_last() =~= ls.take(n));
        lemma_lists_path_prefix(ls, path, n + 1);
    } else {
        assert(ls.take(n) =~= ls);
    }
}

/// The packages (`names`, in order, each once) whose footprints (`files`)
/// list a system path containing `path`.
pub open spec fn owners(path: Seq<char>, names: Seq<Seq<char>>, files: Seq<Seq<char>>) -> Seq<Seq<char>>
    decreases names.len(),
{
    if names.len() == 0 {
        seq![]
    } else {
        let prev = owners(path, names.drop_last(), files);
        let k = names.len() - 1;
        if k < files.len() && owns_path(files[k], path) && !prev.contains(names[k]) {
            prev.push(names[k])
        } else {
            prev
        }
    }
}

/// The installed packages that own `path`: those whose footprint lists a
/// system path containing it, in the order given, each once.
pub fn owners_of(path: &str, names: &[String], files: &[String]) -> (r: Vec<String>)
    requires
        names@.len() == files@.len(),
    ensures
        string_views(r@) == owners(path@, string_views(names@), string_views(files@)),
{
    let p = chars_of(path);
    let mut out: Vec<Vec<char>> = Vec::new();
    let mut i: usize = 0;
    while i < names.len()
        invariant
            i <= names@.len(),
            names@.len() == files@.len(),
            p@ == path@,
            views(out@) == owners(path@, string_views(names@).take(i as int), string_views(files@)),
        decreases names.len() - i,
    {
        let ghost ns = string_views(names@);
        assert(ns.take(i + 1).drop_last() =~= ns.take(i as int));
        assert(ns.take(i + 1)[i as int] == names@[i as int]@);
        assert(string_views(files@)[i as int] == files@[i as int]@);
        let n = chars_of(names[i].as_str());
        if owns_path_of(files[i].as_str(), &p) && !list_contains(&out, &n) {
            let ghost old_o = out@;
            out.push(n);
            proof { lemma_views_push(old_o, n); }
        }
        i = i + 1;
    }
    assert(string_views(names@).take(names@.len() as int) =~= string_views(names@));
    strings_of(&out)
}

/// No package is reported twice as an owner.
pub proof fn owners_are_distinct(path: Seq<char>, names: Seq<Seq<char>>, files: Seq<Seq<char>>)
    ensures
        owners(path, names, files).no_duplicates(),
    decreases names.len(),
{
    if names.len() > 0 {
        owners_are_distinct(path, names.drop_last(), files);
    }
}

/// The lines of a footprint that hold `.so` (libraries) and, unless `all`,
/// not `security`, in order.
pub open spec fn library_lines(ls: Seq<Seq<char>>, all: bool) -> Seq<Seq<char>>
    decreases ls.len(),
{
    if ls.len() == 0 {
        seq![]
    } else {
        let l = ls.last();
        library_lines(ls.drop_last(), all) + (if contains(l, ".so"@) && (all || !contains(l, "security"@)) {
            seq![l]
        } else {
            seq![]
        })
    }
}

/// The libraries a footprint lists: its lines holding `.so`, without those
/// holding `security` unless `all`.
pub fn libraries_of(files: &str, all: bool) -> (r: Vec<String>)
    ensures
        string_views(r@) == library_lines(lines(files@), all),
{
    let ls = lines_exec(&chars_of(files));
    let so = chars_of(".so");
    let security = chars_of("security");
    let mut out: Vec<Vec<char>> = Vec::new();
    let mut i: usize = 0;
    while i < ls.len()
        invariant
            i <= ls@.len(),
            views(ls@) == lines(files@),
            so@ == ".so"@,
            security@ == "security"@,
            views(out@) == library_lines(views(ls@).take(i as int), all),
        decreases ls.len() - i,
    {
        let ghost ps = views(ls@);
        assert(ps.take(i + 1).drop_last() =~= ps.take(i as int));
        assert(ps.take(i + 1).last() == ls@[i as int]@);
        if contains_exec(&ls[i], &so) && (all || !contains_exec(&ls[i], &security)) {
            let l = crate::text::slice_vec(&ls[i], 0, ls[i].len());
            assert(l@ =~= ls@[i as int]@);
            let ghost old_o = out@;
            out.push(l);
            proof { lemma_views_push(old_o, l); }
        }
        i = i + 1;
    }
    assert(views(ls@).take(ls@.len() as int) =~= views(ls@));
    strings_of(&out)
}

/// The paths removal never touches.
pub open spec fn is_protected(path: Seq<char>) -> bool {
    ||| path == "bin"@
    ||| path == "lib"@
    ||| path == "lib64"@
    ||| path == "sbin"@
    ||| path == "usr/share/info/dir"@
    ||| starts_with(path, "etc"@)
}

/// Every line of `text` holds a word.
pub open spec fn every_line_has_word(text: Seq<char>) -> bool {
    forall|k: int| 0 <= k < lines(text).len() ==> first_word(#[trigger] lines(text)[k]) is Some
}

/// The system paths removing a package deletes: `/` and the first word of
/// each footprint line, for the words that are not protected.
pub open spec fn removable_in(ls: Seq<Seq<char>>) -> Seq<Seq<char>>
    decreases ls.len(),
{
    if ls.len() == 0 {
        seq![]
    } else {
        let w = first_word(ls.last()).unwrap();
        removable_in(ls.drop_last()) + (if is_protected(w) {
            seq![]
        } else {
            seq![seq!['/'] + w]
        })
    }
}

fn is_protected_of(w: &[char]) -> (r: bool)
    ensures
        r == is_protected(w@),
{
    crate::text::same_text(w, &chars_of("bin")) || crate::text::same_text(w, &chars_of("lib"))
        || crate::text::same_text(w, &chars_of("lib64")) || crate::text::same_text(w, &chars_of("sbin"))
        || crate::text::same_text(w, &chars_of("usr/share/info/dir"))
        || starts_with_exec(w, &chars_of("etc"))
}

/// Whether removal leaves `path` (a footprint entry) alone.
pub fn is_protected_path(path: &str) -> (r: bool)
    ensures
        r == is_protected(path@),
{
    is_protected_of(&chars_of(path))
}

/// The system paths removing a package deletes, given its footprint.
pub fn removable_paths(files: &str) -> (r: Vec<String>)
    requires
        every_line_has_word(files@),
    ensures
        string_views(r@) == removable_in(lines(files@)),
{
    let ls = lines_exec(&chars_of(files));
    let mut out: Vec<Vec<char>> = Vec::new();
    let mut i: usize = 0;
    while i < ls.len()
        invariant
            i <= ls@.len(),
            views(ls@) == lines(files@),
            every_line_has_word(files@),
            views(out@) == removable_in(views(ls@).take(i as int)),
        decreases ls.len() - i,
    {
        let ghost ps = views(ls@);
        assert(ps.take(i + 1).drop_last() =~= ps.take(i as int));
        assert(ps.take(i + 1).last() == ls@[i as int]@);
        assert(ps[i as int] == lines(files@)[i as int]);
        let w = first_word_exec(&ls[i]).unwrap();
        if !is_protected_of(&w) {
            let p = concat(&single('/'), &w);
            let ghost old_o = out@;
            out.push(p);
            proof { lemma_views_push(old_o, p); }
        }
        i = i + 1;
    }
    assert(views(ls@).take(ls@.len() as int) =~= views(ls@));
    strings_of(&out)
}

/// Whether every line of a footprint holds a word (so that it can be removed).
pub fn every_line_has_word_of(files: &str) -> (r: bool)
    ensures
        r == every_line_has_word(files@),
{
    let ls = lines_exec(&chars_of(files));
    let mut i: usize = 0;
    while i < ls.len()
        invariant
            i <= ls@.len(),
            views(ls@) == lines(files@),
            forall|k: int| 0 <= k < i ==> first_word(#[trigger] lines(files@)[k]) is Some,
        decreases ls.len() - i,
    {
        assert(views(ls@)[i as int] == ls@[i as int]@);
        if first_word_exec(&ls[i]).is_none() {
            return false;
        }
        i = i + 1;
    }
    true
}

/// Removal never deletes a protected path: each path it deletes is `/`
/// followed by an unprotected footprint word.
pub proof fn removal_spares_protected(ls: Seq<Seq<char>>, k: int)
    requires
        0 <= k < removable_in(ls).len(),
    ensures
        removable_in(ls)[k].len() > 0,
        removable_in(ls)[k][0] == '/',
        !is_protected(removable_in(ls)[k].drop_first()),
    decreases ls.len(),
{
    let prev = removable_in(ls.drop_last());
    if k < prev.len() {
        removal_spares_protected(ls.drop_last(), k);
    } else {
        let w = first_word(ls.last()).unwrap();
        assert((seq!['/'] + w).drop_first() =~= w);
    }
}

/// A footprint that installs desktop entries: it contains `.desktop`.
pub open spec fn has_desktop_files(files: Seq<char>) -> bool {
    contains(files, ".desktop"@)
}

/// Whether a footprint installs desktop entries.
pub fn has_desktop_files_of(files: &str) -> (r: bool)
    ensures
        r == has_desktop_files(files@),
{
    contains_exec(&chars_of(files), &chars_of(".desktop"))
}

/// Package `dir`, whose `META` text is `meta`, keeps `pkg` from being
/// removed: it is another package and `pkg` is among the words after the
/// `R` tag of its `R` line (its run-time dependencies).
pub open spec fn blocks_removal(pkg: Seq<char>, dir: Seq<char>, meta: Seq<char>) -> bool {
    dir != pkg && match meta_dependencies(meta) {
        Some(deps) => deps.contains(pkg),
        None => false,
    }
}

/// Whether package `dir`, with `META` text `meta`, keeps `pkg` from being removed.
pub fn blocks_removal_of(pkg: &str, dir: &str, meta: &str) -> (r: bool)
    ensures
        r == blocks_removal(pkg@, dir@, meta@),
{
    let p = chars_of(pkg);
    if same_text(&chars_of(dir), &p) {
        return false;
    }
    match meta_dependencies_of(meta) {
        Some(deps) => list_contains(&char_vecs_of(deps.as_slice()), &p),
        None => false,
    }
}

/// `meta` names `x` as a dependency: one of its lines starts with `R` and,
/// its leading `R`s removed, has `x` among its words.
pub open spec fn names_dependency(meta: Seq<char>, x: Seq<char>) -> bool {
    exists|j: int|
        0 <= j < lines(meta).len() && starts_with(#[trigger] lines(meta)[j], seq!['R']) && words(
            strip_leading(lines(meta)[j], 'R'),
        ).contains(x)
}

/// A package is an orphan exactly when it is installed and no `R` line of
/// any installed package's `META` names it.
pub proof fn orphans_exact(pkgs: Seq<Seq<char>>, metas: Seq<Seq<char>>, x: Seq<char>)
    ensures
        orphans(pkgs, metas).contains(x) <==> (pkgs.contains(x) && !exists|k: int|
            0 <= k < metas.len() && names_dependency(#[trigger] metas[k], x)),
{
    orphans_are_unrequired(pkgs, metas, x);
    lemma_required_by_all(metas, x);
}

proof fn lemma_required_by_all(metas: Seq<Seq<char>>, x: Seq<char>)
    ensures
        required_by_all(metas).contains(x) <==> exists|k: int| 0 <= k < metas.len() && names_dependency(#[trigger] metas[k], x),
    decreases metas.len(),
{
    if metas.len() > 0 {
        let init = metas.drop_last();
        lemma_required_by_all(init, x);
        lemma_contains_concat(required_by_all(init), required_in_meta(metas.last()), x);
        lemma_required_in_lines(lines(metas.last()), x);
        if exists|k: int| 0 <= k < metas.len() && names_dependency(#[trigger] metas[k], x) {
            let k = choose|k: int| 0 <= k < metas.len() && names_dependency(#[trigger] metas[k], x);
            if k < init.len() {
                assert(init[k] == metas[k]);
            } else {
                assert(metas[k] == metas.last());
            }
        }
        if exists|k: int| 0 <= k < init.len() && names_dependency(#[trigger] init[k], x) {
            let k = choose|k: int| 0 <= k < init.len() && names_dependency(#[trigger] init[k], x);
            assert(init[k] == metas[k]);
        }
        if names_dependency(metas.last(), x) {
            assert(metas[metas.len() - 1] == metas.last());
        }
    }
}

proof fn lemma_required_in_lines(ls: Seq<Seq<char>>, x: Seq<char>)
    ensures
        required_in_lines(ls).contains(x) <==> exists|j: int|
            0 <= j < ls.len() && starts_with(#[trigger] ls[j], seq!['R']) && words(strip_leading(ls[j], 'R')).contains(x),
    decreases ls.len(),
{
    if ls.len() > 0 {
        let init = ls.drop_last();
        lemma_required_in_lines(init, x);
        let l = ls.last();
        let tail = if starts_with(l, seq!['R']) { words(strip_leading(l, 'R')) } else { seq![] };
        lemma_contains_concat(required_in_lines(init), tail, x);
        if exists|j: int| 0 <= j < ls.len() && starts_with(#[trigger] ls[j], seq!['R']) && words(strip_leading(ls[j], 'R')).contains(x) {
            let j = choose|j: int| 0 <= j < ls.len() && starts_with(#[trigger] ls[j], seq!['R']) && words(strip_leading(ls[j], 'R')).contains(x);
            if j < init.len() {
                assert(init[j] == ls[j]);
            } else {
                assert(ls[j] == l);
            }
        }
        if exists|j: int| 0 <= j < init.len() && starts_with(#[trigger] init[j], seq!['R']) && words(strip_leading(init[j], 'R')).contains(x) {
            let j = choose|j: int| 0 <= j < init.len() && starts_with(#[trigger] init[j], seq!['R']) && words(strip_leading(init[j], 'R')).contains(x);
            assert(init[j] == ls[j]);
        }
        if starts_with(l, seq!['R']) && words(strip_leading(l, 'R')).contains(x) {
            assert(ls[ls.len() - 1] == l);
        }
    }
}

/// Some line of the footprint `files`, read as a system path (a `/` put in
/// front), contains `path`.
pub open spec fn footprint_mentions(files: Seq<char>, path: Seq<char>) -> bool {
    exists|j: int| 0 <= j < lines(files).len() && contains(seq!['/'] + #[trigger] lines(files)[j], path)
}

/// A package is reported as an owner of `path` exactly when it is one of
/// `names` and some line (any line) of its footprint, read as a system
/// path, contains `path`.
pub proof fn owners_exact(path: Seq<char>, names: Seq<Seq<char>>, files: Seq<Seq<char>>, n: Seq<char>)
    ensures
        owners(path, names, files).contains(n) <==> exists|k: int|
            0 <= k < names.len() && k < files.len() && #[trigger] names[k] == n && footprint_mentions(files[k], path),
    decreases names.len(),
{
    if names.len() > 0 {
        let init = names.drop_last();
        let k = names.len() - 1;
        owners_exact(path, init, files, n);
        let prev = owners(path, init, files);
        if k < files.len() {
            lemma_lists_path_exists(lines(files[k]), path);
        }
        lemma_contains_concat(prev, seq![names[k]], n);
        lemma_singleton_contains(names[k], n);
        assert(prev.push(names[k]) =~= prev + seq![names[k]]);
        if exists|i: int| 0 <= i < names.len() && i < files.len() && #[trigger] names[i] == n && footprint_mentions(files[i], path) {
            let i = choose|i: int| 0 <= i < names.len() && i < files.len() && #[trigger] names[i] == n && footprint_mentions(files[i], path);
            if i < init.len() {
                assert(init[i] == names[i]);
            }
        }
        if exists|i: int| 0 <= i < init.len() && i < files.len() && #[trigger] init[i] == n && footprint_mentions(files[i], path) {
            let i = choose|i: int| 0 <= i < init.len() && i < files.len() && #[trigger] init[i] == n && footprint_mentions(files[i], path);
            assert(init[i] == names[i]);
        }
    }
}

proof fn lemma_lists_path_exists(ls: Seq<Seq<char>>, path: Seq<char>)
    ensures
        lists_path(ls, path) <==> exists|j: int| 0 <= j < ls.len() && contains(seq!['/'] + #[trigger] ls[j], path),
    decreases ls.len(),
{
    if ls.len() > 0 {
        let init = ls.drop_last();
        lemma_lists_path_exists(init, path);
        if exists|j: int| 0 <= j < ls.len() && contains(seq!['/'] + #[trigger] ls[j], path) {
            let j = choose|j: int| 0 <= j < ls.len() && contains(seq!['/'] + #[trigger] ls[j], path);
            if j < init.len() {
                assert(init[j] == ls[j]);
            } else {
                assert(ls[j] == ls.last());
            }
        }
        if exists|j: int| 0 <= j < init.len() && contains(seq!['/'] + #[trigger] init[j], path) {
            let j = choose|j: int| 0 <= j < init.len() && contains(seq!['/'] + #[trigger] init[j], path);
            assert(init[j] == ls[j]);
        }
        if contains(seq!['/'] + ls.last(), path) {
            assert(ls[ls.len() - 1] == ls.last());
        }
    }
}

/// A path is deleted on removal exactly when it is `/` followed by the
/// first word `w` of some footprint line, where `w` is none of `bin`,
/// `lib`, `lib64`, `sbin` and `usr/share/info/dir` and does not start
/// with `etc`.
pub proof fn removal_exact(ls: Seq<Seq<char>>, p: Seq<char>)
    requires
        forall|k: int| 0 <= k < ls.len() ==> first_word(#[trigger] ls[k]) is Some,
    ensures
        removable_in(ls).contains(p) <==> exists|k: int|
            0 <= k < ls.len() && {
                let w = first_word(#[trigger] ls[k]).unwrap();
                &&& p == seq!['/'] + w
                &&& w != "bin"@ && w != "lib"@ && w != "lib64"@ && w != "sbin"@
                &&& w != "usr/share/info/dir"@
                &&& !starts_with(w, "etc"@)
            },
    decreases ls.len(),
{
    if ls.len() > 0 {
        let init = ls.drop_last();
        assert forall|k: int| 0 <= k < init.len() implies first_word(#[trigger] init[k]) is Some by {
            assert(init[k] == ls[k]);
        }
        removal_exact(init, p);
        let w = first_word(ls.last()).unwrap();
        let q = seq!['/'] + w;
        let tail = if is_protected(w) { seq![] } else { seq![q] };
        lemma_contains_concat(removable_in(init), tail, p);
        lemma_singleton_contains(q, p);
        assert(ls[ls.len() - 1] == ls.last());
        if exists|k: int|
            0 <= k < ls.len() && {
                let w = first_word(#[trigger] ls[k]).unwrap();
                &&& p == seq!['/'] + w
                &&& w != "bin"@ && w != "lib"@ && w != "lib64"@ && w != "sbin"@
                &&& w != "usr/share/info/dir"@
                &&& !starts_with(w, "etc"@)
            } {
            let k = choose|k: int|
                0 <= k < ls.len() && {
                    let w = first_word(#[trigger] ls[k]).unwrap();
                    &&& p == seq!['/'] + w
                    &&& w != "bin"@ && w != "lib"@ && w != "lib64"@ && w != "sbin"@
                    &&& w != "usr/share/info/dir"@
                    &&& !starts_with(w, "etc"@)
                };
            if k < init.len() {
                assert(init[k] == ls[k]);
            }
        }
        if exists|k: int|
            0 <= k < init.len() && {
                let w = first_word(#[trigger] init[k]).unwrap();
                &&& p == seq!['/'] + w
                &&& w != "bin"@ && w != "lib"@ && w != "lib64"@ && w != "sbin"@
                &&& w != "usr/share/info/dir"@
                &&& !starts_with(w, "etc"@)
            } {
            let k = choose|k: int|
                0 <= k < init.len() && {
                    let w = first_word(#[trigger] init[k]).unwrap();
                    &&& p == seq!['/'] + w
                    &&& w != "bin"@ && w != "lib"@ && w != "lib64"@ && w != "sbin"@
                    &&& w != "usr/share/info/dir"@
                    &&& !starts_with(w, "etc"@)
                };
            assert(init[k] == ls[k]);
        }
    }
}

/// A footprint line is listed as a library exactly when it is a line of the
/// footprint holding `.so` and, unless `all`, not holding `security`.
pub proof fn library_lines_exact(ls: Seq<Seq<char>>, all: bool, l: Seq<char>)
    ensures
        library_lines(ls, all).contains(l) <==> (ls.contains(l) && contains(l, ".so"@) && (all || !contains(
            l,
            "security"@,
        ))),
    decreases ls.len(),
{
    if ls.len() > 0 {
        let init = ls.drop_last();
        library_lines_exact(init, all, l);
        let x = ls.last();
        let tail = if contains(x, ".so"@) && (all || !contains(x, "security"@)) { seq![x] } else { seq![] };
        lemma_contains_concat(library_lines(init, all), tail, l);
        lemma_singleton_contains(x, l);
        assert(ls =~= init + seq![x]);
        lemma_contains_concat(init, seq![x], l);
    }
}

} // verus!
