//! Detecting conflicts between a package about to be installed and the system.
//!
//! A footprint lists one path per line (relative to `/`), a symlink line
//! followed by ` -> target`; only the first word of a line is the path.
use vstd::prelude::*;

use crate::text::{
    chars_of, concat, first_word, first_word_exec, lemma_contains_concat, lemma_singleton_contains,
    lemma_views_push, lines, lines_exec,
    list_contains, same_text, single, starts_with, starts_with_exec, strings_of, string_views,
    views,
};

verus! {

/// The first word of a line, or the empty text when it has none.
pub open spec fn word_or_empty(l: Seq<char>) -> Seq<char> {
    match first_word(l) {
        Some(w) => w,
        None => seq![],
    }
}

/// The paths a footprint lists: the first word of each line that has one.
pub open spec fn footprint_paths(ls: Seq<Seq<char>>) -> Seq<Seq<char>>
    decreases ls.len(),
{
    if ls.len() == 0 {
        seq![]
    } else {
        footprint_paths(ls.drop_last()) + match first_word(ls.last()) {
            Some(w) => seq![w],
            None => seq![],
        }
    }
}

/// System paths that may be overwritten: `/usr/share/info/dir` and
/// everything under `/etc`.
pub open spec fn is_conflict_exempt(system_path: Seq<char>) -> bool {
    system_path == "/usr/share/info/dir"@ || starts_with(system_path, "/etc"@)
}

/// The entries of the installed footprint lines `ls` that the new package
/// also lists (`listed`), that are not empty and whose system path is not
/// exempt, in order.
pub open spec fn shared_candidates(ls: Seq<Seq<char>>, listed: Seq<Seq<char>>) -> Seq<Seq<char>>
    decreases ls.len(),
{
    if ls.len() == 0 {
        seq![]
    } else {
        let w = word_or_empty(ls.last());
        shared_candidates(ls.drop_last(), listed) + (if listed.contains(w) && w.len() > 0
            && !is_conflict_exempt(seq!['/'] + w) {
            seq![w]
        } else {
            seq![]
        })
    }
}

/// The system paths of the new footprint's lines (`/` and the first word,
/// empty when none) that are not exempt, in order.
pub open spec fn new_path_candidates(ls: Seq<Seq<char>>) -> Seq<Seq<char>>
    decreases ls.len(),
{
    if ls.len() == 0 {
        seq![]
    } else {
        let p = seq!['/'] + word_or_empty(ls.last());
        new_path_candidates(ls.drop_last()) + (if is_conflict_exempt(p) {
            seq![]
        } else {
            seq![p]
        })
    }
}

fn word_or_empty_of(l: &[char]) -> (r: Vec<char>)
    ensures
        r@ == word_or_empty(l@),
{
    match first_word_exec(l) {
        Some(w) => w,
        None => Vec::new(),
    }
}

fn is_conflict_exempt_of(p: &[char]) -> (r: bool)
    ensures
        r == is_conflict_exempt(p@),
{
    same_text(p, &chars_of("/usr/share/info/dir")) || starts_with_exec(p, &chars_of("/etc"))
}

/// Whether a system path may be overwritten.
pub fn is_conflict_exempt_path(system_path: &str) -> (r: bool)
    ensures
        r == is_conflict_exempt(system_path@),
{
    is_conflict_exempt_of(&chars_of(system_path))
}

fn footprint_paths_of(ls: &Vec<Vec<char>>) -> (r: Vec<Vec<char>>)
    ensures
        views(r@) == footprint_paths(views(ls@)),
{
    let mut out: Vec<Vec<char>> = Vec::new();
    let mut i: usize = 0;
    while i < ls.len()
        invariant
            i <= ls@.len(),
            views(out@) == footprint_paths(views(ls@).take(i as int)),
        decreases ls.len() - i,
    {
        let ghost ps = views(ls@);
        assert(ps.take(i + 1).drop_last() =~= ps.take(i as int));
        assert(ps.take(i + 1).last() == ls@[i as int]@);
        match first_word_exec(&ls[i]) {
            Some(w) => {
                let ghost old_o = out@;
                out.push(w);
                proof { lemma_views_push(old_o, w); }
            },
            None => {},
        }
        i = i + 1;
    }
    assert(views(ls@).take(ls@.len() as int) =~= views(ls@));
    out
}

/// The entries an installed package (footprint `installed`) shares with
/// the new package (footprint `footprint`) that are worth checking: not
/// empty and not exempt. Each is a conflict when it is a file in both.
pub fn conflict_candidates(footprint: &str, installed: &str) -> (r: Vec<String>)
    ensures
        string_views(r@) == shared_candidates(lines(installed@), footprint_paths(lines(footprint@))),
{
    let listed = footprint_paths_of(&lines_exec(&chars_of(footprint)));
    let ls = lines_exec(&chars_of(installed));
    let mut out: Vec<Vec<char>> = Vec::new();
    let mut i: usize = 0;
    while i < ls.len()
        invariant
            i <= ls@.len(),
            views(out@) == shared_candidates(views(ls@).take(i as int), views(listed@)),
        decreases ls.len() - i,
    {
        let ghost ps = views(ls@);
        assert(ps.take(i + 1).drop_last() =~= ps.take(i as int));
        assert(ps.take(i + 1).last() == ls@[i as int]@);
        let w = word_or_empty_of(&ls[i]);
        if list_contains(&listed, &w) && w.len() > 0 && !is_conflict_exempt_of(&concat(&single('/'), &w)) {
            let ghost old_o = out@;
            out.push(w);
            proof { lemma_views_push(old_o, w); }
        }
        i = i + 1;
    }
    assert(views(ls@).take(ls@.len() as int) =~= views(ls@));
    strings_of(&out)
}

/// The system paths of a new footprint worth checking for files already
/// present: `/` and each line's first word, those that are not exempt.
pub fn new_path_candidates_of(footprint: &str) -> (r: Vec<String>)
    ensures
        string_views(r@) == new_path_candidates(lines(footprint@)),
{
    let ls = lines_exec(&chars_of(footprint));
    let mut out: Vec<Vec<char>> = Vec::new();
    let mut i: usize = 0;
    while i < ls.len()
        invariant
            i <= ls@.len(),
            views(out@) == new_path_candidates(views(ls@).take(i as int)),
        decreases ls.len() - i,
    {
        let ghost ps = views(ls@);
        assert(ps.take(i + 1).drop_last() =~= ps.take(i as int));
        assert(ps.take(i + 1).last() == ls@[i as int]@);
        let p = concat(&single('/'), &word_or_empty_of(&ls[i]));
        if !is_conflict_exempt_of(&p) {
            let ghost old_o = out@;
            out.push(p);
            proof { lemma_views_push(old_o, p); }
        }
        i = i + 1;
    }
    assert(views(ls@).take(ls@.len() as int) =~= views(ls@));
    strings_of(&out)
}

/// Every shared candidate is listed by the new package, is not empty, and
/// its system path is not exempt.
pub proof fn shared_candidates_sound(ls: Seq<Seq<char>>, listed: Seq<Seq<char>>, k: int)
    requires
        0 <= k < shared_candidates(ls, listed).len(),
    ensures
        listed.contains(shared_candidates(ls, listed)[k]),
        shared_candidates(ls, listed)[k].len() > 0,
        !is_conflict_exempt(seq!['/'] + shared_candidates(ls, listed)[k]),
    decreases ls.len(),
{
    let prev = shared_candidates(ls.drop_last(), listed);
    if k < prev.len() {
        shared_candidates_sound(ls.drop_last(), listed, k);
    }
}

/// No new path candidate is exempt.
pub proof fn new_path_candidates_sound(ls: Seq<Seq<char>>, k: int)
    requires
        0 <= k < new_path_candidates(ls).len(),
    ensures
        !is_conflict_exempt(new_path_candidates(ls)[k]),
        new_path_candidates(ls)[k].len() > 0 && new_path_candidates(ls)[k][0] == '/',
    decreases ls.len(),
{
    let prev = new_path_candidates(ls.drop_last());
    if k < prev.len() {
        new_path_candidates_sound(ls.drop_last(), k);
    }
}

/// An entry is a conflict candidate exactly when it is the path of some
/// line of the installed footprint, the new package lists it, it is not
/// empty, and its system path is neither `/usr/share/info/dir` nor under
/// `/etc`.
pub proof fn shared_candidates_exact(ls: Seq<Seq<char>>, listed: Seq<Seq<char>>, x: Seq<char>)
    ensures
        shared_candidates(ls, listed).contains(x) <==> {
            &&& exists|k: int| 0 <= k < ls.len() && #[trigger] word_or_empty(ls[k]) == x
            &&& listed.contains(x)
            &&& x.len() > 0
            &&& seq!['/'] + x != "/usr/share/info/dir"@
            &&& !starts_with(seq!['/'] + x, "/etc"@)
        },
    decreases ls.len(),
{
    if ls.len() > 0 {
        let init = ls.drop_last();
        shared_candidates_exact(init, listed, x);
        let w = word_or_empty(ls.last());
        let keep = listed.contains(w) && w.len() > 0 && !is_conflict_exempt(seq!['/'] + w);
        let tail = if keep { seq![w] } else { seq![] };
        lemma_contains_concat(shared_candidates(init, listed), tail, x);
        lemma_singleton_contains(w, x);
        lemma_listed_in(ls, x);
    }
}

/// A system path is checked for a file already on the system exactly when
/// it is `/` followed by the path of some line of the new footprint and it
/// is neither `/usr/share/info/dir` nor under `/etc`.
pub proof fn new_path_candidates_exact(ls: Seq<Seq<char>>, p: Seq<char>)
    ensures
        new_path_candidates(ls).contains(p) <==> {
            &&& exists|k: int| 0 <= k < ls.len() && p == seq!['/'] + #[trigger] word_or_empty(ls[k])
            &&& p != "/usr/share/info/dir"@
            &&& !starts_with(p, "/etc"@)
        },
    decreases ls.len(),
{
    if ls.len() > 0 {
        let init = ls.drop_last();
        new_path_candidates_exact(init, p);
        let q = seq!['/'] + word_or_empty(ls.last());
        let tail = if is_conflict_exempt(q) { seq![] } else { seq![q] };
        lemma_contains_concat(new_path_candidates(init), tail, p);
        lemma_singleton_contains(q, p);
        if exists|k: int| 0 <= k < ls.len() && p == seq!['/'] + #[trigger] word_or_empty(ls[k]) {
            let k = choose|k: int| 0 <= k < ls.len() && p == seq!['/'] + #[trigger] word_or_empty(ls[k]);
            if k < init.len() {
                assert(init[k] == ls[k]);
                assert(p == seq!['/'] + word_or_empty(init[k]));
            } else {
                assert(ls[k] == ls.last());
            }
        }
        if exists|k: int| 0 <= k < init.len() && p == seq!['/'] + #[trigger] word_or_empty(init[k]) {
            let k = choose|k: int| 0 <= k < init.len() && p == seq!['/'] + #[trigger] word_or_empty(init[k]);
            assert(init[k] == ls[k]);
            assert(p == seq!['/'] + word_or_empty(ls[k]));
        }
        if p == q {
            assert(ls[ls.len() - 1] == ls.last());
            assert(p == seq!['/'] + word_or_empty(ls[ls.len() - 1]));
        }
    }
}

/// Some line of `ls` has path `x` exactly when some line of all but the
/// last does, or the last does.
proof fn lemma_listed_in(ls: Seq<Seq<char>>, x: Seq<char>)
    requires
        ls.len() > 0,
    ensures
        (exists|k: int| 0 <= k < ls.len() && #[trigger] word_or_empty(ls[k]) == x) <==> (
            (exists|k: int| 0 <= k < ls.drop_last().len() && #[trigger] word_or_empty(ls.drop_last()[k]) == x)
            || word_or_empty(ls.last()) == x),
{
    let init = ls.drop_last();
    if exists|k: int| 0 <= k < ls.len() && #[trigger] word_or_empty(ls[k]) == x {
        let k = choose|k: int| 0 <= k < ls.len() && #[trigger] word_or_empty(ls[k]) == x;
        if k < init.len() {
            assert(init[k] == ls[k]);
            assert(word_or_empty(init[k]) == x);
        } else {
            assert(ls[k] == ls.last());
        }
    }
    if exists|k: int| 0 <= k < init.len() && #[trigger] word_or_empty(init[k]) == x {
        let k = choose|k: int| 0 <= k < init.len() && #[trigger] word_or_empty(init[k]) == x;
        assert(init[k] == ls[k]);
        assert(word_or_empty(ls[k]) == x);
    }
    if word_or_empty(ls.last()) == x {
        assert(ls[ls.len() - 1] == ls.last());
        assert(word_or_empty(ls[ls.len() - 1]) == x);
    }
}

} // verus!
