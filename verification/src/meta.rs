//! The `META` record that describes an installed or built package.
//!
//! A `META` file holds one field per line, each line a one-letter tag
//! followed by the value: `N` name, `V` version, `r` release, `c` collection,
//! `D` description, `P` packager and `R` run-time dependencies.
use vstd::prelude::*;

use crate::error::RawError;
use crate::text::{
    chars_of, concat, find_line_starting, join, join_exec, keyed_value, keyed_value_exec, lacks,
    lemma_find_line_tag, lemma_lines_cons, lemma_starts_with_char, lines, lines_exec, single,
    starts_with, starts_with_exec, strip_cr, strip_leading, strip_leading_exec, string_of,
    strings_of, char_vecs_of, string_views, views, words, words_exec, lemma_views_push,
};

verus! {

/// The fields of a package's `META` record.
#[derive(Debug, PartialEq, Eq, Clone)]
pub struct Meta {
    pub name: String,
    pub version: String,
    pub release: String,
    pub collection: String,
    pub description: String,
    pub packager: String,
    pub depends: String,
}

/// One `META` line: the tag, the value and a line break.
pub open spec fn meta_line(tag: char, value: Seq<char>) -> Seq<char> {
    seq![tag] + value + seq!['\n']
}

/// The text of a `META` record.
pub open spec fn render_meta(m: Meta) -> Seq<char> {
    meta_line('N', m.name@) + meta_line('V', m.version@) + meta_line('r', m.release@)
        + meta_line('c', m.collection@) + meta_line('D', m.description@) + meta_line('P', m.packager@)
        + meta_line('R', m.depends@)
}

/// The value of field `tag` in a `META` text: the rest of the first line
/// that starts with `tag`.
pub open spec fn meta_field(text: Seq<char>, tag: char) -> Option<Seq<char>> {
    keyed_value(text, seq![tag])
}

/// The text of the `META` record `m`.
pub fn render_meta_text(m: &Meta) -> (r: String)
    ensures
        r@ == render_meta(*m),
{
    let mut t: Vec<char> = Vec::new();
    t = push_meta_line(&t, 'N', &m.name);
    t = push_meta_line(&t, 'V', &m.version);
    t = push_meta_line(&t, 'r', &m.release);
    t = push_meta_line(&t, 'c', &m.collection);
    t = push_meta_line(&t, 'D', &m.description);
    t = push_meta_line(&t, 'P', &m.packager);
    t = push_meta_line(&t, 'R', &m.depends);
    assert(t@ =~= render_meta(*m));
    string_of(&t)
}

fn push_meta_line(t: &Vec<char>, tag: char, value: &String) -> (r: Vec<char>)
    ensures
        r@ == t@ + meta_line(tag, value@),
{
    let a = concat(t, &single(tag));
    let b = concat(&a, &chars_of(value.as_str()));
    let c = concat(&b, &single('\n'));
    assert(c@ =~= t@ + meta_line(tag, value@));
    c
}

/// The value of field `tag` in a `META` text.
pub fn meta_field_of(text: &str, tag: char) -> (r: Option<String>)
    ensures
        match r {
            Some(v) => meta_field(text@, tag) == Some(v@),
            None => meta_field(text@, tag) is None,
        },
{
    match keyed_value_exec(&chars_of(text), &single(tag)) {
        Some(v) => Some(string_of(&v)),
        None => None,
    }
}

fn required_field(text: &str, tag: char) -> (r: Result<String, RawError>)
    ensures
        match r {
            Ok(v) => meta_field(text@, tag) == Some(v@),
            Err(e) => meta_field(text@, tag) is None && e == RawError::MetaFieldMissing(tag),
        },
{
    match meta_field_of(text, tag) {
        Some(v) => Ok(v),
        None => Err(RawError::MetaFieldMissing(tag)),
    }
}

/// What `raw info` shows of an installed package.
#[derive(Debug, PartialEq, Eq, Clone)]
pub struct PackageInfo {
    pub name: String,
    pub version: String,
    pub description: String,
    pub packager: String,
    pub collection: String,
}

/// The fields `raw info` shows, in the order it reads them, with the first
/// one that is missing as the error.
pub fn package_info(text: &str) -> (r: Result<PackageInfo, RawError>)
    ensures
        match r {
            Ok(info) => {
                &&& meta_field(text@, 'N') == Some(info.name@)
                &&& meta_field(text@, 'V') == Some(info.version@)
                &&& meta_field(text@, 'D') == Some(info.description@)
                &&& meta_field(text@, 'P') == Some(info.packager@)
                &&& meta_field(text@, 'c') == Some(info.collection@)
            },
            Err(e) => {
                ||| meta_field(text@, 'N') is None && e == RawError::MetaFieldMissing('N')
                ||| meta_field(text@, 'N') is Some && meta_field(text@, 'V') is None
                    && e == RawError::MetaFieldMissing('V')
                ||| meta_field(text@, 'N') is Some && meta_field(text@, 'V') is Some
                    && meta_field(text@, 'D') is None && e == RawError::MetaFieldMissing('D')
                ||| meta_field(text@, 'N') is Some && meta_field(text@, 'V') is Some
                    && meta_field(text@, 'D') is Some && meta_field(text@, 'P') is None
                    && e == RawError::MetaFieldMissing('P')
                ||| meta_field(text@, 'N') is Some && meta_field(text@, 'V') is Some
                    && meta_field(text@, 'D') is Some && meta_field(text@, 'P') is Some
                    && meta_field(text@, 'c') is None && e == RawError::MetaFieldMissing('c')
            },
        },
{
    let name = required_field(text, 'N')?;
    let version = required_field(text, 'V')?;
    let description = required_field(text, 'D')?;
    let packager = required_field(text, 'P')?;
    let collection = required_field(text, 'c')?;
    Ok(PackageInfo { name, version, description, packager, collection })
}

/// The version (`V`) and release (`r`) a `META` text records, or the
/// first of the two that is missing.
pub open spec fn meta_version_release(text: Seq<char>) -> Result<(Seq<char>, Seq<char>), RawError> {
    match meta_field(text, 'V') {
        None => Err(RawError::MetaFieldMissing('V')),
        Some(v) => match meta_field(text, 'r') {
            None => Err(RawError::MetaFieldMissing('r')),
            Some(r) => Ok((v, r)),
        },
    }
}

/// The version (`V`) and release (`r`) recorded in a `META` text.
pub fn installed_version_release(text: &str) -> (r: Result<(String, String), RawError>)
    ensures
        match r {
            Ok(vr) => meta_version_release(text@) == Ok::<(Seq<char>, Seq<char>), RawError>((vr.0@, vr.1@)),
            Err(e) => meta_version_release(text@) == Err::<(Seq<char>, Seq<char>), RawError>(e),
        },
{
    let version = required_field(text, 'V')?;
    let release = required_field(text, 'r')?;
    Ok((version, release))
}

/// The run-time dependencies on the first `R` line, when there is one.
pub open spec fn meta_dependencies(text: Seq<char>) -> Option<Seq<Seq<char>>> {
    match meta_field(text, 'R') {
        Some(v) => Some(words(v)),
        None => None,
    }
}

/// The run-time dependencies listed on the first `R` line of a `META` text.
pub fn meta_dependencies_of(text: &str) -> (r: Option<Vec<String>>)
    ensures
        match r {
            Some(ds) => meta_dependencies(text@) == Some(string_views(ds@)),
            None => meta_dependencies(text@) is None,
        },
{
    match keyed_value_exec(&chars_of(text), &single('R')) {
        Some(v) => Some(strings_of(&words_exec(&v))),
        None => None,
    }
}

/// Every name on every line that starts with `R`, leading `R`s removed, in order.
pub open spec fn required_in_lines(ls: Seq<Seq<char>>) -> Seq<Seq<char>>
    decreases ls.len(),
{
    if ls.len() == 0 {
        seq![]
    } else {
        required_in_lines(ls.drop_last()) + (if starts_with(ls.last(), seq!['R']) {
            words(strip_leading(ls.last(), 'R'))
        } else {
            seq![]
        })
    }
}

/// Every package that the `R` lines of a `META` text name.
pub open spec fn required_in_meta(text: Seq<char>) -> Seq<Seq<char>> {
    required_in_lines(lines(text))
}

/// Every package that the `R` lines of a `META` text name, in order.
pub fn required_in_meta_of(text: &str) -> (r: Vec<Vec<char>>)
    ensures
        views(r@) == required_in_meta(text@),
{
    let ls = lines_exec(&chars_of(text));
    let r_tag = single('R');
    let mut r: Vec<Vec<char>> = Vec::new();
    let mut i: usize = 0;
    while i < ls.len()
        invariant
            i <= ls@.len(),
            r_tag@ == seq!['R'],
            views(r@) == required_in_lines(views(ls@).take(i as int)),
        decreases ls.len() - i,
    {
        let ghost ps = views(ls@);
        assert(ps.take(i + 1).drop_last() =~= ps.take(i as int));
        assert(ps.take(i + 1).last() == ls@[i as int]@);
        if starts_with_exec(&ls[i], &r_tag) {
            let ws = words_exec(&strip_leading_exec(&ls[i], 'R'));
            let mut k: usize = 0;
            let ghost before = views(r@);
            while k < ws.len()
                invariant
                    k <= ws@.len(),
                    views(r@) == before + views(ws@).take(k as int),
                decreases ws.len() - k,
            {
                let w = crate::text::slice_vec(&ws[k], 0, ws[k].len());
                assert(w@ =~= ws@[k as int]@);
                let ghost old_r = r@;
                r.push(w);
                proof { lemma_views_push(old_r, w); }
                assert(views(r@) =~= before + views(ws@).take(k + 1));
                k = k + 1;
            }
            assert(views(ws@).take(ws@.len() as int) =~= views(ws@));
        } else {
            assert(required_in_lines(ps.take(i + 1)) =~= required_in_lines(ps.take(i as int)));
        }
        i = i + 1;
    }
    assert(views(ls@).take(ls@.len() as int) =~= views(ls@));
    r
}

/// The rest of the last line of `ls` that starts with `R` (empty when none does).
pub open spec fn last_r_value(ls: Seq<Seq<char>>) -> Seq<char>
    decreases ls.len(),
{
    if ls.len() == 0 {
        seq![]
    } else if starts_with(ls.last(), seq!['R']) {
        ls.last().skip(1)
    } else {
        last_r_value(ls.drop_last())
    }
}

/// The lines of `ls` that do not start with `R`.
pub open spec fn non_r_lines(ls: Seq<Seq<char>>) -> Seq<Seq<char>>
    decreases ls.len(),
{
    if ls.len() == 0 {
        seq![]
    } else {
        non_r_lines(ls.drop_last()) + (if starts_with(ls.last(), seq!['R']) {
            seq![]
        } else {
            seq![ls.last()]
        })
    }
}

/// A `META` text with the detected run-time dependencies `extra` added to
/// its `R` line: the other lines kept, the `R` line written last.
pub open spec fn with_rundepends(text: Seq<char>, extra: Seq<Seq<char>>) -> Seq<char> {
    let ls = lines(text);
    let kept = join(non_r_lines(ls), seq!['\n']);
    let old_deps = last_r_value(ls);
    let deps = join(extra, seq![' ']);
    if old_deps.len() > 0 {
        kept + seq!['\n', 'R'] + old_deps + seq![' '] + deps + seq!['\n']
    } else {
        kept + seq!['\n', 'R'] + deps + seq!['\n']
    }
}

/// A `META` text with the detected run-time dependencies `extra` added to its `R` line.
pub fn with_rundepends_of(text: &str, extra: &[String]) -> (r: String)
    ensures
        r@ == with_rundepends(text@, string_views(extra@)),
{
    let ls = lines_exec(&chars_of(text));
    let r_tag = single('R');
    let mut kept: Vec<Vec<char>> = Vec::new();
    let mut old_deps: Vec<char> = Vec::new();
    let mut i: usize = 0;
    while i < ls.len()
        invariant
            i <= ls@.len(),
            r_tag@ == seq!['R'],
            views(kept@) == non_r_lines(views(ls@).take(i as int)),
            old_deps@ == last_r_value(views(ls@).take(i as int)),
        decreases ls.len() - i,
    {
        let ghost ps = views(ls@);
        assert(ps.take(i + 1).drop_last() =~= ps.take(i as int));
        assert(ps.take(i + 1).last() == ls@[i as int]@);
        if starts_with_exec(&ls[i], &r_tag) {
            old_deps = crate::text::slice_vec(&ls[i], 1, ls[i].len());
            assert(old_deps@ =~= ls@[i as int]@.skip(1));
        } else {
            let line = crate::text::slice_vec(&ls[i], 0, ls[i].len());
            assert(line@ =~= ls@[i as int]@);
            kept.push(line);
            assert(views(kept@) =~= non_r_lines(ps.take(i + 1)));
        }
        i = i + 1;
    }
    assert(views(ls@).take(ls@.len() as int) =~= views(ls@));
    let body = join_exec(&kept, &single('\n'));
    let deps = join_exec(&char_vecs_of(extra), &single(' '));
    let mut t = concat(&body, &['\n', 'R']);
    assert(['\n', 'R']@ =~= seq!['\n', 'R']);
    if old_deps.len() > 0 {
        t = concat(&t, &old_deps);
        t = concat(&t, &single(' '));
    }
    t = concat(&t, &deps);
    t = concat(&t, &single('\n'));
    assert(t@ =~= with_rundepends(text@, string_views(extra@)));
    string_of(&t)
}

/// A field value that ends with a carriage return (which reading the
/// field's line would drop).
pub open spec fn ends_with_cr(v: Seq<char>) -> bool {
    v.len() > 0 && v.last() == '\r'
}

proof fn lemma_strip_cr_first(s: Seq<char>)
    requires
        s.len() > 0,
        s[0] != '\r',
    ensures
        strip_cr(s).len() > 0,
        strip_cr(s)[0] == s[0],
        lacks(s, '\n') ==> lacks(strip_cr(s), '\n'),
{
    if lacks(s, '\n') {
        assert forall|i: int| 0 <= i < strip_cr(s).len() implies strip_cr(s)[i] != '\n' by {
            assert(strip_cr(s)[i] == s[i]);
        }
    }
}

proof fn lemma_tagged_line(c: char, v: Seq<char>)
    requires
        lacks(v, '\n'),
        c != '\n',
        c != '\r',
    ensures
        lacks(seq![c] + v, '\n'),
        strip_cr(seq![c] + v).len() > 0,
        strip_cr(seq![c] + v)[0] == c,
        lacks(strip_cr(seq![c] + v), '\n'),
        !ends_with_cr(v) ==> strip_cr(seq![c] + v) == seq![c] + v,
{
    let l = seq![c] + v;
    assert forall|i: int| 0 <= i < l.len() implies l[i] != '\n' by {
        if i > 0 {
            assert(l[i] == v[i - 1]);
        }
    }
    assert(l.last() == if v.len() > 0 { v.last() } else { c });
    lemma_strip_cr_first(l);
}

/// The lines of a rendered `META` record, when no field holds a line break:
/// each field's tagged line, as `lines` reads it.
proof fn lemma_rendered_lines(m: Meta)
    requires
        lacks(m.name@, '\n'),
        lacks(m.version@, '\n'),
        lacks(m.release@, '\n'),
        lacks(m.collection@, '\n'),
        lacks(m.description@, '\n'),
        lacks(m.packager@, '\n'),
        lacks(m.depends@, '\n'),
    ensures
        lines(render_meta(m)) == seq![
            strip_cr(seq!['N'] + m.name@),
            strip_cr(seq!['V'] + m.version@),
            strip_cr(seq!['r'] + m.release@),
            strip_cr(seq!['c'] + m.collection@),
            strip_cr(seq!['D'] + m.description@),
            strip_cr(seq!['P'] + m.packager@),
            strip_cr(seq!['R'] + m.depends@),
        ],
{
    let l0 = seq!['N'] + m.name@;
    let l1 = seq!['V'] + m.version@;
    let l2 = seq!['r'] + m.release@;
    let l3 = seq!['c'] + m.collection@;
    let l4 = seq!['D'] + m.description@;
    let l5 = seq!['P'] + m.packager@;
    let l6 = seq!['R'] + m.depends@;
    lemma_tagged_line('N', m.name@);
    lemma_tagged_line('V', m.version@);
    lemma_tagged_line('r', m.release@);
    lemma_tagged_line('c', m.collection@);
    lemma_tagged_line('D', m.description@);
    lemma_tagged_line('P', m.packager@);
    lemma_tagged_line('R', m.depends@);
    let e = Seq::<char>::empty();
    let t6 = l6 + seq!['\n'] + e;
    let t5 = l5 + seq!['\n'] + t6;
    let t4 = l4 + seq!['\n'] + t5;
    let t3 = l3 + seq!['\n'] + t4;
    let t2 = l2 + seq!['\n'] + t3;
    let t1 = l1 + seq!['\n'] + t2;
    let t0 = l0 + seq!['\n'] + t1;
    assert(render_meta(m) =~= t0);
    lemma_lines_cons(l6, e);
    lemma_lines_cons(l5, t6);
    lemma_lines_cons(l4, t5);
    lemma_lines_cons(l3, t4);
    lemma_lines_cons(l2, t3);
    lemma_lines_cons(l1, t2);
    lemma_lines_cons(l0, t1);
    assert(lines(t0) =~= seq![
        strip_cr(l0),
        strip_cr(l1),
        strip_cr(l2),
        strip_cr(l3),
        strip_cr(l4),
        strip_cr(l5),
        strip_cr(l6),
    ]);
}

/// Reading a `META` record written by the library gives back each of its
/// fields, when no field holds a line break or ends with a carriage return.
pub proof fn meta_round_trip(m: Meta)
    requires
        lacks(m.name@, '\n') && !ends_with_cr(m.name@),
        lacks(m.version@, '\n') && !ends_with_cr(m.version@),
        lacks(m.release@, '\n') && !ends_with_cr(m.release@),
        lacks(m.collection@, '\n') && !ends_with_cr(m.collection@),
        lacks(m.description@, '\n') && !ends_with_cr(m.description@),
        lacks(m.packager@, '\n') && !ends_with_cr(m.packager@),
        lacks(m.depends@, '\n') && !ends_with_cr(m.depends@),
    ensures
        meta_field(render_meta(m), 'N') == Some(m.name@),
        meta_field(render_meta(m), 'V') == Some(m.version@),
        meta_field(render_meta(m), 'r') == Some(m.release@),
        meta_field(render_meta(m), 'c') == Some(m.collection@),
        meta_field(render_meta(m), 'D') == Some(m.description@),
        meta_field(render_meta(m), 'P') == Some(m.packager@),
        meta_field(render_meta(m), 'R') == Some(m.depends@),
{
    let l0 = seq!['N'] + m.name@;
    let l1 = seq!['V'] + m.version@;
    let l2 = seq!['r'] + m.release@;
    let l3 = seq!['c'] + m.collection@;
    let l4 = seq!['D'] + m.description@;
    let l5 = seq!['P'] + m.packager@;
    let l6 = seq!['R'] + m.depends@;
    lemma_rendered_lines(m);
    lemma_tagged_line('N', m.name@);
    lemma_tagged_line('V', m.version@);
    lemma_tagged_line('r', m.release@);
    lemma_tagged_line('c', m.collection@);
    lemma_tagged_line('D', m.description@);
    lemma_tagged_line('P', m.packager@);
    lemma_tagged_line('R', m.depends@);
    let ls = lines(render_meta(m));
    assert(ls =~= seq![l0, l1, l2, l3, l4, l5, l6]);
    lemma_find_line_tag(ls, 'N', 0, 0);
    lemma_find_line_tag(ls, 'V', 0, 1);
    lemma_find_line_tag(ls, 'r', 0, 2);
    lemma_find_line_tag(ls, 'c', 0, 3);
    lemma_find_line_tag(ls, 'D', 0, 4);
    lemma_find_line_tag(ls, 'P', 0, 5);
    lemma_find_line_tag(ls, 'R', 0, 6);
    lemma_starts_with_char(l0, 'N');
    lemma_starts_with_char(l1, 'V');
    lemma_starts_with_char(l2, 'r');
    lemma_starts_with_char(l3, 'c');
    lemma_starts_with_char(l4, 'D');
    lemma_starts_with_char(l5, 'P');
    lemma_starts_with_char(l6, 'R');
    assert(l0.skip(1) =~= m.name@);
    assert(l1.skip(1) =~= m.version@);
    assert(l2.skip(1) =~= m.release@);
    assert(l3.skip(1) =~= m.collection@);
    assert(l4.skip(1) =~= m.description@);
    assert(l5.skip(1) =~= m.packager@);
    assert(l6.skip(1) =~= m.depends@);
}

/// The `META` a build writes, whether or not the run-time dependencies
/// found in its binaries are then added to its `R` line, gives back the
/// package's version and release: what `installed_version_release` reads
/// from it once the package is installed, since installing copies it
/// unchanged. This holds when no field holds a line break and neither the
/// version nor the release ends with a carriage return.
#[verifier::rlimit(40)]
pub proof fn built_meta_reads_back(m: Meta, extra: Seq<Seq<char>>)
    requires
        lacks(m.name@, '\n'),
        lacks(m.version@, '\n') && !ends_with_cr(m.version@),
        lacks(m.release@, '\n') && !ends_with_cr(m.release@),
        lacks(m.collection@, '\n'),
        lacks(m.description@, '\n'),
        lacks(m.packager@, '\n'),
        lacks(m.depends@, '\n'),
    ensures
        meta_version_release(render_meta(m)) == Ok::<(Seq<char>, Seq<char>), RawError>((m.version@, m.release@)),
        meta_version_release(with_rundepends(render_meta(m), extra)) == Ok::<(Seq<char>, Seq<char>), RawError>(
            (m.version@, m.release@),
        ),
{
    let nl = seq!['\n'];
    let l0 = seq!['N'] + m.name@;
    let l1 = seq!['V'] + m.version@;
    let l2 = seq!['r'] + m.release@;
    lemma_rendered_lines(m);
    lemma_tagged_line('N', m.name@);
    lemma_tagged_line('V', m.version@);
    lemma_tagged_line('r', m.release@);
    let h0 = strip_cr(l0);
    let ls = lines(render_meta(m));
    let head = seq![h0, l1, l2];
    let tail = ls.skip(3);
    assert(ls =~= head + tail);
    // the rendered text itself
    lemma_find_line_tag(ls, 'V', 0, 1);
    lemma_find_line_tag(ls, 'r', 0, 2);
    lemma_starts_with_char(l1, 'V');
    lemma_starts_with_char(l2, 'r');
    assert(l1.skip(1) =~= m.version@);
    assert(l2.skip(1) =~= m.release@);
    // with the run-time dependencies added
    lemma_non_r_concat(head, tail);
    lemma_starts_with_char(h0, 'R');
    lemma_starts_with_char(l1, 'R');
    lemma_starts_with_char(l2, 'R');
    assert(head.drop_last() =~= seq![h0, l1]);
    assert(seq![h0, l1].drop_last() =~= seq![h0]);
    assert(seq![h0].drop_last() =~= Seq::<Seq<char>>::empty());
    assert(non_r_lines(Seq::<Seq<char>>::empty()) == Seq::<Seq<char>>::empty());
    assert(seq![h0].last() == h0);
    assert(non_r_lines(seq![h0]) =~= Seq::<Seq<char>>::empty() + seq![h0]);
    assert(non_r_lines(seq![h0]) =~= seq![h0]);
    assert(non_r_lines(seq![h0, l1]) =~= seq![h0, l1]);
    assert(non_r_lines(head) =~= head);
    let rest = non_r_lines(tail);
    assert(non_r_lines(ls) =~= head + rest);
    assert(head + rest =~= seq![h0] + (seq![l1] + (seq![l2] + rest)));
    lemma_join_cons(h0, seq![l1] + (seq![l2] + rest), nl);
    lemma_join_cons(l1, seq![l2] + rest, nl);
    let kept = join(head + rest, nl);
    let text = with_rundepends(render_meta(m), extra);
    let x = text.skip(kept.len() as int + 1);
    assert(text =~= kept + nl + x);
    let z = if rest.len() > 0 {
        lemma_join_cons(l2, rest, nl);
        join(rest, nl) + nl + x
    } else {
        assert(seq![l2] + rest =~= seq![l2]);
        x
    };
    assert(text =~= h0 + nl + (l1 + nl + (l2 + nl + z)));
    lemma_lines_cons(l2, z);
    lemma_lines_cons(l1, l2 + nl + z);
    lemma_lines_cons(h0, l1 + nl + (l2 + nl + z));
    lemma_strip_cr_first(h0);
    let tls = lines(text);
    assert(tls =~= seq![strip_cr(h0), l1, l2] + lines(z));
    lemma_find_line_tag(tls, 'V', 0, 1);
    lemma_find_line_tag(tls, 'r', 0, 2);
}

proof fn lemma_non_r_concat(a: Seq<Seq<char>>, b: Seq<Seq<char>>)
    ensures
        non_r_lines(a + b) == non_r_lines(a) + non_r_lines(b),
    decreases b.len(),
{
    if b.len() == 0 {
        assert(a + b =~= a);
    } else {
        assert((a + b).drop_last() =~= a + b.drop_last());
        assert((a + b).last() == b.last());
        lemma_non_r_concat(a, b.drop_last());
    }
}

proof fn lemma_join_cons(a: Seq<char>, rest: Seq<Seq<char>>, sep: Seq<char>)
    requires
        rest.len() > 0,
    ensures
        join(seq![a] + rest, sep) == a + sep + join(rest, sep),
    decreases rest.len(),
{
    let s = seq![a] + rest;
    if rest.len() == 1 {
        assert(s.drop_last() =~= seq![a]);
        assert(s.last() == rest[0]);
        assert(join(seq![a], sep) == a);
        assert(join(rest, sep) == rest[0]);
        assert(join(s, sep) == join(s.drop_last(), sep) + sep + s.last());
    } else {
        assert(s.drop_last() =~= seq![a] + rest.drop_last());
        assert(s.last() == rest.last());
        lemma_join_cons(a, rest.drop_last(), sep);
        assert(join(s, sep) == join(s.drop_last(), sep) + sep + s.last());
        assert(join(rest, sep) == join(rest.drop_last(), sep) + sep + rest.last());
        assert(join(s, sep) =~= a + sep + join(rest, sep));
    }
}

} // verus!
