//! Character-level text operations, each specified over `Seq<char>`.
//!
//! The library reads configuration files, package metadata and repository
//! indexes as text. Every operation here states exactly what it returns in
//! terms of the spec functions below, which follow the meaning of the
//! corresponding `str` methods of Rust's standard library.
use vstd::prelude::*;

verus! {

// ---------------------------------------------------------------- specs

/// `p` occurs in `s` at position `i`.
pub open spec fn matches_at(s: Seq<char>, p: Seq<char>, i: int) -> bool {
    &&& 0 <= i
    &&& i + p.len() <= s.len()
    &&& s.subrange(i, i + p.len()) == p
}

/// The first position `>= i` at which `p` occurs in `s`, or -1.
pub open spec fn find_from(s: Seq<char>, p: Seq<char>, i: int) -> int
    decreases s.len() + 1 - i,
{
    if i < 0 || i + p.len() > s.len() {
        -1
    } else if matches_at(s, p, i) {
        i
    } else {
        find_from(s, p, i + 1)
    }
}

/// The first position at which `p` occurs in `s`, or -1.
pub open spec fn find(s: Seq<char>, p: Seq<char>) -> int {
    find_from(s, p, 0)
}

/// The last position `<= i` at which `p` occurs in `s`, or -1.
pub open spec fn rfind_to(s: Seq<char>, p: Seq<char>, i: int) -> int
    decreases i + 1,
{
    if i < 0 {
        -1
    } else if matches_at(s, p, i) {
        i
    } else {
        rfind_to(s, p, i - 1)
    }
}

/// The last position at which `p` occurs in `s`, or -1.
pub open spec fn rfind(s: Seq<char>, p: Seq<char>) -> int {
    rfind_to(s, p, s.len() - p.len())
}

/// `str::contains`.
pub open spec fn contains(s: Seq<char>, p: Seq<char>) -> bool {
    find(s, p) >= 0
}

/// `str::starts_with`.
pub open spec fn starts_with(s: Seq<char>, p: Seq<char>) -> bool {
    matches_at(s, p, 0)
}

/// `str::ends_with`.
pub open spec fn ends_with(s: Seq<char>, p: Seq<char>) -> bool {
    matches_at(s, p, s.len() - p.len())
}

/// `str::split_once`: the text before and after the first occurrence of `p`.
pub open spec fn split_once(s: Seq<char>, p: Seq<char>) -> Option<(Seq<char>, Seq<char>)> {
    let i = find(s, p);
    if i < 0 {
        None
    } else {
        Some((s.take(i), s.skip(i + p.len())))
    }
}

/// `str::rsplit_once`: the text before and after the last occurrence of `p`.
pub open spec fn rsplit_once(s: Seq<char>, p: Seq<char>) -> Option<(Seq<char>, Seq<char>)> {
    let i = rfind(s, p);
    if i < 0 {
        None
    } else {
        Some((s.take(i), s.skip(i + p.len())))
    }
}

/// The part after the first occurrence of `p` (`split_once(p).map(|(_, b)| b)`).
pub open spec fn after(s: Seq<char>, p: Seq<char>) -> Option<Seq<char>> {
    match split_once(s, p) {
        Some(parts) => Some(parts.1),
        None => None,
    }
}

/// The part before the first occurrence of `p` (`split_once(p).map(|(a, _)| a)`).
pub open spec fn before(s: Seq<char>, p: Seq<char>) -> Option<Seq<char>> {
    match split_once(s, p) {
        Some(parts) => Some(parts.0),
        None => None,
    }
}

/// A line without its `'\r'`, when a `"\r\n"` ended it.
pub open spec fn strip_cr(l: Seq<char>) -> Seq<char> {
    if l.len() > 0 && l.last() == '\r' {
        l.drop_last()
    } else {
        l
    }
}

/// The lines of `s` from position `i` on, as `str::lines` yields them.
pub open spec fn lines_from(s: Seq<char>, i: int) -> Seq<Seq<char>>
    decreases s.len() - i,
{
    if i < 0 || i >= s.len() {
        seq![]
    } else {
        let j = find_from(s, seq!['\n'], i);
        if j < 0 {
            seq![s.subrange(i, s.len() as int)]
        } else {
            proof {
                lemma_find_from(s, seq!['\n'], i);
            }
            seq![strip_cr(s.subrange(i, j))] + lines_from(s, j + 1)
        }
    }
}

/// `str::lines`: split at `'\n'`, a `'\r'` before it dropped, no empty
/// last line after a final `'\n'`.
pub open spec fn lines(s: Seq<char>) -> Seq<Seq<char>> {
    lines_from(s, 0)
}

/// The fields of `s` from position `i` on, split at every `c`.
pub open spec fn split_from(s: Seq<char>, c: char, i: int) -> Seq<Seq<char>>
    decreases s.len() + 1 - i,
{
    if i < 0 || i > s.len() {
        seq![]
    } else {
        let j = find_from(s, seq![c], i);
        if j < 0 {
            seq![s.subrange(i, s.len() as int)]
        } else {
            proof {
                lemma_find_from(s, seq![c], i);
            }
            seq![s.subrange(i, j)] + split_from(s, c, j + 1)
        }
    }
}

/// `str::split(c)`: every field between separators, empty ones included.
pub open spec fn split(s: Seq<char>, c: char) -> Seq<Seq<char>> {
    split_from(s, c, 0)
}

/// `char::is_whitespace`: the Unicode `White_Space` property.
pub open spec fn is_ws(c: char) -> bool {
    ||| '\t' <= c <= '\r'
    ||| c == ' '
    ||| c == '\u{85}'
    ||| c == '\u{a0}'
    ||| c == '\u{1680}'
    ||| '\u{2000}' <= c <= '\u{200a}'
    ||| c == '\u{2028}'
    ||| c == '\u{2029}'
    ||| c == '\u{202f}'
    ||| c == '\u{205f}'
    ||| c == '\u{3000}'
}

/// The first position `>= i` holding a character that is not whitespace, or `s.len()`.
pub open spec fn skip_ws(s: Seq<char>, i: int) -> int
    decreases s.len() - i,
{
    if i < 0 || i >= s.len() {
        if i < 0 { 0 } else { i }
    } else if is_ws(s[i]) {
        skip_ws(s, i + 1)
    } else {
        i
    }
}

/// The first position `>= i` holding whitespace, or `s.len()`.
pub open spec fn skip_word(s: Seq<char>, i: int) -> int
    decreases s.len() - i,
{
    if i < 0 || i >= s.len() {
        if i < 0 { 0 } else { i }
    } else if is_ws(s[i]) {
        i
    } else {
        skip_word(s, i + 1)
    }
}

/// The whitespace-separated words of `s` from position `i` on.
pub open spec fn words_from(s: Seq<char>, i: int) -> Seq<Seq<char>>
    decreases s.len() - i,
{
    if i < 0 || i >= s.len() {
        seq![]
    } else {
        let a = skip_ws(s, i);
        if a >= s.len() {
            seq![]
        } else {
            let b = skip_word(s, a);
            if b <= a {
                seq![]
            } else {
                proof {
                    lemma_skip_ws_bounds(s, i);
                    lemma_skip_word_bounds(s, a);
                }
                seq![s.subrange(a, b)] + words_from(s, b)
            }
        }
    }
}

/// `str::split_whitespace`.
pub open spec fn words(s: Seq<char>) -> Seq<Seq<char>> {
    words_from(s, 0)
}

/// `split_whitespace().next()`.
pub open spec fn first_word(s: Seq<char>) -> Option<Seq<char>> {
    if words(s).len() > 0 {
        Some(words(s)[0])
    } else {
        None
    }
}

/// The last position `< j` (and `>= 0`) after which only whitespace follows up to `j`.
pub open spec fn trim_end_at(s: Seq<char>, j: int) -> int
    decreases j,
{
    if j <= 0 {
        0
    } else if is_ws(s[j - 1]) {
        trim_end_at(s, j - 1)
    } else {
        j
    }
}

/// `str::trim`.
pub open spec fn trim(s: Seq<char>) -> Seq<char> {
    let a = skip_ws(s, 0);
    if a >= s.len() {
        seq![]
    } else {
        s.subrange(a, trim_end_at(s, s.len() as int))
    }
}

/// The index of the first of `ls` that starts with `p`, or -1.
pub open spec fn find_line_starting(ls: Seq<Seq<char>>, p: Seq<char>, i: int) -> int
    decreases ls.len() - i,
{
    if i < 0 || i >= ls.len() {
        -1
    } else if starts_with(ls[i], p) {
        i
    } else {
        find_line_starting(ls, p, i + 1)
    }
}

/// The index of the first of `ls` that contains `p`, or -1.
pub open spec fn find_line_containing(ls: Seq<Seq<char>>, p: Seq<char>, i: int) -> int
    decreases ls.len() - i,
{
    if i < 0 || i >= ls.len() {
        -1
    } else if contains(ls[i], p) {
        i
    } else {
        find_line_containing(ls, p, i + 1)
    }
}

/// `lines().find(|l| l.starts_with(p))`.
pub open spec fn line_starting(s: Seq<char>, p: Seq<char>) -> Option<Seq<char>> {
    let k = find_line_starting(lines(s), p, 0);
    if k < 0 {
        None
    } else {
        Some(lines(s)[k])
    }
}

/// `lines().find(|l| l.contains(p))`.
pub open spec fn line_containing(s: Seq<char>, p: Seq<char>) -> Option<Seq<char>> {
    let k = find_line_containing(lines(s), p, 0);
    if k < 0 {
        None
    } else {
        Some(lines(s)[k])
    }
}

/// The value of a `key=value` line: the text after `key` on the first line
/// that starts with `key` (`lines().find(starts_with(key))` then `split_once(key)`).
pub open spec fn keyed_value(s: Seq<char>, key: Seq<char>) -> Option<Seq<char>> {
    match line_starting(s, key) {
        Some(l) => after(l, key),
        None => None,
    }
}

// ------------------------------------------------------------- lemmas

/// `skip_ws` moves forward to a non-whitespace character or the end.
pub proof fn lemma_skip_ws_bounds(s: Seq<char>, i: int)
    requires
        0 <= i <= s.len(),
    ensures
        i <= skip_ws(s, i) <= s.len(),
        skip_ws(s, i) < s.len() ==> !is_ws(s[skip_ws(s, i)]),
    decreases s.len() - i,
{
    if i < s.len() && is_ws(s[i]) {
        lemma_skip_ws_bounds(s, i + 1);
    }
}

/// `skip_word` moves forward to a whitespace character or the end.
pub proof fn lemma_skip_word_bounds(s: Seq<char>, i: int)
    requires
        0 <= i <= s.len(),
    ensures
        i <= skip_word(s, i) <= s.len(),
    decreases s.len() - i,
{
    if i < s.len() && !is_ws(s[i]) {
        lemma_skip_word_bounds(s, i + 1);
    }
}

/// What `find_from` returns: the first match at or after `i`.
pub proof fn lemma_find_from(s: Seq<char>, p: Seq<char>, i: int)
    requires
        0 <= i,
    ensures
        find_from(s, p, i) == -1 || (i <= find_from(s, p, i) && matches_at(s, p, find_from(s, p, i))),
        find_from(s, p, i) == -1 ==> forall|k: int| i <= k ==> !matches_at(s, p, k),
        find_from(s, p, i) >= 0 ==> forall|k: int| i <= k < find_from(s, p, i) ==> !matches_at(s, p, k),
    decreases s.len() + 1 - i,
{
    if i + p.len() > s.len() {
    } else if matches_at(s, p, i) {
    } else {
        lemma_find_from(s, p, i + 1);
        assert forall|k: int| i <= k && (find_from(s, p, i) == -1 || k < find_from(s, p, i)) implies !matches_at(s, p, k) by {
            if k > i {
            }
        }
    }
}

/// A match of `p` anywhere makes `contains` true.
pub proof fn lemma_contains_at(s: Seq<char>, p: Seq<char>, k: int)
    requires
        matches_at(s, p, k),
    ensures
        contains(s, p),
        0 <= find(s, p) <= k,
{
    lemma_find_from(s, p, 0);
}

// ---------------------------------------------------------------- exec

#[verifier::external_body]
fn push_char(s: &mut String, c: char)
    ensures
        final(s)@ == old(s)@.push(c),
{
    s.push(c)
}

/// The characters of `s`, in order.
pub fn chars_of(s: &str) -> (v: Vec<char>)
    ensures
        v@ == s@,
{
    let mut v: Vec<char> = Vec::new();
    for c in it: s.chars()
        invariant
            v@ == it.seq().take(it.index() as int),
            it.seq() == s@,
    {
        v.push(c);
    }
    v
}

/// A `String` holding exactly the characters of `v`.
pub fn string_of(v: &[char]) -> (s: String)
    ensures
        s@ == v@,
{
    let mut s = String::new();
    let mut i: usize = 0;
    while i < v.len()
        invariant
            i <= v.len(),
            s@ == v@.take(i as int),
        decreases v.len() - i,
    {
        push_char(&mut s, v[i]);
        assert(v@.take(i + 1) =~= v@.take(i as int).push(v@[i as int]));
        i = i + 1;
    }
    assert(v@.take(v.len() as int) =~= v@);
    s
}

/// The characters `s[a..b]` as a new vector.
pub fn slice_vec(s: &[char], a: usize, b: usize) -> (v: Vec<char>)
    requires
        a <= b <= s@.len(),
    ensures
        v@ == s@.subrange(a as int, b as int),
{
    let mut v: Vec<char> = Vec::new();
    let mut i = a;
    while i < b
        invariant
            a <= i <= b <= s@.len(),
            v@ == s@.subrange(a as int, i as int),
        decreases b - i,
    {
        v.push(s[i]);
        assert(s@.subrange(a as int, i + 1) =~= s@.subrange(a as int, i as int).push(s@[i as int]));
        i = i + 1;
    }
    v
}

/// `a` followed by `b`.
pub fn concat(a: &[char], b: &[char]) -> (v: Vec<char>)
    ensures
        v@ == a@ + b@,
{
    let mut v = slice_vec(a, 0, a.len());
    let mut i: usize = 0;
    assert(a@.subrange(0, a@.len() as int) =~= a@);
    while i < b.len()
        invariant
            i <= b.len(),
            v@ == a@ + b@.take(i as int),
        decreases b.len() - i,
    {
        v.push(b[i]);
        assert(b@.take(i + 1) =~= b@.take(i as int).push(b@[i as int]));
        i = i + 1;
    }
    assert(b@.take(b.len() as int) =~= b@);
    v
}

/// Whether `p` occurs in `s` at position `i`.
pub fn matches_at_exec(s: &[char], p: &[char], i: usize) -> (r: bool)
    ensures
        r == matches_at(s@, p@, i as int),
{
    if i > s.len() || p.len() > s.len() - i {
        return false;
    }
    let mut k: usize = 0;
    while k < p.len()
        invariant
            i + p@.len() <= s@.len(),
            s@.len() <= usize::MAX,
            k <= p@.len(),
            forall|m: int| 0 <= m < k ==> s@[i + m] == p@[m],
        decreases p.len() - k,
    {
        if s[i + k] != p[k] {
            assert(s@.subrange(i as int, i + p@.len())[k as int] != p@[k as int]);
            return false;
        }
        k = k + 1;
    }
    assert(s@.subrange(i as int, i + p@.len()) =~= p@);
    true
}

/// The first position `>= i` at which `p` occurs.
pub fn find_from_exec(s: &[char], p: &[char], i: usize) -> (r: Option<usize>)
    ensures
        match r {
            Some(k) => k as int == find_from(s@, p@, i as int),
            None => find_from(s@, p@, i as int) == -1,
        },
{
    let mut j = i;
    while j <= s.len() && p.len() <= s.len() - j
        invariant
            i <= j,
            find_from(s@, p@, i as int) == find_from(s@, p@, j as int),
        decreases s.len() + 1 - j,
    {
        if matches_at_exec(s, p, j) {
            return Some(j);
        }
        if j == s.len() {
            assert(find_from(s@, p@, j + 1) == -1);
            return None;
        }
        j = j + 1;
    }
    None
}

/// The last position at which `p` occurs.
pub fn rfind_exec(s: &[char], p: &[char]) -> (r: Option<usize>)
    ensures
        match r {
            Some(k) => k as int == rfind(s@, p@),
            None => rfind(s@, p@) == -1,
        },
{
    if p.len() > s.len() {
        return None;
    }
    let mut j = s.len() - p.len();
    loop
        invariant
            j + p@.len() <= s@.len(),
            rfind(s@, p@) == rfind_to(s@, p@, j as int),
        decreases j,
    {
        if matches_at_exec(s, p, j) {
            return Some(j);
        }
        if j == 0 {
            assert(rfind_to(s@, p@, -1) == -1);
            return None;
        }
        j = j - 1;
    }
}

/// `str::contains`.
pub fn contains_exec(s: &[char], p: &[char]) -> (r: bool)
    ensures
        r == contains(s@, p@),
{
    find_from_exec(s, p, 0).is_some()
}

/// `str::starts_with`.
pub fn starts_with_exec(s: &[char], p: &[char]) -> (r: bool)
    ensures
        r == starts_with(s@, p@),
{
    matches_at_exec(s, p, 0)
}

/// `str::ends_with`.
pub fn ends_with_exec(s: &[char], p: &[char]) -> (r: bool)
    ensures
        r == ends_with(s@, p@),
{
    if p.len() > s.len() {
        false
    } else {
        matches_at_exec(s, p, s.len() - p.len())
    }
}

/// `str::split_once`.
pub fn split_once_exec(s: &[char], p: &[char]) -> (r: Option<(Vec<char>, Vec<char>)>)
    ensures
        match r {
            Some(parts) => split_once(s@, p@) == Some((parts.0@, parts.1@)),
            None => split_once(s@, p@) is None,
        },
{
    match find_from_exec(s, p, 0) {
        Some(i) => {
            proof { lemma_find_from(s@, p@, 0); }
            let n = s.len();
            let m = p.len();
            assert(i + m <= n);
            Some((slice_vec(s, 0, i), slice_vec(s, i + m, n)))
        },
        None => None,
    }
}

/// `str::rsplit_once`.
pub fn rsplit_once_exec(s: &[char], p: &[char]) -> (r: Option<(Vec<char>, Vec<char>)>)
    ensures
        match r {
            Some(parts) => rsplit_once(s@, p@) == Some((parts.0@, parts.1@)),
            None => rsplit_once(s@, p@) is None,
        },
{
    match rfind_exec(s, p) {
        Some(i) => {
            proof { lemma_rfind_to(s@, p@, s@.len() - p@.len()); }
            let n = s.len();
            let m = p.len();
            assert(i + m <= n);
            Some((slice_vec(s, 0, i), slice_vec(s, i + m, n)))
        },
        None => None,
    }
}

/// What `rfind_to` returns: a match at or below `i`.
pub proof fn lemma_rfind_to(s: Seq<char>, p: Seq<char>, i: int)
    ensures
        rfind_to(s, p, i) == -1 || (0 <= rfind_to(s, p, i) <= i && matches_at(s, p, rfind_to(s, p, i))),
    decreases i + 1,
{
    if i >= 0 && !matches_at(s, p, i) {
        lemma_rfind_to(s, p, i - 1);
    }
}

/// The text after the first occurrence of `p`.
pub fn after_exec(s: &[char], p: &[char]) -> (r: Option<Vec<char>>)
    ensures
        match r {
            Some(v) => after(s@, p@) == Some(v@),
            None => after(s@, p@) is None,
        },
{
    match split_once_exec(s, p) {
        Some(parts) => Some(parts.1),
        None => None,
    }
}

/// The text before the first occurrence of `p`.
pub fn before_exec(s: &[char], p: &[char]) -> (r: Option<Vec<char>>)
    ensures
        match r {
            Some(v) => before(s@, p@) == Some(v@),
            None => before(s@, p@) is None,
        },
{
    match split_once_exec(s, p) {
        Some(parts) => Some(parts.0),
        None => None,
    }
}

/// `str::lines`.
pub fn lines_exec(s: &[char]) -> (r: Vec<Vec<char>>)
    ensures
        r@.map_values(|v: Vec<char>| v@) == lines(s@),
{
    let nl: Vec<char> = vec!['\n'];
    assert(nl@ =~= seq!['\n']);
    let mut r: Vec<Vec<char>> = Vec::new();
    let mut i: usize = 0;
    while i < s.len()
        invariant
            i <= s@.len(),
            nl@ == seq!['\n'],
            r@.map_values(|v: Vec<char>| v@) + lines_from(s@, i as int) == lines(s@),
        decreases s.len() - i,
    {
        let ghost before_r = r@.map_values(|v: Vec<char>| v@);
        match find_from_exec(s, &nl, i) {
            Some(j) => {
                proof { lemma_find_from(s@, seq!['\n'], i as int); }
                let mut l = slice_vec(s, i, j);
                if l.len() > 0 && l[l.len() - 1] == '\r' {
                    l.pop();
                    assert(l@ =~= strip_cr(s@.subrange(i as int, j as int)));
                }
                r.push(l);
                assert(r@.map_values(|v: Vec<char>| v@) =~= before_r.push(strip_cr(s@.subrange(i as int, j as int))));
                assert(r@.map_values(|v: Vec<char>| v@) + lines_from(s@, j + 1) =~= before_r + lines_from(s@, i as int));
                i = j + 1;
            },
            None => {
                let l = slice_vec(s, i, s.len());
                r.push(l);
                assert(r@.map_values(|v: Vec<char>| v@) =~= before_r.push(s@.subrange(i as int, s@.len() as int)));
                assert(r@.map_values(|v: Vec<char>| v@) + lines_from(s@, s@.len() as int) =~= before_r + lines_from(s@, i as int));
                i = s.len();
            },
        }
    }
    assert(r@.map_values(|v: Vec<char>| v@) =~= r@.map_values(|v: Vec<char>| v@) + lines_from(s@, i as int));
    r
}

/// `str::split(c)`.
pub fn split_exec(s: &[char], c: char) -> (r: Vec<Vec<char>>)
    ensures
        r@.map_values(|v: Vec<char>| v@) == split(s@, c),
{
    let sep: Vec<char> = vec![c];
    assert(sep@ =~= seq![c]);
    let mut r: Vec<Vec<char>> = Vec::new();
    let mut i: usize = 0;
    loop
        invariant
            i <= s@.len(),
            sep@ == seq![c],
            r@.map_values(|v: Vec<char>| v@) + split_from(s@, c, i as int) == split(s@, c),
        decreases s.len() - i,
    {
        let ghost before_r = r@.map_values(|v: Vec<char>| v@);
        match find_from_exec(s, &sep, i) {
            Some(j) => {
                proof { lemma_find_from(s@, seq![c], i as int); }
                let f = slice_vec(s, i, j);
                r.push(f);
                assert(r@.map_values(|v: Vec<char>| v@) =~= before_r.push(s@.subrange(i as int, j as int)));
                assert(r@.map_values(|v: Vec<char>| v@) + split_from(s@, c, j + 1) =~= before_r + split_from(s@, c, i as int));
                i = j + 1;
            },
            None => {
                let f = slice_vec(s, i, s.len());
                r.push(f);
                assert(r@.map_values(|v: Vec<char>| v@) =~= before_r + split_from(s@, c, i as int));
                return r;
            },
        }
    }
}

/// `char::is_whitespace`.
pub fn is_ws_exec(c: char) -> (r: bool)
    ensures
        r == is_ws(c),
{
    ('\t' <= c && c <= '\r') || c == ' ' || c == '\u{85}' || c == '\u{a0}' || c == '\u{1680}'
        || ('\u{2000}' <= c && c <= '\u{200a}') || c == '\u{2028}' || c == '\u{2029}'
        || c == '\u{202f}' || c == '\u{205f}' || c == '\u{3000}'
}

fn skip_ws_exec(s: &[char], i: usize) -> (r: usize)
    requires
        i <= s@.len(),
    ensures
        r as int == skip_ws(s@, i as int),
        i <= r <= s@.len(),
{
    let mut j = i;
    while j < s.len() && is_ws_exec(s[j])
        invariant
            i <= j <= s@.len(),
            skip_ws(s@, i as int) == skip_ws(s@, j as int),
        decreases s.len() - j,
    {
        j = j + 1;
    }
    j
}

fn skip_word_exec(s: &[char], i: usize) -> (r: usize)
    requires
        i <= s@.len(),
    ensures
        r as int == skip_word(s@, i as int),
        i <= r <= s@.len(),
{
    let mut j = i;
    while j < s.len() && !is_ws_exec(s[j])
        invariant
            i <= j <= s@.len(),
            skip_word(s@, i as int) == skip_word(s@, j as int),
        decreases s.len() - j,
    {
        j = j + 1;
    }
    j
}

/// `str::split_whitespace`.
pub fn words_exec(s: &[char]) -> (r: Vec<Vec<char>>)
    ensures
        r@.map_values(|v: Vec<char>| v@) == words(s@),
{
    let mut r: Vec<Vec<char>> = Vec::new();
    let mut i: usize = 0;
    loop
        invariant
            i <= s@.len(),
            r@.map_values(|v: Vec<char>| v@) + words_from(s@, i as int) == words(s@),
        decreases s.len() - i,
    {
        if i >= s.len() {
            return r;
        }
        let a = skip_ws_exec(s, i);
        if a >= s.len() {
            return r;
        }
        let b = skip_word_exec(s, a);
        if b <= a {
            return r;
        }
        let ghost before_r = r@.map_values(|v: Vec<char>| v@);
        r.push(slice_vec(s, a, b));
        assert(r@.map_values(|v: Vec<char>| v@) =~= before_r.push(s@.subrange(a as int, b as int)));
        assert(r@.map_values(|v: Vec<char>| v@) + words_from(s@, b as int) =~= before_r + words_from(s@, i as int));
        i = b;
    }
}

/// `split_whitespace().next()`.
pub fn first_word_exec(s: &[char]) -> (r: Option<Vec<char>>)
    ensures
        match r {
            Some(w) => first_word(s@) == Some(w@),
            None => first_word(s@) is None,
        },
{
    let mut ws = words_exec(s);
    if ws.len() == 0 {
        None
    } else {
        assert(ws@.map_values(|v: Vec<char>| v@)[0] == ws@[0]@);
        Some(ws.swap_remove(0))
    }
}

/// `str::trim`.
pub fn trim_exec(s: &[char]) -> (r: Vec<char>)
    ensures
        r@ == trim(s@),
{
    let a = skip_ws_exec(s, 0);
    if a >= s.len() {
        return Vec::new();
    }
    proof { lemma_skip_ws_bounds(s@, 0); }
    let mut b = s.len();
    while b > 0 && is_ws_exec(s[b - 1])
        invariant
            b <= s@.len(),
            trim_end_at(s@, s@.len() as int) == trim_end_at(s@, b as int),
        decreases b,
    {
        b = b - 1;
    }
    proof { lemma_trim_bounds(s@, a as int, s@.len() as int); }
    slice_vec(s, a, b)
}

proof fn lemma_trim_bounds(s: Seq<char>, a: int, j: int)
    requires
        0 <= a < s.len(),
        !is_ws(s[a]),
        a < j <= s.len(),
    ensures
        a < trim_end_at(s, j) <= j,
    decreases j,
{
    if j - 1 > a && is_ws(s[j - 1]) {
        lemma_trim_bounds(s, a, j - 1);
    }
}

/// The first of `ls` that starts with `p`.
pub fn find_line_starting_exec(ls: &Vec<Vec<char>>, p: &[char]) -> (r: Option<usize>)
    ensures
        match r {
            Some(k) => k as int == find_line_starting(ls@.map_values(|v: Vec<char>| v@), p@, 0) && k < ls@.len(),
            None => find_line_starting(ls@.map_values(|v: Vec<char>| v@), p@, 0) == -1,
        },
{
    let mut k: usize = 0;
    while k < ls.len()
        invariant
            k <= ls@.len(),
            find_line_starting(ls@.map_values(|v: Vec<char>| v@), p@, 0) == find_line_starting(ls@.map_values(|v: Vec<char>| v@), p@, k as int),
        decreases ls.len() - k,
    {
        assert(ls@.map_values(|v: Vec<char>| v@)[k as int] == ls@[k as int]@);
        if starts_with_exec(&ls[k], p) {
            return Some(k);
        }
        k = k + 1;
    }
    None
}

/// The first of `ls` that contains `p`.
pub fn find_line_containing_exec(ls: &Vec<Vec<char>>, p: &[char]) -> (r: Option<usize>)
    ensures
        match r {
            Some(k) => k as int == find_line_containing(ls@.map_values(|v: Vec<char>| v@), p@, 0) && k < ls@.len(),
            None => find_line_containing(ls@.map_values(|v: Vec<char>| v@), p@, 0) == -1,
        },
{
    let mut k: usize = 0;
    while k < ls.len()
        invariant
            k <= ls@.len(),
            find_line_containing(ls@.map_values(|v: Vec<char>| v@), p@, 0) == find_line_containing(ls@.map_values(|v: Vec<char>| v@), p@, k as int),
        decreases ls.len() - k,
    {
        assert(ls@.map_values(|v: Vec<char>| v@)[k as int] == ls@[k as int]@);
        if contains_exec(&ls[k], p) {
            return Some(k);
        }
        k = k + 1;
    }
    None
}

/// `lines().find(|l| l.starts_with(p))`.
pub fn line_starting_exec(s: &[char], p: &[char]) -> (r: Option<Vec<char>>)
    ensures
        match r {
            Some(l) => line_starting(s@, p@) == Some(l@),
            None => line_starting(s@, p@) is None,
        },
{
    let mut ls = lines_exec(s);
    match find_line_starting_exec(&ls, p) {
        Some(k) => {
            assert(ls@.map_values(|v: Vec<char>| v@)[k as int] == ls@[k as int]@);
            Some(ls.swap_remove(k))
        },
        None => None,
    }
}

/// `lines().find(|l| l.contains(p))`.
pub fn line_containing_exec(s: &[char], p: &[char]) -> (r: Option<Vec<char>>)
    ensures
        match r {
            Some(l) => line_containing(s@, p@) == Some(l@),
            None => line_containing(s@, p@) is None,
        },
{
    let mut ls = lines_exec(s);
    match find_line_containing_exec(&ls, p) {
        Some(k) => {
            assert(ls@.map_values(|v: Vec<char>| v@)[k as int] == ls@[k as int]@);
            Some(ls.swap_remove(k))
        },
        None => None,
    }
}

/// The value of the first `key...` line: the text after `key` on it.
pub fn keyed_value_exec(s: &[char], key: &[char]) -> (r: Option<Vec<char>>)
    ensures
        match r {
            Some(v) => keyed_value(s@, key@) == Some(v@),
            None => keyed_value(s@, key@) is None,
        },
{
    match line_starting_exec(s, key) {
        Some(l) => after_exec(&l, key),
        None => None,
    }
}

} // verus!

verus! {

/// `s` holds no `c`.
pub open spec fn lacks(s: Seq<char>, c: char) -> bool {
    forall|i: int| 0 <= i < s.len() ==> s[i] != c
}

/// Not containing the one-character pattern `[c]` means holding no `c`.
pub proof fn lemma_lacks(s: Seq<char>, c: char)
    ensures
        !contains(s, seq![c]) <==> lacks(s, c),
{
    if !contains(s, seq![c]) {
        assert forall|i: int| 0 <= i < s.len() implies s[i] != c by {
            if s[i] == c {
                assert(s.subrange(i, i + 1) =~= seq![c]);
                lemma_contains_at(s, seq![c], i);
            }
        }
    } else {
        lemma_find_from(s, seq![c], 0);
        let k = find(s, seq![c]);
        assert(s.subrange(k, k + 1)[0] == c);
    }
}

/// In `a + b`, where `a` holds no first character of `p` and `b` starts
/// with `p`, the first occurrence of `p` is where `b` begins.
pub proof fn lemma_find_at_join(a: Seq<char>, b: Seq<char>, p: Seq<char>)
    requires
        p.len() > 0,
        lacks(a, p[0]),
        starts_with(b, p),
    ensures
        find(a + b, p) == a.len(),
        split_once(a + b, p) == Some((a, b.skip(p.len() as int))),
{
    let s = a + b;
    assert(s.subrange(a.len() as int, (a.len() + p.len()) as int) =~= b.subrange(0, p.len() as int));
    assert(matches_at(s, p, a.len() as int));
    lemma_find_from(s, p, 0);
    let r = find(s, p);
    if r != a.len() {
        assert(r < a.len());
        assert(s.subrange(r, r + p.len())[0] == p[0]);
        assert(s[r] == a[r]);
    }
    assert(s.take(a.len() as int) =~= a);
    assert(s.skip((a.len() + p.len()) as int) =~= b.skip(p.len() as int));
}

} // verus!

verus! {

/// `split_from` yields at least one field.
pub proof fn lemma_split_nonempty(s: Seq<char>, c: char, i: int)
    requires
        0 <= i <= s.len(),
    ensures
        split_from(s, c, i).len() >= 1,
    decreases s.len() + 1 - i,
{
    let j = find_from(s, seq![c], i);
    if j >= 0 {
        lemma_find_from(s, seq![c], i);
        lemma_split_nonempty(s, c, j + 1);
    }
}

} // verus!

verus! {

/// The one-character text `c`.
pub fn single(c: char) -> (v: Vec<char>)
    ensures
        v@ == seq![c],
{
    let v = vec![c];
    assert(v@ =~= seq![c]);
    v
}

} // verus!

verus! {

/// The texts held by a list of character vectors.
pub open spec fn views(v: Seq<Vec<char>>) -> Seq<Seq<char>> {
    v.map_values(|x: Vec<char>| x@)
}

/// The texts held by a list of strings.
pub open spec fn string_views(v: Seq<String>) -> Seq<Seq<char>> {
    v.map_values(|x: String| x@)
}

/// `parts` joined with `sep` between each two (`[T]::join`).
pub open spec fn join(parts: Seq<Seq<char>>, sep: Seq<char>) -> Seq<char>
    decreases parts.len(),
{
    if parts.len() == 0 {
        seq![]
    } else if parts.len() == 1 {
        parts[0]
    } else {
        join(parts.drop_last(), sep) + sep + parts.last()
    }
}

/// `parts` joined with `sep` between each two.
pub fn join_exec(parts: &Vec<Vec<char>>, sep: &[char]) -> (r: Vec<char>)
    ensures
        r@ == join(views(parts@), sep@),
{
    let mut r: Vec<char> = Vec::new();
    let mut i: usize = 0;
    while i < parts.len()
        invariant
            i <= parts@.len(),
            r@ == join(views(parts@).take(i as int), sep@),
        decreases parts.len() - i,
    {
        let ghost ps = views(parts@);
        assert(ps.take(i + 1).drop_last() =~= ps.take(i as int));
        if i == 0 {
            r = slice_vec(&parts[0], 0, parts[0].len());
            assert(ps.take(1)[0] == parts@[0]@);
        } else {
            r = concat(&r, sep);
            r = concat(&r, &parts[i]);
        }
        i = i + 1;
    }
    assert(views(parts@).take(parts@.len() as int) =~= views(parts@));
    r
}

/// The strings holding the texts of `parts`.
pub fn strings_of(parts: &Vec<Vec<char>>) -> (r: Vec<String>)
    ensures
        string_views(r@) == views(parts@),
{
    let mut r: Vec<String> = Vec::new();
    let mut i: usize = 0;
    while i < parts.len()
        invariant
            i <= parts@.len(),
            r@.len() == i,
            string_views(r@) == views(parts@).take(i as int),
        decreases parts.len() - i,
    {
        let s = string_of(&parts[i]);
        let ghost old_r = r@;
        r.push(s);
        assert forall|m: int| 0 <= m < i + 1 implies string_views(r@)[m] == views(parts@).take(i + 1)[m] by {
            if m < i {
                assert(r@[m] == old_r[m]);
                assert(string_views(old_r)[m] == views(parts@).take(i as int)[m]);
            }
        }
        assert(string_views(r@) =~= views(parts@).take(i + 1));
        i = i + 1;
    }
    assert(views(parts@).take(parts@.len() as int) =~= views(parts@));
    r
}

/// The character vectors holding the texts of `parts`.
pub fn char_vecs_of(parts: &[String]) -> (r: Vec<Vec<char>>)
    ensures
        views(r@) == string_views(parts@),
{
    let mut r: Vec<Vec<char>> = Vec::new();
    let mut i: usize = 0;
    while i < parts.len()
        invariant
            i <= parts@.len(),
            r@.len() == i,
            views(r@) == string_views(parts@).take(i as int),
        decreases parts.len() - i,
    {
        let s = chars_of(parts[i].as_str());
        let ghost old_r = r@;
        r.push(s);
        assert forall|m: int| 0 <= m < i + 1 implies views(r@)[m] == string_views(parts@).take(i + 1)[m] by {
            if m < i {
                assert(r@[m] == old_r[m]);
                assert(views(old_r)[m] == string_views(parts@).take(i as int)[m]);
            }
        }
        assert(views(r@) =~= string_views(parts@).take(i + 1));
        i = i + 1;
    }
    assert(string_views(parts@).take(parts@.len() as int) =~= string_views(parts@));
    r
}

/// Whether two texts are equal.
pub fn same_text(a: &[char], b: &[char]) -> (r: bool)
    ensures
        r == (a@ == b@),
{
    if a.len() != b.len() {
        return false;
    }
    let mut k: usize = 0;
    while k < a.len()
        invariant
            a@.len() == b@.len(),
            k <= a@.len(),
            forall|m: int| 0 <= m < k ==> a@[m] == b@[m],
        decreases a.len() - k,
    {
        if a[k] != b[k] {
            return false;
        }
        k = k + 1;
    }
    assert(a@ =~= b@);
    true
}

/// Whether `x` is one of `list`.
pub fn list_contains(list: &Vec<Vec<char>>, x: &[char]) -> (r: bool)
    ensures
        r == views(list@).contains(x@),
{
    let mut k: usize = 0;
    while k < list.len()
        invariant
            k <= list@.len(),
            forall|m: int| 0 <= m < k ==> views(list@)[m] != x@,
        decreases list.len() - k,
    {
        if same_text(&list[k], x) {
            assert(views(list@)[k as int] == x@);
            return true;
        }
        k = k + 1;
    }
    false
}

/// Where `find_from` lands in `x + y` past `x`: where it lands in `y`, moved by `x.len()`.
pub proof fn lemma_find_from_shift(x: Seq<char>, y: Seq<char>, p: Seq<char>, k: int)
    requires
        0 <= k,
    ensures
        find_from(x + y, p, x.len() + k) == (if find_from(y, p, k) < 0 { -1 } else { x.len() + find_from(y, p, k) }),
    decreases y.len() + 1 - k,
{
    let s = x + y;
    if k + p.len() > y.len() {
    } else {
        assert(s.subrange(x.len() + k, x.len() + k + p.len()) =~= y.subrange(k, k + p.len()));
        if !matches_at(y, p, k) {
            lemma_find_from_shift(x, y, p, k + 1);
        }
    }
}

/// The lines of `x + y` from a position past `x` are those of `y` from the matching position.
pub proof fn lemma_lines_from_shift(x: Seq<char>, y: Seq<char>, k: int)
    requires
        0 <= k,
    ensures
        lines_from(x + y, x.len() + k) == lines_from(y, k),
    decreases y.len() - k,
{
    let s = x + y;
    if k < y.len() {
        lemma_find_from_shift(x, y, seq!['\n'], k);
        let j = find_from(y, seq!['\n'], k);
        if j < 0 {
            assert(s.subrange(x.len() + k, s.len() as int) =~= y.subrange(k, y.len() as int));
        } else {
            lemma_find_from(y, seq!['\n'], k);
            assert(s.subrange(x.len() + k, x.len() + j) =~= y.subrange(k, j));
            lemma_lines_from_shift(x, y, j + 1);
        }
    }
}

/// A line `a` ended by `'\n'` in front of `b` adds one line in front of `b`'s lines.
pub proof fn lemma_lines_cons(a: Seq<char>, b: Seq<char>)
    requires
        lacks(a, '\n'),
    ensures
        lines(a + seq!['\n'] + b) == seq![strip_cr(a)] + lines(b),
{
    let rest = seq!['\n'] + b;
    assert(rest.subrange(0, 1) =~= seq!['\n']);
    lemma_find_at_join(a, rest, seq!['\n']);
    let s = a + seq!['\n'] + b;
    assert(s =~= a + rest);
    assert(s.subrange(0, a.len() as int) =~= a);
    assert(s =~= (a + seq!['\n']) + b);
    lemma_lines_from_shift(a + seq!['\n'], b, 0);
}

/// A line starts with the one-character text `[c]` exactly when its first character is `c`.
pub proof fn lemma_starts_with_char(l: Seq<char>, c: char)
    ensures
        starts_with(l, seq![c]) <==> (l.len() > 0 && l[0] == c),
        starts_with(l, seq![c]) ==> after(l, seq![c]) == Some(l.skip(1)),
{
    if l.len() > 0 && l[0] == c {
        assert(l.subrange(0, 1) =~= seq![c]);
        lemma_find_from(l, seq![c], 0);
    }
    if starts_with(l, seq![c]) {
        assert(l.subrange(0, 1)[0] == c);
    }
}

} // verus!

verus! {

/// Searching `ls` for a line that starts with `[tag]`, when line `k` is the
/// first whose first character is `tag`, finds `k`.
pub proof fn lemma_find_line_tag(ls: Seq<Seq<char>>, tag: char, i: int, k: int)
    requires
        0 <= i <= k < ls.len(),
        forall|j: int| i <= j < k ==> ls[j].len() > 0 && ls[j][0] != tag,
        ls[k].len() > 0,
        ls[k][0] == tag,
    ensures
        find_line_starting(ls, seq![tag], i) == k,
    decreases k - i,
{
    lemma_starts_with_char(ls[i], tag);
    if i < k {
        lemma_find_line_tag(ls, tag, i + 1, k);
    }
}

/// `s` with every leading `c` removed (`str::trim_start_matches(c)`).
pub open spec fn strip_leading(s: Seq<char>, c: char) -> Seq<char>
    decreases s.len(),
{
    if s.len() > 0 && s[0] == c {
        strip_leading(s.drop_first(), c)
    } else {
        s
    }
}

/// `s` with every leading `c` removed.
pub fn strip_leading_exec(s: &[char], c: char) -> (r: Vec<char>)
    ensures
        r@ == strip_leading(s@, c),
{
    let mut i: usize = 0;
    assert(s@.skip(0) =~= s@);
    while i < s.len() && s[i] == c
        invariant
            i <= s@.len(),
            strip_leading(s@, c) == strip_leading(s@.skip(i as int), c),
        decreases s.len() - i,
    {
        assert(s@.skip(i as int).drop_first() =~= s@.skip(i + 1));
        i = i + 1;
    }
    assert(s@.skip(i as int) =~= s@.subrange(i as int, s@.len() as int));
    slice_vec(s, i, s.len())
}

} // verus!

verus! {

/// Adding a vector adds its text.
pub proof fn lemma_views_push(v: Seq<Vec<char>>, x: Vec<char>)
    ensures
        views(v.push(x)) == views(v).push(x@),
{
    assert(views(v.push(x)) =~= views(v).push(x@));
}

} // verus!

verus! {

/// Some line of `s` starts with `p` (`lines().any(|l| l.starts_with(p))`).
pub open spec fn any_line_starting(s: Seq<char>, p: Seq<char>) -> bool {
    exists|k: int| 0 <= k < lines(s).len() && starts_with(#[trigger] lines(s)[k], p)
}

/// When a first line starting with `p` exists, it is found.
pub proof fn lemma_find_line_starting(ls: Seq<Seq<char>>, p: Seq<char>, i: int)
    requires
        0 <= i,
    ensures
        find_line_starting(ls, p, i) == -1 <==> (forall|k: int| i <= k < ls.len() ==> !starts_with(#[trigger] ls[k], p)),
        find_line_starting(ls, p, i) >= -1,
        find_line_starting(ls, p, i) >= 0 ==> i <= find_line_starting(ls, p, i) < ls.len()
            && starts_with(ls[find_line_starting(ls, p, i)], p),
    decreases ls.len() - i,
{
    if i < ls.len() && !starts_with(ls[i], p) {
        lemma_find_line_starting(ls, p, i + 1);
    }
}

/// The line `find_line_containing` picks contains `p`.
pub proof fn lemma_find_line_containing(ls: Seq<Seq<char>>, p: Seq<char>, i: int)
    requires
        0 <= i,
    ensures
        find_line_containing(ls, p, i) >= -1,
        find_line_containing(ls, p, i) >= 0 ==> i <= find_line_containing(ls, p, i) < ls.len()
            && contains(ls[find_line_containing(ls, p, i)], p),
    decreases ls.len() - i,
{
    if i < ls.len() && !contains(ls[i], p) {
        lemma_find_line_containing(ls, p, i + 1);
    }
}

/// Some line starts with `p` exactly when the first such line exists.
pub proof fn lemma_any_line_starting(s: Seq<char>, p: Seq<char>)
    ensures
        any_line_starting(s, p) <==> line_starting(s, p) is Some,
        any_line_starting(s, p) ==> keyed_value(s, p) is Some,
{
    let ls = lines(s);
    lemma_find_line_starting(ls, p, 0);
    let k = find_line_starting(ls, p, 0);
    if any_line_starting(s, p) {
        let w = choose|w: int| 0 <= w < ls.len() && starts_with(#[trigger] ls[w], p);
        assert(k != -1);
    }
    if k >= 0 {
        let l = ls[k];
        assert(starts_with(ls[k], p));
        lemma_find_from(l, p, 0);
        assert(any_line_starting(s, p));
    }
}

/// Whether some line of `s` starts with `p`.
pub fn any_line_starting_exec(s: &[char], p: &[char]) -> (r: bool)
    ensures
        r == any_line_starting(s@, p@),
{
    proof { lemma_any_line_starting(s@, p@); }
    line_starting_exec(s, p).is_some()
}

/// A text that ends with `p` has a last occurrence of `p`, at its end.
pub proof fn lemma_ends_with_found(s: Seq<char>, p: Seq<char>)
    requires
        ends_with(s, p),
    ensures
        rfind(s, p) == s.len() - p.len(),
        rsplit_once(s, p) is Some,
{
}

} // verus!

verus! {

/// A field `a` ended by `c` in front of `b` adds one field in front of `b`'s fields.
pub proof fn lemma_split_cons(a: Seq<char>, b: Seq<char>, c: char)
    requires
        lacks(a, c),
    ensures
        split(a + seq![c] + b, c) == seq![a] + split(b, c),
{
    let rest = seq![c] + b;
    assert(rest.subrange(0, 1) =~= seq![c]);
    lemma_find_at_join(a, rest, seq![c]);
    let s = a + seq![c] + b;
    assert(s =~= a + rest);
    assert(s.subrange(0, a.len() as int) =~= a);
    assert(s =~= (a + seq![c]) + b);
    lemma_split_from_shift(a + seq![c], b, c, 0);
}

/// A text without `c` is a single field.
pub proof fn lemma_split_single(a: Seq<char>, c: char)
    requires
        lacks(a, c),
    ensures
        split(a, c) == seq![a],
{
    lemma_lacks(a, c);
    lemma_find_from(a, seq![c], 0);
    if find(a, seq![c]) >= 0 {
        lemma_contains_at(a, seq![c], find(a, seq![c]));
    }
    assert(a.subrange(0, a.len() as int) =~= a);
}

/// The fields of `x + y` from a position past `x` are those of `y` from the matching position.
pub proof fn lemma_split_from_shift(x: Seq<char>, y: Seq<char>, c: char, k: int)
    requires
        0 <= k,
    ensures
        split_from(x + y, c, x.len() + k) == split_from(y, c, k),
    decreases y.len() + 1 - k,
{
    let s = x + y;
    if k <= y.len() {
        lemma_find_from_shift(x, y, seq![c], k);
        let j = find_from(y, seq![c], k);
        if j < 0 {
            assert(s.subrange(x.len() + k, s.len() as int) =~= y.subrange(k, y.len() as int));
        } else {
            lemma_find_from(y, seq![c], k);
            assert(s.subrange(x.len() + k, x.len() + j) =~= y.subrange(k, j));
            lemma_split_from_shift(x, y, c, j + 1);
        }
    }
}

/// A text containing `p` contains its first character, no later than `p`'s first occurrence.
pub proof fn lemma_contains_char_of(s: Seq<char>, p: Seq<char>, k: int)
    requires
        contains(s, p),
        0 <= k < p.len(),
    ensures
        contains(s, seq![p[k]]),
{
    lemma_find_from(s, p, 0);
    let i = find(s, p);
    assert(s.subrange(i, i + p.len())[k] == p[k]);
    assert(s.subrange(i + k, i + k + 1) =~= seq![p[k]]);
    lemma_contains_at(s, seq![p[k]], i + k);
}

} // verus!

verus! {

/// Adding a string adds its text.
pub proof fn lemma_string_views_push(v: Seq<String>, x: String)
    ensures
        string_views(v.push(x)) == string_views(v).push(x@),
{
    assert(string_views(v.push(x)) =~= string_views(v).push(x@));
}

/// An element lies in `a + b` exactly when it lies in `a` or in `b`.
pub proof fn lemma_contains_concat<A>(a: Seq<A>, b: Seq<A>, x: A)
    ensures
        (a + b).contains(x) <==> (a.contains(x) || b.contains(x)),
{
    if (a + b).contains(x) {
        let k = choose|k: int| 0 <= k < (a + b).len() && (a + b)[k] == x;
        if k < a.len() {
            assert(a[k] == x);
        } else {
            assert(b[k - a.len()] == x);
        }
    }
    if a.contains(x) {
        let k = choose|k: int| 0 <= k < a.len() && a[k] == x;
        assert((a + b)[k] == x);
    }
    if b.contains(x) {
        let k = choose|k: int| 0 <= k < b.len() && b[k] == x;
        assert((a + b)[a.len() + k] == x);
    }
}

/// A one-element sequence holds exactly its element.
pub proof fn lemma_singleton_contains<A>(w: A, x: A)
    ensures
        seq![w].contains(x) <==> w == x,
{
    if w == x {
        assert(seq![w][0] == x);
    }
}

} // verus!
