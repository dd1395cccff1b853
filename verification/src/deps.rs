//! Walking the run-time dependencies of a package.
//!
//! `raw get` and `raw install` follow the `R` lines of installed packages
//! depth first, each package once; installing what is missing happens
//! between the steps of the walk. The walk records, for each package it
//! visited, the dependencies pushed for it: over that graph, a finished walk
//! has visited exactly the packages reachable from where it started.
use vstd::prelude::*;

use crate::text::{
    chars_of, contains, contains_exec, lemma_contains_concat, list_contains, string_of, string_views, views,
};

verus! {

/// A depth-first walk over package dependencies: the packages still to
/// visit (`stack`, top last), those visited (`visited`, in order), the
/// package the walk started at and the dependencies pushed for each
/// visited package.
pub struct DependencyWalk {
    stack: Vec<String>,
    visited: Vec<String>,
    origin: Ghost<Seq<char>>,
    graph: Ghost<Map<Seq<char>, Seq<Seq<char>>>>,
}

/// The step of a walk: the package on top of `stack` that was not yet
/// visited (`None` when there is none), and the stack left after popping it
/// and every visited package above it.
pub open spec fn walk_pop(stack: Seq<Seq<char>>, visited: Seq<Seq<char>>) -> (Option<Seq<char>>, Seq<Seq<char>>)
    decreases stack.len(),
{
    if stack.len() == 0 {
        (None, stack)
    } else if visited.contains(stack.last()) {
        walk_pop(stack.drop_last(), visited)
    } else {
        (Some(stack.last()), stack.drop_last())
    }
}

/// The dependencies of `deps` not yet visited, in order.
pub open spec fn unvisited(deps: Seq<Seq<char>>, visited: Seq<Seq<char>>) -> Seq<Seq<char>>
    decreases deps.len(),
{
    if deps.len() == 0 {
        seq![]
    } else {
        unvisited(deps.drop_last(), visited) + (if visited.contains(deps.last()) {
            seq![]
        } else {
            seq![deps.last()]
        })
    }
}

/// `b` is among the dependencies that `g` records for `a`.
pub open spec fn depends_on(g: Map<Seq<char>, Seq<Seq<char>>>, a: Seq<char>, b: Seq<char>) -> bool {
    g.dom().contains(a) && g[a].contains(b)
}

/// The dependencies `g` records for `a` (none when it has no entry).
pub open spec fn recorded(g: Map<Seq<char>, Seq<Seq<char>>>, a: Seq<char>) -> Seq<Seq<char>> {
    if g.dom().contains(a) {
        g[a]
    } else {
        seq![]
    }
}

/// Package `p[i + 1]` is a dependency of `p[i]` in `g`.
pub open spec fn step_in(g: Map<Seq<char>, Seq<Seq<char>>>, p: Seq<Seq<char>>, i: int) -> bool {
    depends_on(g, p[i], p[i + 1])
}

/// `p` is a chain of packages, each a dependency of the one before it in `g`.
pub open spec fn is_chain(g: Map<Seq<char>, Seq<Seq<char>>>, p: Seq<Seq<char>>) -> bool {
    p.len() > 0 && forall|i: int| 0 <= i < p.len() - 1 ==> #[trigger] step_in(g, p, i)
}

/// `b` is reached from `a` in `g` by following dependencies zero or more times.
pub open spec fn reachable(g: Map<Seq<char>, Seq<Seq<char>>>, a: Seq<char>, b: Seq<char>) -> bool {
    exists|p: Seq<Seq<char>>| #[trigger] is_chain(g, p) && p[0] == a && p.last() == b
}

/// The dependencies a walk found: the packages it visited after its start.
pub open spec fn found(seen: Seq<Seq<char>>) -> Seq<Seq<char>> {
    if seen.len() > 0 {
        seen.drop_first()
    } else {
        seq![]
    }
}

impl DependencyWalk {
    /// The packages still to visit.
    pub closed spec fn pending(&self) -> Seq<Seq<char>> {
        string_views(self.stack@)
    }

    /// The packages visited so far.
    pub closed spec fn seen(&self) -> Seq<Seq<char>> {
        string_views(self.visited@)
    }

    /// The package the walk started at.
    pub closed spec fn start(&self) -> Seq<char> {
        self.origin@
    }

    /// The dependencies pushed so far, by the package they were pushed for.
    pub closed spec fn dependency_graph(&self) -> Map<Seq<char>, Seq<Seq<char>>> {
        self.graph@
    }

    /// The walk is consistent: no package is visited twice, the start is
    /// visited first, everything visited or waiting is reachable from the
    /// start, and every recorded dependency is visited or waiting.
    pub closed spec fn wf(&self) -> bool {
        &&& self.seen().no_duplicates()
        &&& self.seen().len() == 0 ==> self.pending() == seq![self.start()]
        &&& self.seen().len() > 0 ==> self.seen()[0] == self.start()
        &&& forall|x: Seq<char>|
            #![trigger self.seen().contains(x)]
            #![trigger self.pending().contains(x)]
            (self.seen().contains(x) || self.pending().contains(x)) ==> reachable(
                self.dependency_graph(),
                self.start(),
                x,
            )
        &&& forall|a: Seq<char>, b: Seq<char>|
            #[trigger] depends_on(self.dependency_graph(), a, b) ==> self.seen().contains(b)
                || self.pending().contains(b)
        &&& forall|a: Seq<char>| #[trigger] self.dependency_graph().dom().contains(a) ==> self.seen().contains(a)
    }

    /// A walk that starts at `pkg`.
    pub fn new(pkg: &str) -> (w: Self)
        ensures
            w.wf(),
            w.pending() == seq![pkg@],
            w.seen() == Seq::<Seq<char>>::empty(),
            w.start() == pkg@,
            w.dependency_graph() == Map::<Seq<char>, Seq<Seq<char>>>::empty(),
    {
        let first = string_of(&chars_of(pkg));
        let w = DependencyWalk {
            stack: vec![first],
            visited: Vec::new(),
            origin: Ghost(pkg@),
            graph: Ghost(Map::empty()),
        };
        assert(string_views(w.stack@) =~= seq![pkg@]);
        assert(string_views(w.visited@) =~= Seq::<Seq<char>>::empty());
        proof {
            let g = Map::<Seq<char>, Seq<Seq<char>>>::empty();
            let p = seq![pkg@];
            assert(is_chain(g, p));
            assert forall|x: Seq<char>| w.seen().contains(x) || w.pending().contains(x) implies reachable(
                g,
                pkg@,
                x,
            ) by {
                if w.pending().contains(x) {
                    let k = choose|k: int| 0 <= k < w.pending().len() && w.pending()[k] == x;
                    assert(x == pkg@);
                }
                assert(is_chain(g, p) && p[0] == pkg@ && p.last() == x);
            }
        }
        w
    }

    fn pop_unvisited(&mut self) -> (r: Option<String>)
        requires
            old(self).seen().no_duplicates(),
        ensures
            final(self).seen().no_duplicates(),
            final(self).origin@ == old(self).origin@,
            final(self).graph@ == old(self).graph@,
            final(self).pending() == walk_pop(old(self).pending(), old(self).seen()).1,
            match r {
                Some(p) => walk_pop(old(self).pending(), old(self).seen()).0 == Some(p@)
                    && final(self).seen() == old(self).seen().push(p@),
                None => walk_pop(old(self).pending(), old(self).seen()).0 is None
                    && final(self).seen() == old(self).seen(),
            },
    {
        let ghost seen0 = self.seen();
        let ghost start = self.pending();
        loop
            invariant
                self.seen() == seen0,
                seen0 == old(self).seen(),
                start == old(self).pending(),
                seen0.no_duplicates(),
                walk_pop(start, seen0) == walk_pop(self.pending(), seen0),
                self.origin@ == old(self).origin@,
                self.graph@ == old(self).graph@,
            decreases self.stack@.len(),
        {
            let ghost before = self.pending();
            match self.stack.pop() {
                None => {
                    assert(before.len() == 0);
                    return None;
                },
                Some(top) => {
                    assert(string_views(self.stack@.push(top)) =~= string_views(self.stack@).push(top@));
                    assert(before.last() == top@);
                    assert(self.pending() =~= before.drop_last());
                    let t = chars_of(top.as_str());
                    if !list_contains(&visited_chars(&self.visited), &t) {
                        let ghost old_v = self.visited@;
                        self.visited.push(top);
                        assert(self.seen() =~= seen0.push(t@));
                        proof {
                            assert forall|a: int, b: int| 0 <= a < b < self.seen().len() implies self.seen()[a] != self.seen()[b] by {
                                if b == self.seen().len() - 1 {
                                    assert(seen0[a] == self.seen()[a]);
                                }
                            }
                        }
                        let r = crate::text::string_of(&t);
                        return Some(r);
                    }
                },
            }
        }
    }

    /// Pops packages until one that was not visited; marks it visited and
    /// returns it. `None` when the walk is over.
    pub fn next_package(&mut self) -> (r: Option<String>)
        requires
            old(self).wf(),
        ensures
            final(self).wf(),
            final(self).start() == old(self).start(),
            final(self).dependency_graph() == old(self).dependency_graph(),
            final(self).pending() == walk_pop(old(self).pending(), old(self).seen()).1,
            match r {
                Some(p) => walk_pop(old(self).pending(), old(self).seen()).0 == Some(p@)
                    && final(self).seen() == old(self).seen().push(p@),
                None => walk_pop(old(self).pending(), old(self).seen()).0 is None
                    && final(self).seen() == old(self).seen(),
            },
    {
        let r = self.pop_unvisited();
        proof {
            self.lemma_pop_keeps_wf(*old(self));
        }
        r
    }

    proof fn lemma_pop_keeps_wf(&self, before: DependencyWalk)
        requires
            before.wf(),
            self.origin@ == before.origin@,
            self.graph@ == before.graph@,
            self.seen().no_duplicates(),
            self.pending() == walk_pop(before.pending(), before.seen()).1,
            match walk_pop(before.pending(), before.seen()).0 {
                Some(p) => self.seen() == before.seen().push(p),
                None => self.seen() == before.seen(),
            },
        ensures
            self.wf(),
    {
        let s0 = before.seen();
        let p0 = before.pending();
        let s1 = self.seen();
        let p1 = self.pending();
        let o = walk_pop(p0, s0).0;
        assert forall|x: Seq<char>| (s1.contains(x) || p1.contains(x)) <==> (s0.contains(x) || p0.contains(x)) by {
            lemma_walk_pop_union(p0, s0, x);
            match o {
                Some(p) => {
                    lemma_contains_last(s1, x);
                    assert(s1.drop_last() =~= s0);
                },
                None => {},
            }
        }
        if s0.len() == 0 {
            assert(p0.drop_last() =~= Seq::<Seq<char>>::empty());
            assert(walk_pop(p0, s0).0 == Some(p0.last()));
            assert(s1[0] == before.start());
        } else {
            match o {
                Some(p) => assert(s1[0] == s0[0]),
                None => {},
            }
        }
        assert forall|x: Seq<char>| s1.contains(x) || p1.contains(x) implies reachable(
            self.dependency_graph(),
            self.start(),
            x,
        ) by {
            if s0.contains(x) {
            } else {
                assert(p0.contains(x));
            }
        }
        assert forall|a: Seq<char>, b: Seq<char>| #[trigger] depends_on(self.dependency_graph(), a, b) implies s1.contains(b)
            || p1.contains(b) by {
            assert(depends_on(before.dependency_graph(), a, b));
            if s0.contains(b) {
            } else {
                assert(p0.contains(b));
            }
        }
        assert forall|a: Seq<char>| #[trigger] self.dependency_graph().dom().contains(a) implies s1.contains(a) by {
            assert(before.dependency_graph().dom().contains(a));
            assert(s0.contains(a));
        }
    }

    /// Queues the dependencies of `deps` that were not visited; returns them,
    /// in order. `deps` are recorded as dependencies of the package visited last.
    pub fn push_dependencies(&mut self, deps: &[String]) -> (pushed: Vec<String>)
        requires
            old(self).wf(),
            old(self).seen().len() > 0,
        ensures
            final(self).wf(),
            final(self).seen() == old(self).seen(),
            final(self).start() == old(self).start(),
            final(self).dependency_graph() == old(self).dependency_graph().insert(
                old(self).seen().last(),
                recorded(old(self).dependency_graph(), old(self).seen().last()) + string_views(deps@),
            ),
            string_views(pushed@) == unvisited(string_views(deps@), old(self).seen()),
            final(self).pending() == old(self).pending() + unvisited(string_views(deps@), old(self).seen()),
    {
        let seen = visited_chars(&self.visited);
        let ghost start = self.pending();
        let mut pushed: Vec<String> = Vec::new();
        let mut i: usize = 0;
        while i < deps.len()
            invariant
                i <= deps@.len(),
                views(seen@) == self.seen(),
                self.seen().no_duplicates(),
                string_views(pushed@) == unvisited(string_views(deps@).take(i as int), self.seen()),
                self.pending() == start + unvisited(string_views(deps@).take(i as int), self.seen()),
                self.origin@ == old(self).origin@,
                self.graph@ == old(self).graph@,
                self.visited@ == old(self).visited@,
            decreases deps.len() - i,
        {
            let ghost ds = string_views(deps@);
            assert(ds.take(i + 1).drop_last() =~= ds.take(i as int));
            assert(ds.take(i + 1).last() == deps@[i as int]@);
            let d = chars_of(deps[i].as_str());
            if !list_contains(&seen, &d) {
                let ghost old_p = pushed@;
                let ghost old_s = self.stack@;
                pushed.push(crate::text::string_of(&d));
                self.stack.push(crate::text::string_of(&d));
                assert(string_views(pushed@) =~= string_views(old_p).push(d@));
                assert(string_views(self.stack@) =~= string_views(old_s).push(d@));
            }
            i = i + 1;
        }
        assert(string_views(deps@).take(deps@.len() as int) =~= string_views(deps@));
        let ghost c = self.seen().last();
        let ghost g0 = self.graph@;
        let ghost ds = string_views(deps@);
        let ghost g1 = g0.insert(c, recorded(g0, c) + ds);
        self.graph = Ghost(g1);
        proof {
            self.lemma_push_keeps_wf(*old(self), ds);
        }
        pushed
    }

    proof fn lemma_push_keeps_wf(&self, before: DependencyWalk, ds: Seq<Seq<char>>)
        requires
            before.wf(),
            before.seen().len() > 0,
            self.origin@ == before.origin@,
            self.seen() == before.seen(),
            self.pending() == before.pending() + unvisited(ds, before.seen()),
            self.graph@ == before.graph@.insert(
                before.seen().last(),
                recorded(before.graph@, before.seen().last()) + ds,
            ),
        ensures
            self.wf(),
    {
        let s = before.seen();
        let p0 = before.pending();
        let u = unvisited(ds, s);
        let p1 = self.pending();
        let c = s.last();
        let g0 = before.dependency_graph();
        let g1 = self.dependency_graph();
        let start = before.start();
        assert(s.contains(c)) by {
            assert(s[s.len() - 1] == c);
        }
        assert forall|a: Seq<char>, b: Seq<char>| #[trigger] depends_on(g0, a, b) implies depends_on(g1, a, b) by {
            if a == c {
                lemma_contains_concat(recorded(g0, c), ds, b);
            }
        }
        assert forall|x: Seq<char>| s.contains(x) || p1.contains(x) implies reachable(g1, start, x) by {
            lemma_contains_concat(p0, u, x);
            if s.contains(x) || p0.contains(x) {
                let p = choose|p: Seq<Seq<char>>| #[trigger] is_chain(g0, p) && p[0] == start && p.last() == x;
                lemma_chain_mono(g0, g1, p);
                assert(is_chain(g1, p) && p[0] == start && p.last() == x);
            } else {
                lemma_unvisited(ds, s, x);
                lemma_contains_concat(recorded(g0, c), ds, x);
                assert(depends_on(g1, c, x));
                let p = choose|p: Seq<Seq<char>>| #[trigger] is_chain(g0, p) && p[0] == start && p.last() == c;
                lemma_chain_mono(g0, g1, p);
                lemma_chain_extend(g1, p, x);
                assert(is_chain(g1, p.push(x)) && p.push(x)[0] == start && p.push(x).last() == x);
            }
        }
        assert forall|a: Seq<char>, b: Seq<char>| #[trigger] depends_on(g1, a, b) implies s.contains(b)
            || p1.contains(b) by {
            lemma_contains_concat(p0, u, b);
            if a == c {
                lemma_contains_concat(recorded(g0, c), ds, b);
                if recorded(g0, c).contains(b) {
                    assert(depends_on(g0, c, b));
                } else {
                    lemma_unvisited(ds, s, b);
                }
            } else {
                assert(depends_on(g0, a, b));
            }
        }
        assert forall|a: Seq<char>| #[trigger] g1.dom().contains(a) implies s.contains(a) by {
            if a != c {
                assert(g0.dom().contains(a));
            }
        }
    }

    /// The dependencies the walk found: the packages it visited after its start.
    pub fn dependencies(&self) -> (r: Vec<String>)
        requires
            self.wf(),
        ensures
            string_views(r@) == found(self.seen()),
            string_views(r@).no_duplicates(),
    {
        proof {
            let s = self.seen();
            if s.len() > 0 {
                assert forall|a: int, b: int| 0 <= a < b < s.drop_first().len() implies s.drop_first()[a]
                    != s.drop_first()[b] by {
                    assert(s.drop_first()[a] == s[a + 1] && s.drop_first()[b] == s[b + 1]);
                }
            }
        }
        let mut r: Vec<String> = Vec::new();
        if self.visited.len() == 0 {
            assert(string_views(r@) =~= found(self.seen()));
            return r;
        }
        let mut i: usize = 1;
        while i < self.visited.len()
            invariant
                1 <= i <= self.visited@.len(),
                string_views(r@) == self.seen().subrange(1, i as int),
            decreases self.visited.len() - i,
        {
            let ghost old_r = r@;
            let s = string_of(&chars_of(self.visited[i].as_str()));
            r.push(s);
            proof { crate::text::lemma_string_views_push(old_r, s); }
            assert(string_views(self.visited@)[i as int] == self.visited@[i as int]@);
            assert(string_views(r@) =~= self.seen().subrange(1, i + 1));
            i = i + 1;
        }
        assert(self.seen().subrange(1, self.visited@.len() as int) =~= found(self.seen()));
        r
    }
}

/// A finished walk (nothing left to visit) has visited exactly the packages
/// reachable from its start over the dependencies pushed for each visited
/// package; the dependencies it found are those packages other than the start.
pub proof fn finished_walk_finds_dependencies(w: DependencyWalk, x: Seq<char>)
    requires
        w.wf(),
        w.pending().len() == 0,
    ensures
        w.seen().contains(x) <==> reachable(w.dependency_graph(), w.start(), x),
        found(w.seen()).contains(x) <==> (x != w.start() && reachable(w.dependency_graph(), w.start(), x)),
{
    let g = w.dependency_graph();
    let s = w.seen();
    assert(s.len() > 0);
    if reachable(g, w.start(), x) {
        let p = choose|p: Seq<Seq<char>>| #[trigger] is_chain(g, p) && p[0] == w.start() && p.last() == x;
        lemma_chain_visited(w, p, p.len() - 1);
    }
    assert(s[0] == w.start());
    if found(s).contains(x) {
        let k = choose|k: int| 0 <= k < found(s).len() && found(s)[k] == x;
        assert(s[k + 1] == x);
        assert(s.contains(x));
    }
    if s.contains(x) && x != w.start() {
        let k = choose|k: int| 0 <= k < s.len() && s[k] == x;
        assert(k != 0);
        assert(found(s)[k - 1] == x);
    }
}

proof fn lemma_chain_visited(w: DependencyWalk, p: Seq<Seq<char>>, i: int)
    requires
        w.wf(),
        w.pending().len() == 0,
        is_chain(w.dependency_graph(), p),
        p[0] == w.start(),
        0 <= i < p.len(),
    ensures
        w.seen().contains(p[i]),
    decreases i,
{
    if i == 0 {
        assert(w.seen().len() > 0);
        assert(w.seen()[0] == p[0]);
    } else {
        lemma_chain_visited(w, p, i - 1);
        assert(step_in(w.dependency_graph(), p, i - 1));
        assert(depends_on(w.dependency_graph(), p[i - 1], p[i]));
        assert(!w.pending().contains(p[i]));
    }
}

proof fn lemma_chain_mono(g: Map<Seq<char>, Seq<Seq<char>>>, h: Map<Seq<char>, Seq<Seq<char>>>, p: Seq<Seq<char>>)
    requires
        is_chain(g, p),
        forall|a: Seq<char>, b: Seq<char>| #[trigger] depends_on(g, a, b) ==> depends_on(h, a, b),
    ensures
        is_chain(h, p),
{
    assert forall|i: int| 0 <= i < p.len() - 1 implies #[trigger] step_in(h, p, i) by {
        assert(step_in(g, p, i));
    }
}

proof fn lemma_chain_extend(g: Map<Seq<char>, Seq<Seq<char>>>, p: Seq<Seq<char>>, b: Seq<char>)
    requires
        is_chain(g, p),
        depends_on(g, p.last(), b),
    ensures
        is_chain(g, p.push(b)),
        p.push(b)[0] == p[0],
        p.push(b).last() == b,
{
    let q = p.push(b);
    assert forall|i: int| 0 <= i < q.len() - 1 implies #[trigger] step_in(g, q, i) by {
        if i < p.len() - 1 {
            assert(step_in(g, p, i));
            assert(q[i] == p[i] && q[i + 1] == p[i + 1]);
        } else {
            assert(q[i] == p.last());
            assert(q[i + 1] == b);
        }
    }
}

proof fn lemma_contains_last(s: Seq<Seq<char>>, x: Seq<char>)
    requires
        s.len() > 0,
    ensures
        s.contains(x) <==> (s.drop_last().contains(x) || s.last() == x),
{
    assert(s =~= s.drop_last() + seq![s.last()]);
    lemma_contains_concat(s.drop_last(), seq![s.last()], x);
    if seq![s.last()].contains(x) {
        let k = choose|k: int| 0 <= k < 1 && seq![s.last()][k] == x;
    }
    if s.last() == x {
        assert(seq![s.last()][0] == x);
    }
}

proof fn lemma_walk_pop_union(stack: Seq<Seq<char>>, visited: Seq<Seq<char>>, x: Seq<char>)
    ensures
        (stack.contains(x) || visited.contains(x)) <==> (walk_pop(stack, visited).1.contains(x)
            || visited.contains(x) || walk_pop(stack, visited).0 == Some(x)),
    decreases stack.len(),
{
    if stack.len() > 0 {
        lemma_walk_pop_union(stack.drop_last(), visited, x);
        lemma_contains_last(stack, x);
    }
}

proof fn lemma_unvisited(deps: Seq<Seq<char>>, visited: Seq<Seq<char>>, x: Seq<char>)
    ensures
        unvisited(deps, visited).contains(x) ==> deps.contains(x),
        deps.contains(x) ==> visited.contains(x) || unvisited(deps, visited).contains(x),
    decreases deps.len(),
{
    if deps.len() > 0 {
        let init = deps.drop_last();
        lemma_unvisited(init, visited, x);
        lemma_contains_last(deps, x);
        let tail = if visited.contains(deps.last()) { seq![] } else { seq![deps.last()] };
        lemma_contains_concat(unvisited(init, visited), tail, x);
        if tail.contains(x) {
            let k = choose|k: int| 0 <= k < tail.len() && tail[k] == x;
        }
        if !visited.contains(deps.last()) && deps.last() == x {
            assert(tail[0] == x);
        }
    }
}

fn visited_chars(v: &Vec<String>) -> (r: Vec<Vec<char>>)
    ensures
        views(r@) == string_views(v@),
{
    crate::text::char_vecs_of(v.as_slice())
}

/// A walk step never returns a visited package, and what it returns was
/// waiting on the stack.
pub proof fn walk_returns_unvisited(stack: Seq<Seq<char>>, visited: Seq<Seq<char>>)
    ensures
        match walk_pop(stack, visited).0 {
            Some(x) => !visited.contains(x) && stack.contains(x),
            None => forall|k: int| 0 <= k < stack.len() ==> visited.contains(#[trigger] stack[k]),
        },
        walk_pop(stack, visited).1.len() <= stack.len(),
    decreases stack.len(),
{
    if stack.len() > 0 {
        let init = stack.drop_last();
        walk_returns_unvisited(init, visited);
        if visited.contains(stack.last()) {
            match walk_pop(init, visited).0 {
                Some(x) => {
                    let k = choose|k: int| 0 <= k < init.len() && init[k] == x;
                    assert(stack[k] == x);
                },
                None => {
                    assert forall|k: int| 0 <= k < stack.len() implies visited.contains(#[trigger] stack[k]) by {
                        if k < init.len() {
                            assert(stack[k] == init[k]);
                        }
                    }
                },
            }
        } else {
            assert(stack[stack.len() - 1] == stack.last());
        }
    }
}

/// A configuration that asks to install missing dependencies from source:
/// its mode is `source` (it contains `mode=source`).
pub open spec fn installs_from_source(conf: Seq<char>) -> bool {
    contains(conf, "mode=source"@)
}

/// Whether missing dependencies are installed from source.
pub fn installs_from_source_of(conf: &str) -> (r: bool)
    ensures
        r == installs_from_source(conf@),
{
    contains_exec(&chars_of(conf), &chars_of("mode=source"))
}

} // verus!
