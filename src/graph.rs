//! Taint propagation over a function's control-flow graph.
//!
//! Nodes are the blocks of a body and edges its control-flow successors. Some
//! nodes carry source taints, some are sinks; `propagate` returns the union of
//! the taints of every node from which some sink can be reached.
use vstd::prelude::*;
use vstd::set_lib::*;

use crate::program::{body_edge, successors, Body};

verus! {

/// A taint value: a set of atoms with an empty value, a containment test and
/// a join that unions the atoms.
pub trait GraphTaint: Sized {
    /// The atoms that the value holds.
    spec fn atoms(&self) -> Set<nat>;

    fn empty() -> (r: Self)
        ensures
            r.atoms() == Set::<nat>::empty(),
    ;

    fn is_empty(&self) -> (r: bool)
        ensures
            r == (self.atoms() == Set::<nat>::empty()),
    ;

    fn contains(&self, taint: &Self) -> (r: bool)
        ensures
            r == taint.atoms().subset_of(self.atoms()),
    ;

    fn join(&mut self, taint: &Self)
        ensures
            final(self).atoms() == old(self).atoms().union(taint.atoms()),
    ;
}

/// The mathematical graph behind a `TaintAnalyzer`: successor lists, the
/// atoms each node is a source of, and which nodes are sinks.
pub struct TaintGraph {
    pub edges: Seq<Seq<usize>>,
    pub sources: Seq<Set<nat>>,
    pub sinks: Seq<bool>,
}

impl TaintGraph {
    pub open spec fn len(self) -> int {
        self.edges.len() as int
    }

    pub open spec fn wf(self) -> bool {
        &&& self.sources.len() == self.edges.len()
        &&& self.sinks.len() == self.edges.len()
        &&& forall|u: int, k: int|
            0 <= u < self.len() && 0 <= k < self.edges[u].len() ==> #[trigger] self.edges[u][k]
                < self.len()
    }

    pub open spec fn edge(self, u: int, v: int) -> bool {
        &&& 0 <= u < self.len()
        &&& 0 <= v < self.len()
        &&& self.edges[u].contains(v as usize)
    }

    /// `p` is a walk along edges, of at least one node.
    pub open spec fn is_path(self, p: Seq<int>) -> bool {
        &&& p.len() >= 1
        &&& forall|k: int| 0 <= k < p.len() ==> 0 <= #[trigger] p[k] < self.len()
        &&& forall|k: int| 0 <= k < p.len() - 1 ==> self.edge(#[trigger] p[k], p[k + 1])
    }

    /// `v` can be reached from `u` by following zero or more edges.
    pub open spec fn reaches(self, u: int, v: int) -> bool {
        exists|p: Seq<int>| #[trigger] self.is_path(p) && p[0] == u && p.last() == v
    }

    pub open spec fn reaches_sink(self, u: int) -> bool {
        exists|s: int| 0 <= s < self.len() && self.sinks[s] && #[trigger] self.reaches(u, s)
    }

    /// The union of the source atoms of every node that reaches a sink.
    pub open spec fn propagated(self) -> Set<nat> {
        Set::new(
            |a: nat|
                exists|u: int|
                    0 <= u < self.len() && self.reaches_sink(u) && #[trigger] self.sources[u].contains(
                        a,
                    ),
        )
    }

    pub open spec fn with_source(self, node: int, atoms: Set<nat>) -> TaintGraph {
        TaintGraph {
            edges: self.edges,
            sources: self.sources.update(node, self.sources[node].union(atoms)),
            sinks: self.sinks,
        }
    }

    pub open spec fn with_sink(self, node: int) -> TaintGraph {
        TaintGraph { edges: self.edges, sources: self.sources, sinks: self.sinks.update(node, true) }
    }
}

proof fn lemma_path_prepend(g: TaintGraph, w: int, v: int, s: int)
    requires
        g.edge(w, v),
        g.reaches(v, s),
    ensures
        g.reaches(w, s),
{
    let p = choose|p: Seq<int>| #[trigger] g.is_path(p) && p[0] == v && p.last() == s;
    let q = seq![w] + p;
    assert forall|k: int| 0 <= k < q.len() - 1 implies g.edge(#[trigger] q[k], q[k + 1]) by {
        if k > 0 {
            assert(q[k] == p[k - 1]);
            assert(q[k + 1] == p[k]);
        }
    }
    assert forall|k: int| 0 <= k < q.len() implies 0 <= #[trigger] q[k] < g.len() by {
        if k > 0 {
            assert(q[k] == p[k - 1]);
        }
    }
    assert(g.is_path(q) && q[0] == w && q.last() == s);
}

proof fn lemma_reaches_self(g: TaintGraph, u: int)
    requires
        0 <= u < g.len(),
    ensures
        g.reaches(u, u),
{
    let p = seq![u];
    assert(g.is_path(p) && p[0] == u && p.last() == u);
}

pub proof fn lemma_push_contains<A>(s: Seq<A>, a: A, x: A)
    ensures
        s.push(a).contains(x) <==> (s.contains(x) || x == a),
{
    if s.push(a).contains(x) {
        let k = choose|k: int| 0 <= k < s.push(a).len() && #[trigger] s.push(a)[k] == x;
        if k < s.len() {
            assert(s[k] == x);
        }
    }
    if s.contains(x) {
        let k = choose|k: int| 0 <= k < s.len() && #[trigger] s[k] == x;
        assert(s.push(a)[k] == x);
    }
    if x == a {
        assert(s.push(a)[s.len() as int] == x);
    }
}

/// In a node set that holds `s` and is closed under predecessors, every node
/// with a path to `s` lies.
proof fn lemma_closed_holds_path(g: TaintGraph, visited: Seq<bool>, p: Seq<int>)
    requires
        visited.len() == g.len(),
        g.is_path(p),
        visited[p.last()],
        forall|v: int, w: int|
            0 <= v < g.len() && 0 <= w < g.len() && visited[v] && #[trigger] g.edge(w, v)
                ==> visited[w],
    ensures
        visited[p[0]],
    decreases p.len(),
{
    if p.len() > 1 {
        let q = p.drop_first();
        assert forall|k: int| 0 <= k < q.len() - 1 implies g.edge(#[trigger] q[k], q[k + 1]) by {
            assert(q[k] == p[k + 1]);
            assert(g.edge(p[k + 1], p[k + 2]));
        }
        assert forall|k: int| 0 <= k < q.len() implies 0 <= #[trigger] q[k] < g.len() by {
            assert(q[k] == p[k + 1]);
        }
        lemma_closed_holds_path(g, visited, q);
        assert(g.edge(p[0], p[1]));
    }
}

/// Two graphs with the same nodes, edges, sources and sinks propagate the same
/// atoms, however their successor lists are laid out.
pub proof fn lemma_propagated_by_edges(g: TaintGraph, h: TaintGraph)
    requires
        g.len() == h.len(),
        forall|u: int, v: int| g.edge(u, v) <==> h.edge(u, v),
        g.sources == h.sources,
        g.sinks == h.sinks,
    ensures
        g.propagated() == h.propagated(),
{
    assert forall|p: Seq<int>| g.is_path(p) <==> h.is_path(p) by {
        if g.is_path(p) {
            assert forall|k: int| 0 <= k < p.len() - 1 implies h.edge(#[trigger] p[k], p[k + 1]) by {
                assert(g.edge(p[k], p[k + 1]));
            }
        }
        if h.is_path(p) {
            assert forall|k: int| 0 <= k < p.len() - 1 implies g.edge(#[trigger] p[k], p[k + 1]) by {
                assert(h.edge(p[k], p[k + 1]));
            }
        }
    }
    assert forall|u: int, s: int| g.reaches(u, s) <==> h.reaches(u, s) by {
        if g.reaches(u, s) {
            let p = choose|p: Seq<int>| #[trigger] g.is_path(p) && p[0] == u && p.last() == s;
            assert(h.is_path(p));
        }
        if h.reaches(u, s) {
            let p = choose|p: Seq<int>| #[trigger] h.is_path(p) && p[0] == u && p.last() == s;
            assert(g.is_path(p));
        }
    }
    assert forall|u: int| g.reaches_sink(u) <==> h.reaches_sink(u) by {
        if g.reaches_sink(u) {
            let s = choose|s: int| 0 <= s < g.len() && g.sinks[s] && #[trigger] g.reaches(u, s);
            assert(h.reaches(u, s));
        }
        if h.reaches_sink(u) {
            let s = choose|s: int| 0 <= s < h.len() && h.sinks[s] && #[trigger] h.reaches(u, s);
            assert(g.reaches(u, s));
        }
    }
    assert(g.propagated() =~= h.propagated());
}

/// Marking the same source taint twice on a node gives the same propagated
/// result as marking it once.
pub proof fn lemma_mark_source_idempotent(g: TaintGraph, node: int, atoms: Set<nat>)
    requires
        g.wf(),
        0 <= node < g.len(),
    ensures
        g.with_source(node, atoms).with_source(node, atoms).propagated() == g.with_source(
            node,
            atoms,
        ).propagated(),
{
    let once = g.with_source(node, atoms);
    let twice = once.with_source(node, atoms);
    assert(once.sources[node].union(atoms) =~= once.sources[node]);
    assert(twice.sources =~= once.sources);
    assert(twice == once);
}

/// Adding a source taint to any node never removes an atom from the
/// propagated result.
pub proof fn lemma_mark_source_monotone(g: TaintGraph, node: int, atoms: Set<nat>)
    requires
        g.wf(),
        0 <= node < g.len(),
    ensures
        g.propagated().subset_of(g.with_source(node, atoms).propagated()),
{
    let h = g.with_source(node, atoms);
    assert forall|a: nat| g.propagated().contains(a) implies h.propagated().contains(a) by {
        let u = choose|u: int|
            0 <= u < g.len() && g.reaches_sink(u) && #[trigger] g.sources[u].contains(a);
        let s = choose|s: int| 0 <= s < g.len() && g.sinks[s] && #[trigger] g.reaches(u, s);
        let p = choose|p: Seq<int>| #[trigger] g.is_path(p) && p[0] == u && p.last() == s;
        assert(h.is_path(p));
        assert(h.reaches(u, s));
        assert(h.reaches_sink(u));
        assert(h.sources[u].contains(a));
    }
}

/// A graph without sinks propagates nothing, whatever its sources.
pub proof fn lemma_no_sink_propagates_nothing(g: TaintGraph)
    requires
        g.wf(),
        forall|s: int| 0 <= s < g.len() ==> !g.sinks[s],
    ensures
        g.propagated() == Set::<nat>::empty(),
{
    assert(g.propagated() =~= Set::<nat>::empty());
}

/// A node that is both a source and a sink, on a cycle through itself,
/// contributes its own taint, once: when no other node is a source, that
/// taint is the whole result.
pub proof fn lemma_source_sink_on_cycle(g: TaintGraph, node: int, cycle: Seq<int>)
    requires
        g.wf(),
        0 <= node < g.len(),
        g.sinks[node],
        g.is_path(cycle),
        cycle.len() > 1,
        cycle[0] == node,
        cycle.last() == node,
        forall|u: int| 0 <= u < g.len() && u != node ==> g.sources[u] == Set::<nat>::empty(),
    ensures
        g.propagated() == g.sources[node],
{
    lemma_reaches_self(g, node);
    assert(g.reaches_sink(node));
    assert forall|a: nat| g.propagated().contains(a) <==> g.sources[node].contains(a) by {
        if g.propagated().contains(a) {
            let u = choose|u: int|
                0 <= u < g.len() && g.reaches_sink(u) && #[trigger] g.sources[u].contains(a);
            if u != node {
                assert(g.sources[u] == Set::<nat>::empty());
            }
        }
    }
    assert(g.propagated() =~= g.sources[node]);
}

/// Reverse-reachability taint analysis over the blocks of one body.
pub struct TaintAnalyzer<T> {
    succs: Vec<Vec<usize>>,
    sources: Vec<T>,
    sinks: Vec<bool>,
}

impl<T: GraphTaint> View for TaintAnalyzer<T> {
    type V = TaintGraph;

    closed spec fn view(&self) -> TaintGraph {
        TaintGraph {
            edges: self.succs@.map_values(|s: Vec<usize>| s@),
            sources: self.sources@.map_values(|t: T| t.atoms()),
            sinks: self.sinks@,
        }
    }
}

impl<T: GraphTaint> TaintAnalyzer<T> {
    pub open spec fn wf(&self) -> bool {
        self@.wf()
    }

    /// One node per block of `body`, an edge for each successor of a block's
    /// terminator that is a block of the body, no sources and no sinks.
    pub fn new(body: &Body) -> (r: Self)
        ensures
            r.wf(),
            r@.len() == body.blocks@.len(),
            forall|u: int, v: int| r@.edge(u, v) <==> body_edge(*body, u, v),
            forall|u: int| 0 <= u < r@.len() ==> r@.sources[u] == Set::<nat>::empty(),
            forall|u: int| 0 <= u < r@.len() ==> !r@.sinks[u],
    {
        let n = body.blocks.len();
        let mut succs: Vec<Vec<usize>> = Vec::new();
        let mut sources: Vec<T> = Vec::new();
        let mut sinks: Vec<bool> = Vec::new();
        let mut u: usize = 0;
        while u < n
            invariant
                u <= n,
                n == body.blocks@.len(),
                succs@.len() == u,
                sources@.len() == u,
                sinks@.len() == u,
                forall|i: int, k: int|
                    0 <= i < u && 0 <= k < succs@[i]@.len() ==> #[trigger] succs@[i]@[k] < n,
                forall|i: int, v: int|
                    0 <= i < u && 0 <= v < n ==> (succs@[i]@.contains(v as usize)
                        <==> body_edge(*body, i, v)),
                forall|i: int| 0 <= i < u ==> (#[trigger] sources@[i]).atoms() == Set::<nat>::empty(),
                forall|i: int| 0 <= i < u ==> !sinks@[i],
            decreases n - u,
        {
            let targets = successors(&body.blocks[u].terminator);
            let mut out: Vec<usize> = Vec::new();
            let mut j: usize = 0;
            while j < targets.len()
                invariant
                    j <= targets@.len(),
                    n == body.blocks@.len(),
                    forall|k: int| 0 <= k < out@.len() ==> #[trigger] out@[k] < n,
                    forall|v: usize|
                        out@.contains(v) <==> (v < n && targets@.subrange(0, j as int).contains(v)),
                decreases targets@.len() - j,
            {
                let v = targets[j];
                proof {
                    assert(targets@.subrange(0, j + 1) == targets@.subrange(0, j as int).push(v));
                }
                let ghost before = out@;
                if v < n {
                    out.push(v);
                }
                proof {
                    assert forall|x: usize|
                        out@.contains(x) <==> (x < n && targets@.subrange(0, j + 1).contains(x)) by {
                        lemma_push_contains(targets@.subrange(0, j as int), v, x);
                        lemma_push_contains(before, v, x);
                    }
                }
                j = j + 1;
            }
            proof {
                assert(targets@.subrange(0, j as int) == targets@);
            }
            succs.push(out);
            sources.push(T::empty());
            sinks.push(false);
            u = u + 1;
        }
        let r = TaintAnalyzer { succs, sources, sinks };
        assert forall|a: int, v: int| r@.edge(a, v) <==> body_edge(*body, a, v) by {
            if 0 <= a < n && 0 <= v < n {
                assert(r@.edges[a] == succs@[a]@);
            }
        }
        r
    }

    /// Adds `taint` to the source taint of `node`.
    pub fn mark_source(&mut self, node: usize, taint: &T)
        requires
            old(self).wf(),
            node < old(self)@.len(),
        ensures
            final(self).wf(),
            final(self)@ == old(self)@.with_source(node as int, taint.atoms()),
    {
        self.sources[node].join(taint);
        assert(self@.sources =~= old(self)@.with_source(node as int, taint.atoms()).sources);
        assert(self@.edges =~= old(self)@.edges);
    }

    /// Makes `node` a sink.
    pub fn mark_sink(&mut self, node: usize)
        requires
            old(self).wf(),
            node < old(self)@.len(),
        ensures
            final(self).wf(),
            final(self)@ == old(self)@.with_sink(node as int),
    {
        self.sinks.set(node, true);
        assert(self@.sinks =~= old(self)@.with_sink(node as int).sinks);
        assert(self@.sources =~= old(self)@.sources);
        assert(self@.edges =~= old(self)@.edges);
    }

    /// The union of the source taints of every node from which a sink can be
    /// reached, the sink itself included.
    pub fn propagate(&self) -> (r: T)
        requires
            self.wf(),
        ensures
            r.atoms() == self@.propagated(),
    {
        let ghost g = self@;
        let n = self.succs.len();
        // Predecessor lists.
        let mut preds: Vec<Vec<usize>> = Vec::new();
        let mut i: usize = 0;
        while i < n
            invariant
                i <= n,
                preds@.len() == i,
                forall|k: int| 0 <= k < i ==> (#[trigger] preds@[k])@.len() == 0,
            decreases n - i,
        {
            preds.push(Vec::new());
            i = i + 1;
        }
        let mut u: usize = 0;
        while u < n
            invariant
                g == self@,
                g.wf(),
                n == g.len(),
                u <= n,
                preds@.len() == n,
                forall|v: int, k: int|
                    0 <= v < n && 0 <= k < preds@[v]@.len() ==> #[trigger] preds@[v]@[k] < u,
                forall|v: int, w: int|
                    0 <= v < n && 0 <= w < u ==> (preds@[v]@.contains(w as usize) <==> g.edge(
                        w,
                        v,
                    )),
            decreases n - u,
        {
            let out = &self.succs[u];
            assert(out@ == g.edges[u as int]);
            let mut j: usize = 0;
            while j < out.len()
                invariant
                    g == self@,
                    g.wf(),
                    n == g.len(),
                    u < n,
                    out@ == g.edges[u as int],
                    j <= out@.len(),
                    preds@.len() == n,
                    forall|v: int, k: int|
                        0 <= v < n && 0 <= k < preds@[v]@.len() ==> #[trigger] preds@[v]@[k] <= u,
                    forall|v: int, w: int|
                        0 <= v < n && 0 <= w < u ==> (preds@[v]@.contains(w as usize)
                            <==> g.edge(w, v)),
                    forall|v: int|
                        0 <= v < n ==> (preds@[v]@.contains(u) <==> out@.subrange(
                            0,
                            j as int,
                        ).contains(v as usize)),
                decreases out@.len() - j,
            {
                let v = out[j];
                assert(v < n);
                let ghost before = preds@;
                preds[v].push(u);
                proof {
                    assert(out@.subrange(0, j + 1) == out@.subrange(0, j as int).push(v));
                    assert forall|x: int, w: int|
                        0 <= x < n && 0 <= w < u implies (preds@[x]@.contains(w as usize)
                            <==> g.edge(w, x)) by {
                        if x == v {
                            assert(preds@[x]@ == before[x]@.push(u));
                            if preds@[x]@.contains(w as usize) {
                                let k = choose|k: int|
                                    0 <= k < preds@[x]@.len() && #[trigger] preds@[x]@[k] == w as usize;
                                if k < before[x]@.len() {
                                    assert(before[x]@[k] == w as usize);
                                }
                            }
                            if before[x]@.contains(w as usize) {
                                let k = choose|k: int|
                                    0 <= k < before[x]@.len() && #[trigger] before[x]@[k] == w as usize;
                                assert(preds@[x]@[k] == w as usize);
                            }
                        } else {
                            assert(preds@[x] == before[x]);
                        }
                    }
                    assert forall|x: int|
                        0 <= x < n implies (preds@[x]@.contains(u) <==> out@.subrange(
                            0,
                            j + 1,
                        ).contains(x as usize)) by {
                        if x == v {
                            assert(preds@[x]@ == before[x]@.push(u));
                            assert(preds@[x]@[before[x]@.len() as int] == u);
                            assert(out@.subrange(0, j + 1)[j as int] == v);
                        } else {
                            assert(preds@[x] == before[x]);
                            if out@.subrange(0, j + 1).contains(x as usize) {
                                let k = choose|k: int|
                                    0 <= k < j + 1 && #[trigger] out@.subrange(0, j + 1)[k] == x as usize;
                                assert(out@.subrange(0, j as int)[k] == x as usize);
                            }
                            if out@.subrange(0, j as int).contains(x as usize) {
                                let k = choose|k: int|
                                    0 <= k < j && #[trigger] out@.subrange(0, j as int)[k] == x as usize;
                                assert(out@.subrange(0, j + 1)[k] == x as usize);
                            }
                        }
                    }
                    assert forall|x: int, k: int|
                        0 <= x < n && 0 <= k < preds@[x]@.len() implies #[trigger] preds@[x]@[k]
                        <= u by {
                        if x == v && k == before[x]@.len() {
                        } else if x == v {
                            assert(preds@[x]@[k] == before[x]@[k]);
                        } else {
                            assert(preds@[x] == before[x]);
                        }
                    }
                }
                j = j + 1;
            }
            proof {
                assert(out@.subrange(0, j as int) == out@);
            }
            u = u + 1;
        }
        // Backward search from the sinks.
        let mut visited: Vec<bool> = Vec::new();
        let mut work: Vec<usize> = Vec::new();
        let ghost mut seen: Set<int> = Set::empty();
        let mut s: usize = 0;
        while s < n
            invariant
                g == self@,
                g.wf(),
                n == g.len(),
                s <= n,
                visited@.len() == s,
                forall|k: int| 0 <= k < work@.len() ==> #[trigger] work@[k] < s,
                forall|k: int| 0 <= k < work@.len() ==> visited@[#[trigger] work@[k] as int],
                forall|x: int| 0 <= x < s ==> (visited@[x] <==> g.sinks[x]),
                forall|x: int| 0 <= x < s && visited@[x] ==> work@.contains(x as usize),
                forall|x: int| seen.contains(x) <==> 0 <= x < s && visited@[x],
                seen.finite(),
                work@.len() == seen.len(),
            decreases n - s,
        {
            let is_sink = self.sinks[s];
            let ghost work_before = work@;
            visited.push(is_sink);
            if is_sink {
                work.push(s);
                proof {
                    seen = seen.insert(s as int);
                }
            }
            proof {
                assert forall|x: int| 0 <= x < s + 1 && visited@[x] implies work@.contains(
                    x as usize,
                ) by {
                    lemma_push_contains(work_before, s, x as usize);
                }
            }
            s = s + 1;
        }
        proof {
            assert forall|x: int| 0 <= x < n && visited@[x] implies g.reaches_sink(x) by {
                lemma_reaches_self(g, x);
            }
        }
        while work.len() > 0
            invariant
                g == self@,
                g.wf(),
                n == g.len(),
                preds@.len() == n,
                forall|v: int, k: int|
                    0 <= v < n && 0 <= k < preds@[v]@.len() ==> #[trigger] preds@[v]@[k] < n,
                forall|v: int, w: int|
                    0 <= v < n && 0 <= w < n ==> (preds@[v]@.contains(w as usize) <==> g.edge(
                        w,
                        v,
                    )),
                visited@.len() == n,
                forall|k: int| 0 <= k < work@.len() ==> #[trigger] work@[k] < n,
                forall|k: int| 0 <= k < work@.len() ==> visited@[#[trigger] work@[k] as int],
                forall|x: int| 0 <= x < n && g.sinks[x] ==> visited@[x],
                forall|x: int| 0 <= x < n && visited@[x] ==> g.reaches_sink(x),
                forall|v: int, w: int|
                    0 <= v < n && 0 <= w < n && visited@[v] && !work@.contains(v as usize)
                        && #[trigger] g.edge(w, v) ==> visited@[w],
                forall|x: int| seen.contains(x) <==> 0 <= x < n && visited@[x],
                seen.finite(),
                work@.len() <= seen.len(),
            decreases 2 * (n - seen.len()) + work@.len(),
        {
            proof {
                assert(seen.subset_of(set_int_range(0, n as int)));
                lemma_int_range(0, n as int);
                lemma_len_subset(seen, set_int_range(0, n as int));
            }
            let ghost work_full = work@;
            let v = work.pop().unwrap();
            let ghost seen_before = seen;
            let ghost work_before = work@;
            proof {
                assert(work_full == work_before.push(v));
                assert forall|x: int| #![trigger work@.contains(x as usize)]
                    0 <= x < n && x != v && !work@.contains(x as usize) implies !work_full.contains(
                    x as usize,
                ) by {
                    lemma_push_contains(work_before, v, x as usize);
                }
            }
            let ps = &preds[v];
            let mut k: usize = 0;
            while k < ps.len()
                invariant
                    g == self@,
                    g.wf(),
                    n == g.len(),
                    v < n,
                    visited@[v as int],
                    ps@ == preds@[v as int]@,
                    forall|i: int| 0 <= i < ps@.len() ==> #[trigger] ps@[i] < n,
                    forall|i: int| 0 <= i < ps@.len() ==> g.edge(#[trigger] ps@[i] as int, v as int),
                    k <= ps@.len(),
                    visited@.len() == n,
                    forall|i: int| 0 <= i < work@.len() ==> #[trigger] work@[i] < n,
                    forall|i: int| 0 <= i < work@.len() ==> visited@[#[trigger] work@[i] as int],
                    forall|x: int| 0 <= x < n && g.sinks[x] ==> visited@[x],
                    forall|x: int| 0 <= x < n && visited@[x] ==> g.reaches_sink(x),
                    forall|x: int, w: int|
                        0 <= x < n && 0 <= w < n && x != v && visited@[x] && !work@.contains(
                            x as usize,
                        ) && #[trigger] g.edge(w, x) ==> visited@[w],
                    forall|i: int| 0 <= i < k ==> visited@[#[trigger] ps@[i] as int],
                    forall|x: int| seen.contains(x) <==> 0 <= x < n && visited@[x],
                    seen.finite(),
                    seen.len() >= seen_before.len(),
                    work@.len() + 2 * seen_before.len() <= work_before.len() + 2 * seen.len(),
                    work@.len() <= seen.len(),
                    seen.subset_of(set_int_range(0, n as int)),
                decreases ps@.len() - k,
            {
                let w = ps[k];
                if !visited[w] {
                    proof {
                        assert(g.reaches_sink(v as int));
                        let s = choose|s: int|
                            0 <= s < g.len() && g.sinks[s] && #[trigger] g.reaches(v as int, s);
                        lemma_path_prepend(g, w as int, v as int, s);
                        assert(g.reaches(w as int, s));
                        assert(!seen.contains(w as int));
                    }
                    let ghost work_mid = work@;
                    visited.set(w, true);
                    work.push(w);
                    proof {
                        seen = seen.insert(w as int);
                        assert forall|x: int, y: int|
                            0 <= x < n && 0 <= y < n && x != v && visited@[x] && !work@.contains(
                                x as usize,
                            ) && #[trigger] g.edge(y, x) implies visited@[y] by {
                            if x != w {
                                assert(!work_mid.contains(x as usize)) by {
                                    if work_mid.contains(x as usize) {
                                        let i = choose|i: int|
                                            0 <= i < work_mid.len() && #[trigger] work_mid[i] == x as usize;
                                        assert(work@[i] == x as usize);
                                    }
                                }
                            } else {
                                assert(work@[work@.len() - 1] == w);
                            }
                        }
                    }
                }
                k = k + 1;
            }
            proof {
                lemma_int_range(0, n as int);
                lemma_len_subset(seen, set_int_range(0, n as int));
                assert forall|x: int, w: int|
                    0 <= x < n && 0 <= w < n && visited@[x] && !work@.contains(x as usize)
                        && #[trigger] g.edge(w, x) implies visited@[w] by {
                    if x == v {
                        assert(preds@[v as int]@.contains(w as usize));
                        let i = choose|i: int| 0 <= i < ps@.len() && #[trigger] ps@[i] == w as usize;
                        assert(visited@[ps@[i] as int]);
                    }
                }
            }
        }
        proof {
            assert forall|x: int| 0 <= x < n implies (visited@[x] <==> g.reaches_sink(x)) by {
                if g.reaches_sink(x) {
                    let s = choose|s: int|
                        0 <= s < g.len() && g.sinks[s] && #[trigger] g.reaches(x, s);
                    let p = choose|p: Seq<int>| #[trigger] g.is_path(p) && p[0] == x && p.last() == s;
                    lemma_closed_holds_path(g, visited@, p);
                }
            }
        }
        // Union of the sources of the visited nodes.
        let mut acc = T::empty();
        let mut x: usize = 0;
        while x < n
            invariant
                g == self@,
                g.wf(),
                n == g.len(),
                x <= n,
                visited@.len() == n,
                forall|y: int| 0 <= y < n ==> (visited@[y] <==> g.reaches_sink(y)),
                acc.atoms() == Set::new(
                    |a: nat|
                        exists|y: int|
                            0 <= y < x && g.reaches_sink(y) && #[trigger] g.sources[y].contains(a),
                ),
            decreases n - x,
        {
            let ghost before = acc.atoms();
            if visited[x] {
                acc.join(&self.sources[x]);
                assert(g.sources[x as int] == self.sources@[x as int].atoms());
            }
            proof {
                let next = Set::new(
                    |a: nat|
                        exists|y: int|
                            0 <= y < x + 1 && g.reaches_sink(y) && #[trigger] g.sources[y].contains(
                                a,
                            ),
                );
                assert forall|a: nat| acc.atoms().contains(a) <==> next.contains(a) by {
                    if acc.atoms().contains(a) && !before.contains(a) {
                        assert(g.sources[x as int].contains(a));
                    }
                    if next.contains(a) {
                        let y = choose|y: int|
                            0 <= y < x + 1 && g.reaches_sink(y) && #[trigger] g.sources[y].contains(
                                a,
                            );
                        if y < x {
                            assert(before.contains(a));
                        }
                    }
                }
                assert(acc.atoms() =~= next);
            }
            x = x + 1;
        }
        assert(acc.atoms() =~= g.propagated());
        acc
    }
}

} // verus!
