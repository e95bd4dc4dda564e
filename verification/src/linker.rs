//! The dependency graph of a project: building it from the IR, the impact
//! of a change, cycle detection and a dependency order.
use vstd::prelude::*;
use crate::ordmap::{StrMap, StrSet, lex_lt, lookup, key_index, lemma_key_index};
use crate::schema::{Component, Function, ProjectIR};
use crate::text::{concat_strs, debug_string_list, debug_strings};

verus! {

/// Component keys and the dependencies their functions declare.
///
/// `edges` maps a component key to the dependencies of all its functions,
/// function by function in name order; `nodes` holds every key and every
/// dependency.
pub struct DependencyGraph {
    pub nodes: StrSet,
    pub edges: StrMap<Vec<String>>,
}

/// The dependencies of the functions `fs`, one function after the other.
pub open spec fn fn_deps(fs: Seq<(Seq<char>, Function)>) -> Seq<Seq<char>>
    decreases fs.len(),
{
    if fs.len() == 0 {
        seq![]
    } else {
        fn_deps(fs.drop_last()) + fs.last().1.dependencies.view()
    }
}

/// The dependencies of a component: those of all its functions.
pub open spec fn comp_deps(c: Component) -> Seq<Seq<char>> {
    fn_deps(c.functions.view())
}

/// Every key and every dependency of the components, in order of appearance.
pub open spec fn node_list(cs: Seq<(Seq<char>, Component)>) -> Seq<Seq<char>>
    decreases cs.len(),
{
    if cs.len() == 0 {
        seq![]
    } else {
        node_list(cs.drop_last()) + seq![cs.last().0] + comp_deps(cs.last().1)
    }
}

/// All edge targets, entry after entry.
pub open spec fn targets(es: Seq<(Seq<char>, Vec<String>)>) -> Seq<Seq<char>>
    decreases es.len(),
{
    if es.len() == 0 {
        seq![]
    } else {
        targets(es.drop_last()) + es.last().1.deep_view()
    }
}

proof fn lemma_targets_contain(es: Seq<(Seq<char>, Vec<String>)>, i: int, y: Seq<char>)
    requires
        0 <= i < es.len(),
        es[i].1.deep_view().contains(y),
    ensures
        targets(es).contains(y),
    decreases es.len(),
{
    if i == es.len() - 1 {
        let k = choose|k: int| 0 <= k < es[i].1.deep_view().len() && es[i].1.deep_view()[k] == y;
        let t = targets(es.drop_last());
        assert((t + es.last().1.deep_view())[t.len() + k] == y);
    } else {
        assert(es.drop_last()[i] == es[i]);
        lemma_targets_contain(es.drop_last(), i, y);
        let t = targets(es.drop_last());
        let k = choose|k: int| 0 <= k < t.len() && t[k] == y;
        assert((t + es.last().1.deep_view())[k] == y);
    }
}

/// The elements of a concatenation are those of its parts.
pub proof fn lemma_concat_to_set(a: Seq<Seq<char>>, b: Seq<Seq<char>>)
    ensures
        (a + b).to_set() == a.to_set().union(b.to_set()),
{
    assert forall|x: Seq<char>| (a + b).to_set().contains(x) == a.to_set().union(b.to_set()).contains(x) by {
        if (a + b).contains(x) {
            let k = choose|k: int| 0 <= k < (a + b).len() && (a + b)[k] == x;
            if k < a.len() {
                assert(a[k] == x);
            } else {
                assert(b[k - a.len()] == x);
            }
        }
        if a.contains(x) {
            let k = choose|k: int| 0 <= k < a.len() && a[k] == x;
            assert((a + b)[k] == x);
        }
        if b.contains(x) {
            let k = choose|k: int| 0 <= k < b.len() && b[k] == x;
            assert((a + b)[a.len() + k] == x);
        }
    }
    assert((a + b).to_set() =~= a.to_set().union(b.to_set()));
}

/// A one-element sequence holds exactly that element.
pub proof fn lemma_single_to_set(x: Seq<char>)
    ensures
        seq![x].to_set() == set![x],
{
    assert forall|y: Seq<char>| seq![x].to_set().contains(y) == set![x].contains(y) by {
        if y == x {
            assert(seq![x][0] == y);
        }
    }
    assert(seq![x].to_set() =~= set![x]);
}

/// Appends the dependencies of one function to `deps` and records them as nodes.
fn collect_fn_deps(f: &Function, deps: &mut Vec<String>, nodes: &mut StrSet)
    ensures
        final(deps).deep_view() == old(deps).deep_view() + f.dependencies.view(),
        final(nodes).view().to_set() == old(nodes).view().to_set().union(
            f.dependencies.view().to_set(),
        ),
{
    let ghost d0 = deps.deep_view();
    let ghost n0 = nodes.view().to_set();
    let ghost fd = f.dependencies.view();
    let m = f.dependencies.len();
    let mut k: usize = 0;
    while k < m
        invariant
            m == fd.len(),
            fd == f.dependencies.view(),
            k <= m,
            deps.deep_view() == d0 + fd.take(k as int),
            nodes.view().to_set() == n0.union(fd.take(k as int).to_set()),
        decreases m - k,
    {
        let d = f.dependencies.at(k);
        crate::text::push_piece_string(deps, d.clone());
        nodes.insert(d.clone());
        proof {
            assert(fd.take(k + 1) =~= fd.take(k as int).push(fd[k as int]));
            assert(fd.take(k + 1) =~= fd.take(k as int) + seq![fd[k as int]]);
            lemma_concat_to_set(fd.take(k as int), seq![fd[k as int]]);
            lemma_single_to_set(fd[k as int]);
            assert(n0.union(fd.take(k + 1).to_set()) =~= n0.union(fd.take(k as int).to_set()).insert(
                fd[k as int],
            ));
        }
        k += 1;
    }
    assert(fd.take(m as int) =~= fd);
}

/// The dependencies of all functions of a component, recorded as nodes too.
fn collect_comp_deps(c: &Component, nodes: &mut StrSet) -> (deps: Vec<String>)
    ensures
        deps.deep_view() == comp_deps(*c),
        final(nodes).view().to_set() == old(nodes).view().to_set().union(
            comp_deps(*c).to_set(),
        ),
{
    let ghost fs = c.functions.view();
    let ghost n0 = nodes.view().to_set();
    let mut deps: Vec<String> = Vec::new();
    let m = c.functions.len();
    let mut j: usize = 0;
    assert(deps.deep_view() =~= fn_deps(fs.take(0)));
    while j < m
        invariant
            fs == c.functions.view(),
            m == fs.len(),
            j <= m,
            deps.deep_view() == fn_deps(fs.take(j as int)),
            nodes.view().to_set() == n0.union(fn_deps(fs.take(j as int)).to_set()),
        decreases m - j,
    {
        let f = c.functions.value_at(j);
        collect_fn_deps(f, &mut deps, nodes);
        proof {
            assert(fs.take(j + 1).drop_last() =~= fs.take(j as int));
            lemma_concat_to_set(fn_deps(fs.take(j as int)), f.dependencies.view());
            assert(n0.union(fn_deps(fs.take(j + 1)).to_set()) =~= n0.union(
                fn_deps(fs.take(j as int)).to_set(),
            ).union(f.dependencies.view().to_set()));
        }
        j += 1;
    }
    assert(fs.take(m as int) =~= fs);
    deps
}

/// `y` is the view of some string of `q`.
pub open spec fn in_queue(q: Seq<String>, y: Seq<char>) -> bool {
    exists|j: int| 0 <= j < q.len() && #[trigger] q[j]@ == y
}

proof fn lemma_in_queue_pop(q: Seq<String>, last: String)
    ensures
        forall|y: Seq<char>| in_queue(q.push(last), y) ==> in_queue(q, y) || y == last@,
{
    assert forall|y: Seq<char>| in_queue(q.push(last), y) implies in_queue(q, y) || y == last@ by {
        let j = choose|j: int| 0 <= j < q.push(last).len() && q.push(last)[j]@ == y;
        if j < q.len() {
            assert(q[j]@ == y);
        }
    }
}

proof fn lemma_universe_finite(s: Seq<Seq<char>>)
    ensures
        s.to_set().finite(),
        s.to_set().len() <= s.len(),
{
    s.lemma_cardinality_of_set();
}

/// A strictly increasing sequence inside a finite set is no longer than the set.
proof fn lemma_sorted_len_bound(v: Seq<Seq<char>>, u: Set<Seq<char>>)
    requires
        forall|i: int, j: int| 0 <= i < j < v.len() ==> lex_lt(#[trigger] v[i], #[trigger] v[j]),
        forall|x: Seq<char>| #[trigger] v.contains(x) ==> u.contains(x),
        u.finite(),
    ensures
        v.len() <= u.len(),
{
    assert(v.no_duplicates()) by {
        assert forall|i: int, j: int| 0 <= i < v.len() && 0 <= j < v.len() && i != j implies v[i]
            != v[j] by {
            if i < j {
                assert(lex_lt(v[i], v[j]));
                crate::ordmap::lemma_lex_irreflexive(v[i]);
            } else {
                assert(lex_lt(v[j], v[i]));
                crate::ordmap::lemma_lex_irreflexive(v[j]);
            }
        }
    }
    v.unique_seq_to_set();
    assert(v.to_set().subset_of(u));
    vstd::set_lib::lemma_len_subset(v.to_set(), u);
}

/// How many times `y` occurs in `s`.
pub open spec fn occ(s: Seq<Seq<char>>, y: Seq<char>) -> nat
    decreases s.len(),
{
    if s.len() == 0 {
        0
    } else {
        occ(s.drop_last(), y) + if s.last() == y {
            1nat
        } else {
            0nat
        }
    }
}

/// Occurrences of `y` among the targets of the entries whose key is not in `done`.
pub open spec fn pending(es: Seq<(Seq<char>, Vec<String>)>, done: Set<Seq<char>>, y: Seq<char>) -> nat
    decreases es.len(),
{
    if es.len() == 0 {
        0
    } else {
        pending(es.drop_last(), done, y) + if done.contains(es.last().0) {
            0nat
        } else {
            occ(es.last().1.deep_view(), y)
        }
    }
}

proof fn lemma_occ_push(s: Seq<Seq<char>>, x: Seq<char>, y: Seq<char>)
    ensures
        occ(s.push(x), y) == occ(s, y) + if x == y {
            1nat
        } else {
            0nat
        },
{
    assert(s.push(x).drop_last() =~= s);
}

proof fn lemma_occ_take_le(s: Seq<Seq<char>>, m: int, y: Seq<char>)
    requires
        0 <= m <= s.len(),
    ensures
        occ(s.take(m), y) <= occ(s, y),
    decreases s.len(),
{
    if m == s.len() {
        assert(s.take(m) =~= s);
    } else {
        assert(s.take(m) =~= s.drop_last().take(m));
        lemma_occ_take_le(s.drop_last(), m, y);
    }
}

proof fn lemma_occ_contains(s: Seq<Seq<char>>, y: Seq<char>)
    ensures
        occ(s, y) > 0 <==> s.contains(y),
    decreases s.len(),
{
    if s.len() > 0 {
        lemma_occ_contains(s.drop_last(), y);
        if s.drop_last().contains(y) {
            let k = choose|k: int| 0 <= k < s.drop_last().len() && s.drop_last()[k] == y;
            assert(s[k] == y);
        }
        if s.contains(y) && s.last() != y {
            let k = choose|k: int| 0 <= k < s.len() && s[k] == y;
            assert(s.drop_last()[k] == y);
        }
    }
}

proof fn lemma_targets_take(es: Seq<(Seq<char>, Vec<String>)>, e: int)
    requires
        0 <= e <= es.len(),
    ensures
        targets(es.take(e)).len() <= targets(es).len(),
    decreases es.len(),
{
    if e == es.len() {
        assert(es.take(e) =~= es);
    } else {
        assert(es.take(e) =~= es.drop_last().take(e));
        lemma_targets_take(es.drop_last(), e);
    }
}

/// Marking a key that no entry has as done changes nothing.
proof fn lemma_pending_absent(es: Seq<(Seq<char>, Vec<String>)>, done: Set<Seq<char>>, x: Seq<char>, y: Seq<char>)
    requires
        forall|i: int| 0 <= i < es.len() ==> (#[trigger] es[i]).0 != x,
    ensures
        pending(es, done.insert(x), y) == pending(es, done, y),
    decreases es.len(),
{
    if es.len() > 0 {
        assert forall|i: int| 0 <= i < es.drop_last().len() implies (#[trigger] es.drop_last()[i]).0 != x by {
            assert(es.drop_last()[i] == es[i]);
        }
        lemma_pending_absent(es.drop_last(), done, x, y);
        assert(es[es.len() - 1].0 != x);
    }
}

/// Marking the key of one entry as done removes that entry's occurrences.
proof fn lemma_pending_insert(es: Seq<(Seq<char>, Vec<String>)>, done: Set<Seq<char>>, x: Seq<char>, y: Seq<char>)
    requires
        crate::ordmap::sorted_keys(es),
        !done.contains(x),
    ensures
        pending(es, done, y) == pending(es, done.insert(x), y) + match lookup(es, x) {
            Some(v) => occ(v.deep_view(), y),
            None => 0nat,
        },
    decreases es.len(),
{
    if es.len() > 0 {
        let d = es.drop_last();
        assert(crate::ordmap::sorted_keys(d)) by {
            assert forall|i: int, j: int| 0 <= i < j < d.len() implies lex_lt(#[trigger] d[i].0, #[trigger] d[j].0) by {
                assert(d[i] == es[i] && d[j] == es[j]);
            }
        }
        if es.last().0 == x {
            assert forall|i: int| 0 <= i < d.len() implies (#[trigger] d[i]).0 != x by {
                assert(d[i] == es[i]);
                assert(lex_lt(es[i].0, es[es.len() - 1].0));
                crate::ordmap::lemma_lex_irreflexive(x);
            }
            lemma_pending_absent(d, done, x, y);
        } else {
            lemma_pending_insert(d, done, x, y);
            lemma_key_index(d, x);
            if let Some(i) = key_index(d, x) {
                assert(d[i] == es[i]);
            }
        }
    }
}

/// With nothing pending for `y`, every entry that lists `y` is done.
proof fn lemma_pending_zero(es: Seq<(Seq<char>, Vec<String>)>, done: Set<Seq<char>>, y: Seq<char>, i: int)
    requires
        pending(es, done, y) == 0,
        0 <= i < es.len(),
        es[i].1.deep_view().contains(y),
    ensures
        done.contains(es[i].0),
    decreases es.len(),
{
    if i == es.len() - 1 {
        lemma_occ_contains(es[i].1.deep_view(), y);
    } else {
        assert(es.drop_last()[i] == es[i]);
        lemma_pending_zero(es.drop_last(), done, y, i);
    }
}

/// Something pending for `y` comes from an entry that is not done and lists `y`.
proof fn lemma_pending_pos(es: Seq<(Seq<char>, Vec<String>)>, done: Set<Seq<char>>, y: Seq<char>) -> (i: int)
    requires
        pending(es, done, y) > 0,
    ensures
        0 <= i < es.len(),
        !done.contains(es[i].0),
        es[i].1.deep_view().contains(y),
    decreases es.len(),
{
    if pending(es.drop_last(), done, y) > 0 {
        let i = lemma_pending_pos(es.drop_last(), done, y);
        assert(es.drop_last()[i] == es[i]);
        i
    } else {
        lemma_occ_contains(es.last().1.deep_view(), y);
        es.len() - 1
    }
}

proof fn lemma_same_keys_index(a: Seq<(Seq<char>, Vec<String>)>, b: Seq<(Seq<char>, Vec<String>)>, k: Seq<char>)
    requires
        a.len() == b.len(),
        forall|i: int| 0 <= i < a.len() ==> (#[trigger] a[i]).0 == b[i].0,
    ensures
        key_index(a, k) == key_index(b, k),
    decreases a.len(),
{
    if a.len() > 0 {
        assert forall|i: int| 0 <= i < a.drop_last().len() implies (#[trigger] a.drop_last()[i]).0 == b.drop_last()[i].0 by {
            assert(a.drop_last()[i] == a[i] && b.drop_last()[i] == b[i]);
        }
        lemma_same_keys_index(a.drop_last(), b.drop_last(), k);
        assert(a[a.len() - 1].0 == b[b.len() - 1].0);
    }
}

/// The views of a vector of strings.
pub open spec fn pv(p: Seq<String>) -> Seq<Seq<char>> {
    p.map_values(|s: String| s@)
}

/// Finished in a depth-first search: visited and no longer on the path.
pub open spec fn black(v: Seq<Seq<char>>, p: Seq<Seq<char>>, x: Seq<char>) -> bool {
    v.contains(x) && !p.contains(x)
}

/// First position of `x` on the path.
fn path_position(path: &Vec<String>, x: &str) -> (r: Option<usize>)
    ensures
        r matches Some(q) ==> q < path@.len() && path@[q as int]@ == x@,
        r is None ==> !pv(path@).contains(x@),
{
    let mut q: usize = 0;
    while q < path.len()
        invariant
            q <= path@.len(),
            forall|j: int| 0 <= j < q ==> path@[j]@ != x@,
        decreases path.len() - q,
    {
        if crate::ordmap::str_eq(path[q].as_str(), x) {
            return Some(q);
        }
        q += 1;
    }
    proof {
        if pv(path@).contains(x@) {
            let j = choose|j: int| 0 <= j < pv(path@).len() && pv(path@)[j] == x@;
            assert(path@[j]@ == x@);
        }
    }
    None
}

impl DependencyGraph {
    /// The graph of the components `cs`: one entry per component, in key
    /// order, listing the dependencies of its functions; the nodes are the
    /// keys and every dependency.
    pub open spec fn is_graph_of(&self, cs: Seq<(Seq<char>, Component)>) -> bool {
        &&& self.edges.view().len() == cs.len()
        &&& forall|i: int|
            0 <= i < cs.len() ==> (#[trigger] self.edges.view()[i]).0 == cs[i].0
                && self.edges.view()[i].1.deep_view() == comp_deps(cs[i].1)
        &&& self.node_set() == node_list(cs).to_set()
    }

    /// Two graphs of the same components have the same nodes and edges.
    pub proof fn lemma_graph_of_unique(g1: Self, g2: Self, cs: Seq<(Seq<char>, Component)>)
        requires
            g1.is_graph_of(cs),
            g2.is_graph_of(cs),
        ensures
            g1.node_set() == g2.node_set(),
            forall|n: Seq<char>| #[trigger] g1.succ(n) == g2.succ(n),
    {
        assert forall|n: Seq<char>| #[trigger] g1.succ(n) == g2.succ(n) by {
            lemma_same_keys_index(g1.edges.view(), g2.edges.view(), n);
            if let Some(i) = key_index(g1.edges.view(), n) {
                lemma_key_index(g1.edges.view(), n);
                assert(g1.edges.view()[i].1.deep_view() == g2.edges.view()[i].1.deep_view());
            }
        }
    }

    /// The direct dependencies of `n` (none where `n` has no entry).
    pub open spec fn succ(&self, n: Seq<char>) -> Seq<Seq<char>> {
        match lookup(self.edges.view(), n) {
            Some(v) => v.deep_view(),
            None => Seq::empty(),
        }
    }

    /// `a` depends directly on `b`.
    pub open spec fn edge(&self, a: Seq<char>, b: Seq<char>) -> bool {
        self.succ(a).contains(b)
    }

    /// Step `i` of `p` follows an edge.
    pub open spec fn step(&self, p: Seq<Seq<char>>, i: int) -> bool {
        self.edge(p[i], p[i + 1])
    }

    /// A non-empty sequence of nodes, each depending directly on the next.
    pub open spec fn is_walk(&self, p: Seq<Seq<char>>) -> bool {
        &&& p.len() >= 1
        &&& forall|i: int| 0 <= i < p.len() - 1 ==> #[trigger] self.step(p, i)
    }

    /// `x` is reached from one of `from` along dependencies (in zero or more steps).
    pub open spec fn reaches(&self, from: Set<Seq<char>>, x: Seq<char>) -> bool {
        exists|p: Seq<Seq<char>>| #[trigger] self.is_walk(p) && from.contains(p[0]) && p.last() == x
    }

    /// Everything reached from `from`.
    pub open spec fn impact(&self, from: Set<Seq<char>>) -> Set<Seq<char>> {
        Set::new(|x: Seq<char>| self.reaches(from, x))
    }

    /// A closed walk: it returns to where it started.
    pub open spec fn is_cycle(&self, c: Seq<Seq<char>>) -> bool {
        &&& c.len() >= 2
        &&& self.is_walk(c)
        &&& c[0] == c.last()
    }

    /// No walk that starts in `roots` visits a node twice.
    pub open spec fn acyclic_from(&self, roots: Set<Seq<char>>) -> bool {
        forall|p: Seq<Seq<char>>|
            #[trigger] self.is_walk(p) && roots.contains(p[0]) ==> p.no_duplicates()
    }

    /// The nodes, as a set.
    pub open spec fn node_set(&self) -> Set<Seq<char>> {
        self.nodes.view().to_set()
    }

    /// Every node and every edge target, for bounding searches.
    pub open spec fn universe(&self, extra: Seq<Seq<char>>) -> Set<Seq<char>> {
        (self.nodes.view() + extra + targets(self.edges.view())).to_set()
    }

    /// The graph of an IR: one entry per component, holding the dependencies
    /// of its functions; the nodes are the component keys and all dependencies.
    pub fn from_ir(ir: &ProjectIR) -> (g: Self)
        ensures
            g.is_graph_of(ir.components.view()),
    {
        let ghost cs = ir.components.view();
        ir.components.check_sorted();
        let mut nodes = StrSet::new();
        let mut edges: StrMap<Vec<String>> = StrMap::new();
        let n = ir.components.len();
        let mut i: usize = 0;
        assert(nodes.view().to_set() =~= node_list(cs.take(0)).to_set());
        while i < n
            invariant
                cs == ir.components.view(),
                crate::ordmap::sorted_keys(cs),
                n == cs.len(),
                i <= n,
                edges.view().len() == i,
                forall|j: int|
                    0 <= j < i ==> (#[trigger] edges.view()[j]).0 == cs[j].0
                        && edges.view()[j].1.deep_view() == comp_deps(cs[j].1),
                nodes.view().to_set() == node_list(cs.take(i as int)).to_set(),
            decreases n - i,
        {
            let key = ir.components.key_at(i);
            let comp = ir.components.value_at(i);
            let ghost before = nodes.view().to_set();
            nodes.insert(key.clone());
            let deps = collect_comp_deps(comp, &mut nodes);
            proof {
                assert forall|j: int| 0 <= j < edges.view().len() implies lex_lt(
                    #[trigger] edges.view()[j].0,
                    key@,
                ) by {
                    assert(edges.view()[j].0 == cs[j].0);
                }
            }
            edges.push_back(key.clone(), deps);
            proof {
                let t = cs.take(i + 1);
                assert(t.drop_last() =~= cs.take(i as int));
                let nl = node_list(cs.take(i as int));
                lemma_concat_to_set(nl, seq![key@]);
                lemma_concat_to_set(nl + seq![key@], comp_deps(cs[i as int].1));
                lemma_single_to_set(key@);
                assert(nodes.view().to_set() =~= node_list(t).to_set());
                assert forall|j: int| 0 <= j < i + 1 implies (#[trigger] edges.view()[j]).0
                    == cs[j].0 && edges.view()[j].1.deep_view() == comp_deps(cs[j].1) by {}
            }
            i += 1;
        }
        assert(cs.take(n as int) =~= cs);
        DependencyGraph { nodes, edges }
    }

    /// The nodes reached from `seed_nodes`, the seeds included.
    pub fn compute_impact(&self, seed_nodes: Vec<String>) -> (r: StrSet)
        ensures
            r.view().to_set() == self.impact(seed_nodes.deep_view().to_set()),
    {
        let ghost seeds = seed_nodes.deep_view().to_set();
        let ghost univ = self.universe(seed_nodes.deep_view());
        proof {
            lemma_universe_finite(self.nodes.view() + seed_nodes.deep_view() + targets(self.edges.view()));
            assert forall|x: Seq<char>| seeds.contains(x) implies univ.contains(x) by {
                let sd = seed_nodes.deep_view();
                let k = choose|k: int| 0 <= k < sd.len() && sd[k] == x;
                let all = self.nodes.view() + sd + targets(self.edges.view());
                assert(all[self.nodes.view().len() + k] == x);
            }
        }
        let mut visited = StrSet::new();
        let mut queue: Vec<String> = seed_nodes;
        proof {
            assert forall|x: Seq<char>| seeds.contains(x) implies in_queue(queue@, x) by {
                let k = choose|k: int| 0 <= k < queue.deep_view().len() && queue.deep_view()[k] == x;
                assert(queue@[k]@ == x);
            }
            assert forall|j: int| 0 <= j < queue@.len() implies self.reaches(seeds, #[trigger] queue@[j]@)
                && univ.contains(queue@[j]@) by {
                assert(queue.deep_view()[j] == queue@[j]@);
                assert(queue.deep_view().contains(queue@[j]@));
                self.lemma_seed_reaches(seeds, queue@[j]@);
            }
        }
        while queue.len() > 0
            invariant
                seeds == seed_nodes.deep_view().to_set(),
                univ == self.universe(seed_nodes.deep_view()),
                univ.finite(),
                forall|x: Seq<char>| seeds.contains(x) ==> univ.contains(x),
                forall|x: Seq<char>|
                    #[trigger] visited.view().contains(x) ==> self.reaches(seeds, x) && univ.contains(x),
                forall|j: int|
                    0 <= j < queue@.len() ==> self.reaches(seeds, #[trigger] queue@[j]@) && univ.contains(
                        queue@[j]@,
                    ),
                forall|x: Seq<char>, y: Seq<char>|
                    #![trigger visited.view().contains(x), self.edge(x, y)]
                    visited.view().contains(x) && self.edge(x, y) ==> visited.view().contains(y)
                        || in_queue(queue@, y),
                forall|x: Seq<char>|
                    #[trigger] seeds.contains(x) ==> visited.view().contains(x) || in_queue(queue@, x),
            decreases univ.len() - visited.view().len(), queue@.len(),
        {
            let ghost q_before = queue@;
            let node = queue.pop().unwrap();
            visited.check_sorted();
            proof {
                assert(q_before == queue@.push(node));
                assert(q_before[q_before.len() - 1] == node);
                lemma_in_queue_pop(queue@, node);
                lemma_sorted_len_bound(visited.view(), univ);
            }
            if !visited.contains(node.as_str()) {
                let ghost v_before = visited.view();
                visited.insert(node.clone());
                proof {
                    assert forall|x: Seq<char>| #[trigger] visited.view().contains(x) <==> v_before.contains(x) || x == node@ by {
                        assert(visited.view().to_set().contains(x) == v_before.to_set().insert(node@).contains(x));
                    }
                }
                visited.check_sorted();
                proof {
                    lemma_sorted_len_bound(visited.view(), univ);
                }
                match self.edges.get(node.as_str()) {
                    Some(deps) => {
                        let ghost q0 = queue@;
                        let mut k: usize = 0;
                        while k < deps.len()
                            invariant
                                k <= deps.len(),
                                lookup(self.edges.view(), node@) == Some(*deps),
                                self.reaches(seeds, node@),
                                univ == self.universe(seed_nodes.deep_view()),
                                queue@.len() >= q0.len(),
                                forall|j: int| 0 <= j < q0.len() ==> queue@[j] == q0[j],
                                forall|j: int|
                                    0 <= j < queue@.len() ==> self.reaches(seeds, #[trigger] queue@[j]@)
                                        && univ.contains(queue@[j]@),
                                forall|m: int|
                                    0 <= m < k ==> visited.view().contains(#[trigger] deps@[m]@)
                                        || in_queue(queue@, deps@[m]@),
                            decreases deps.len() - k,
                        {
                            proof {
                                assert(deps.deep_view()[k as int] == deps@[k as int]@);
                                assert(self.succ(node@)[k as int] == deps@[k as int]@);
                                assert(self.edge(node@, deps@[k as int]@));
                                self.lemma_walk_extend(seeds, node@, deps@[k as int]@);
                                self.lemma_edge_in_universe(seed_nodes.deep_view(), node@, deps@[k as int]@);
                            }
                            if !visited.contains(deps[k].as_str()) {
                                let ghost qb = queue@;
                                queue.push(deps[k].clone());
                                proof {
                                    assert(queue@[queue@.len() - 1]@ == deps@[k as int]@);
                                    assert forall|m: int| 0 <= m < k + 1 implies visited.view().contains(#[trigger] deps@[m]@)
                                        || in_queue(queue@, deps@[m]@) by {
                                        if m < k && in_queue(qb, deps@[m]@) {
                                            let j = choose|j: int| 0 <= j < qb.len() && qb[j]@ == deps@[m]@;
                                            assert(queue@[j] == qb[j]);
                                        }
                                    }
                                }
                            }
                            k += 1;
                        }
                        proof {
                            assert forall|x: Seq<char>, y: Seq<char>|
                                #![trigger visited.view().contains(x), self.edge(x, y)]
                                visited.view().contains(x) && self.edge(x, y) implies visited.view().contains(y)
                                    || in_queue(queue@, y) by {
                                if x == node@ {
                                    let m = choose|m: int| 0 <= m < self.succ(x).len() && self.succ(x)[m] == y;
                                    assert(deps.deep_view()[m] == deps@[m]@);
                                    assert(deps@[m]@ == y);
                                } else {
                                    assert(v_before.contains(x));
                                    if in_queue(q_before, y) && y != node@ {
                                        let j = choose|j: int| 0 <= j < q_before.len() && q_before[j]@ == y;
                                        assert(q_before[j] == q0[j]);
                                        assert(queue@[j] == q0[j]);
                                    }
                                }
                            }
                            assert forall|x: Seq<char>|
                                #[trigger] seeds.contains(x) implies visited.view().contains(x) || in_queue(queue@, x) by {
                                if in_queue(q_before, x) && x != node@ {
                                    let j = choose|j: int| 0 <= j < q_before.len() && q_before[j]@ == x;
                                    assert(queue@[j] == q0[j]);
                                }
                            }
                        }
                    },
                    None => {
                        proof {
                            assert forall|x: Seq<char>, y: Seq<char>|
                                #![trigger visited.view().contains(x), self.edge(x, y)]
                                visited.view().contains(x) && self.edge(x, y) implies visited.view().contains(y)
                                    || in_queue(queue@, y) by {
                                if x != node@ {
                                    assert(v_before.contains(x));
                                }
                            }
                        }
                    },
                }
            }
        }
        proof {
            let vs = visited.view().to_set();
            assert forall|x: Seq<char>| vs.contains(x) == self.impact(seeds).contains(x) by {
                if self.reaches(seeds, x) {
                    let p = choose|p: Seq<Seq<char>>| #[trigger] self.is_walk(p) && seeds.contains(p[0]) && p.last() == x;
                    self.lemma_closed_holds_walk(visited.view(), seeds, p);
                }
            }
            assert(vs =~= self.impact(seeds));
        }
        visited
    }

    /// Successors of finished nodes are finished.
    pub open spec fn black_closed(&self, v: Seq<Seq<char>>, p: Seq<Seq<char>>) -> bool {
        forall|x: Seq<char>, y: Seq<char>|
            #![trigger black(v, p, x), self.edge(x, y)]
            black(v, p, x) && self.edge(x, y) ==> black(v, p, y)
    }

    /// No walk from a finished node repeats a node.
    pub open spec fn black_acyclic(&self, v: Seq<Seq<char>>, p: Seq<Seq<char>>) -> bool {
        forall|w: Seq<Seq<char>>| #[trigger] self.is_walk(w) && black(v, p, w[0]) ==> w.no_duplicates()
    }

    proof fn lemma_walk_stays_black(&self, v: Seq<Seq<char>>, p: Seq<Seq<char>>, w: Seq<Seq<char>>, i: int)
        requires
            self.black_closed(v, p),
            self.is_walk(w),
            black(v, p, w[0]),
            0 <= i < w.len(),
        ensures
            black(v, p, w[i]),
        decreases i,
    {
        if i > 0 {
            self.lemma_walk_stays_black(v, p, w, i - 1);
            assert(self.step(w, i - 1));
        }
    }

    /// A walk without its first node.
    proof fn lemma_walk_tail(&self, w: Seq<Seq<char>>)
        requires
            self.is_walk(w),
            w.len() >= 2,
        ensures
            self.is_walk(w.drop_first()),
            self.edge(w[0], w[1]),
    {
        let t = w.drop_first();
        assert forall|i: int| 0 <= i < t.len() - 1 implies #[trigger] self.step(t, i) by {
            assert(self.step(w, i + 1));
        }
        assert(self.step(w, 0));
    }

    /// Finishing `n`, all of whose successors are finished, keeps the search invariants.
    proof fn lemma_finish(&self, v: Seq<Seq<char>>, p0: Seq<Seq<char>>, n: Seq<char>)
        requires
            v.contains(n),
            !p0.contains(n),
            self.black_closed(v, p0.push(n)),
            self.black_acyclic(v, p0.push(n)),
            forall|y: Seq<char>| #[trigger] self.edge(n, y) ==> black(v, p0.push(n), y),
        ensures
            self.black_closed(v, p0),
            self.black_acyclic(v, p0),
    {
        let p = p0.push(n);
        assert forall|x: Seq<char>| #[trigger] black(v, p0, x) && x != n implies black(v, p, x) by {
            if p.contains(x) {
                let j = choose|j: int| 0 <= j < p.len() && p[j] == x;
                if j < p0.len() {
                    assert(p0[j] == x);
                }
            }
        }
        assert forall|x: Seq<char>| #[trigger] black(v, p, x) implies black(v, p0, x) && x != n by {
            assert(p[p.len() - 1] == n);
            if p0.contains(x) {
                let j = choose|j: int| 0 <= j < p0.len() && p0[j] == x;
                assert(p[j] == x);
            }
        }
        assert forall|x: Seq<char>, y: Seq<char>|
            #![trigger black(v, p0, x), self.edge(x, y)]
            black(v, p0, x) && self.edge(x, y) implies black(v, p0, y) by {
            if x == n {
                assert(black(v, p, y));
            } else {
                assert(black(v, p, x));
                assert(black(v, p, y));
            }
        }
        assert forall|w: Seq<Seq<char>>| #[trigger] self.is_walk(w) && black(v, p0, w[0]) implies w.no_duplicates() by {
            if w[0] == n {
                if w.len() >= 2 {
                    self.lemma_walk_tail(w);
                    let t = w.drop_first();
                    assert(black(v, p, t[0]));
                    assert(self.is_walk(t));
                    assert(t.no_duplicates());
                    assert forall|i: int, j: int| 0 <= i < w.len() && 0 <= j < w.len() && i != j implies w[i] != w[j] by {
                        if i > 0 && j > 0 {
                            assert(t[i - 1] != t[j - 1]);
                        } else if i == 0 {
                            self.lemma_walk_stays_black(v, p, t, j - 1);
                        } else {
                            self.lemma_walk_stays_black(v, p, t, i - 1);
                        }
                    }
                }
            } else {
                assert(black(v, p, w[0]));
            }
        }
    }

    /// A cycle reached from `roots` gives a walk from `roots` that repeats a node.
    pub proof fn lemma_reached_cycle_repeats(&self, roots: Set<Seq<char>>, c: Seq<Seq<char>>)
        requires
            self.is_cycle(c),
            self.reaches(roots, c[0]),
        ensures
            !self.acyclic_from(roots),
    {
        let p = choose|p: Seq<Seq<char>>| #[trigger] self.is_walk(p) && roots.contains(p[0]) && p.last() == c[0];
        let t = c.drop_first();
        let w = p + t;
        assert forall|i: int| 0 <= i < w.len() - 1 implies #[trigger] self.step(w, i) by {
            if i < p.len() - 1 {
                assert(self.step(p, i));
            } else if i == p.len() - 1 {
                assert(self.step(c, 0));
            } else {
                assert(self.step(c, i - p.len() + 1));
            }
        }
        assert(self.is_walk(w));
        assert(w[0] == p[0]);
        assert(w[p.len() - 1] == c[0]);
        assert(w[w.len() - 1] == c[c.len() - 1]);
        assert(!w.no_duplicates());
    }

    /// Depth-first search from `node`; `path` holds the nodes under exploration,
    /// `visited` every node entered so far.
    fn dfs(&self, node: &String, visited: &mut StrSet, path: &mut Vec<String>) -> (r: Option<Vec<String>>)
        requires
            !old(visited).view().contains(node@),
            self.black_closed(old(visited).view(), pv(old(path)@)),
            self.black_acyclic(old(visited).view(), pv(old(path)@)),
            forall|x: Seq<char>| #[trigger] pv(old(path)@).contains(x) ==> old(visited).view().contains(x),
            old(path)@.len() == 0 ==> self.node_set().contains(node@),
            old(path)@.len() > 0 ==> self.is_walk(pv(old(path)@)) && self.node_set().contains(
                old(path)@[0]@,
            ) && self.edge(old(path)@.last()@, node@),
            forall|x: Seq<char>|
                #[trigger] old(visited).view().contains(x) ==> self.universe(Seq::empty()).contains(x),
            self.universe(Seq::empty()).contains(node@),
        ensures
            r is None ==> final(path)@ == old(path)@,
            r is None ==> self.black_closed(final(visited).view(), pv(old(path)@)),
            r is None ==> self.black_acyclic(final(visited).view(), pv(old(path)@)),
            r is None ==> black(final(visited).view(), pv(old(path)@), node@),
            r is None ==> forall|x: Seq<char>|
                #[trigger] final(visited).view().contains(x) ==> self.universe(Seq::empty()).contains(x),
            forall|x: Seq<char>|
                #[trigger] old(visited).view().contains(x) ==> final(visited).view().contains(x),
            final(visited).view().len() >= old(visited).view().len(),
            r matches Some(c) ==> self.is_cycle(c.deep_view()) && self.reaches(
                self.node_set(),
                c.deep_view()[0],
            ),
        decreases self.universe(Seq::empty()).len() - old(visited).view().len(),
    {
        let ghost u = self.universe(Seq::empty());
        let ghost p0 = pv(path@);
        let ghost v0 = visited.view();
        proof {
            lemma_universe_finite(self.nodes.view() + Seq::empty() + targets(self.edges.view()));
        }
        visited.insert(node.clone());
        path.push(node.clone());
        let ghost p = pv(path@);
        let ghost pfull = path@;
        assert(pfull.drop_last() =~= old(path)@);
        proof {
            assert(p =~= p0.push(node@));
            assert forall|x: Seq<char>| #[trigger] visited.view().contains(x) <==> v0.contains(x) || x == node@ by {
                assert(visited.view().to_set().contains(x) == v0.to_set().insert(node@).contains(x));
            }
            assert forall|x: Seq<char>| #[trigger] black(visited.view(), p, x) == black(v0, p0, x) by {
                if p.contains(x) && x != node@ {
                    let j = choose|j: int| 0 <= j < p.len() && p[j] == x;
                    assert(p0[j] == x);
                }
                if p0.contains(x) {
                    let j = choose|j: int| 0 <= j < p0.len() && p0[j] == x;
                    assert(p[j] == x);
                }
                assert(p[p.len() - 1] == node@);
            }
            assert(self.black_closed(visited.view(), p)) by {
                assert forall|x: Seq<char>, y: Seq<char>|
                    #![trigger black(visited.view(), p, x), self.edge(x, y)]
                    black(visited.view(), p, x) && self.edge(x, y) implies black(visited.view(), p, y) by {
                    assert(black(v0, p0, x));
                }
            }
            assert(self.black_acyclic(visited.view(), p)) by {
                assert forall|w: Seq<Seq<char>>| #[trigger] self.is_walk(w) && black(visited.view(), p, w[0]) implies w.no_duplicates() by {
                    assert(black(v0, p0, w[0]));
                }
            }
            assert forall|x: Seq<char>| #[trigger] p.contains(x) implies visited.view().contains(x) by {
                if x != node@ {
                    let j = choose|j: int| 0 <= j < p.len() && p[j] == x;
                    assert(p0[j] == x);
                    assert(p0.contains(x));
                    assert(pv(old(path)@).contains(x));
                    assert(v0.contains(x));
                }
            }
            assert(self.is_walk(p) && self.node_set().contains(p[0])) by {
                if p0.len() > 0 {
                    assert forall|i: int| 0 <= i < p.len() - 1 implies #[trigger] self.step(p, i) by {
                        if i < p0.len() - 1 {
                            assert(self.step(p0, i));
                        }
                    }
                    assert(p[0] == p0[0]);
                }
            }
        }
        match self.edges.get(node.as_str()) {
            Some(deps) => {
                let mut k: usize = 0;
                while k < deps.len()
                    invariant
                        v0 == old(visited).view(),
                        p0 == pv(old(path)@),
                        path@ == pfull,
                        pfull.drop_last() == old(path)@,
                        u == self.universe(Seq::empty()),
                        u.finite(),
                        pv(path@) == p,
                        p == p0.push(node@),
                        !p0.contains(node@),
                        self.is_walk(p),
                        self.node_set().contains(p[0]),
                        lookup(self.edges.view(), node@) == Some(*deps),
                        visited.view().contains(node@),
                        self.black_closed(visited.view(), p),
                        self.black_acyclic(visited.view(), p),
                        forall|x: Seq<char>| #[trigger] p.contains(x) ==> visited.view().contains(x),
                        forall|x: Seq<char>| #[trigger] visited.view().contains(x) ==> u.contains(x),
                        forall|x: Seq<char>| #[trigger] v0.contains(x) ==> visited.view().contains(x),
                        visited.view().len() > v0.len(),
                        k <= deps.len(),
                        forall|m: int| 0 <= m < k ==> black(visited.view(), p, #[trigger] deps@[m]@),
                    decreases deps.len() - k,
                {
                    let dep = &deps[k];
                    proof {
                        assert(deps.deep_view()[k as int] == dep@);
                        assert(self.succ(node@)[k as int] == dep@);
                        assert(self.edge(node@, dep@));
                        assert(p.last() == node@);
                        self.lemma_edge_in_universe(Seq::empty(), node@, dep@);
                    }
                    if !visited.contains(dep.as_str()) {
                        visited.check_sorted();
                        proof {
                            lemma_sorted_len_bound(visited.view(), u);
                        }
                        let ghost vb = visited.view();
                        match self.dfs(dep, visited, path) {
                            Some(c) => {
                                proof {
                                    assert forall|x: Seq<char>| #[trigger] v0.contains(x) implies visited.view().contains(x) by {
                                        assert(vb.contains(x));
                                    }
                                }
                                return Some(c);
                            },
                            None => {},
                        }
                        proof {
                            assert forall|m: int| 0 <= m < k + 1 implies black(visited.view(), p, #[trigger] deps@[m]@) by {
                                if m < k {
                                    assert(black(vb, p, deps@[m]@));
                                }
                            }
                        }
                    } else {
                        match path_position(path, dep.as_str()) {
                            Some(q) => {
                                let mut cycle: Vec<String> = Vec::new();
                                let mut j: usize = q;
                                while j < path.len()
                                    invariant
                                        q <= j <= path@.len(),
                                        pv(cycle@) == pv(path@).subrange(q as int, j as int),
                                    decreases path.len() - j,
                                {
                                    cycle.push(path[j].clone());
                                    assert(pv(path@).subrange(q as int, j + 1) =~= pv(path@).subrange(
                                        q as int,
                                        j as int,
                                    ).push(path@[j as int]@));
                                    assert(pv(cycle@) =~= pv(path@).subrange(q as int, j as int).push(
                                        path@[j as int]@,
                                    ));
                                    j += 1;
                                }
                                let ghost body = pv(cycle@);
                                cycle.push(dep.clone());
                                proof {
                                    let c = pv(cycle@);
                                    assert(c =~= body.push(dep@));
                                    assert(cycle.deep_view() =~= c);
                                    assert(c[0] == p[q as int]);
                                    assert forall|i: int| 0 <= i < c.len() - 1 implies #[trigger] self.step(c, i) by {
                                        if i < c.len() - 2 {
                                            assert(self.step(p, q + i));
                                        } else {
                                            assert(c[i] == p.last());
                                        }
                                    }
                                    let h = p.take(q + 1);
                                    assert forall|i: int| 0 <= i < h.len() - 1 implies #[trigger] self.step(h, i) by {
                                        assert(self.step(p, i));
                                    }
                                    assert(self.is_walk(h));
                                    assert(self.reaches(self.node_set(), c[0]));
                                    assert forall|x: Seq<char>| #[trigger] v0.contains(x) implies visited.view().contains(x) by {}
                                }
                                return Some(cycle);
                            },
                            None => {
                                proof {
                                    assert(black(visited.view(), p, dep@));
                                    assert forall|m: int| 0 <= m < k + 1 implies black(visited.view(), p, #[trigger] deps@[m]@) by {}
                                }
                            },
                        }
                    }
                    k += 1;
                }
                proof {
                    assert forall|y: Seq<char>| #[trigger] self.edge(node@, y) implies black(visited.view(), p, y) by {
                        let m = choose|m: int| 0 <= m < self.succ(node@).len() && self.succ(node@)[m] == y;
                        assert(deps.deep_view()[m] == deps@[m]@);
                    }
                }
            },
            None => {
                proof {
                    assert forall|y: Seq<char>| #[trigger] self.edge(node@, y) implies black(visited.view(), p, y) by {}
                }
            },
        }
        let ghost vf = visited.view();
        let ghost pb = path@;
        path.pop();
        proof {
            assert(path@ == pb.drop_last());
            assert(pb == pfull);
            assert(pv(pb) == p);
            assert(pv(path@) =~= pv(pb).drop_last());
            assert(pv(path@) =~= p0);
            self.lemma_finish(vf, p0, node@);
            assert(black(vf, p0, node@));
        }
        None
    }

    /// A cycle among the dependencies, if one is reachable from the nodes.
    ///
    /// The result starts and ends at the same node, each node depending on the next.
    pub fn detect_cycles(&self) -> (r: Option<Vec<String>>)
        ensures
            r is None <==> self.acyclic_from(self.node_set()),
            r matches Some(c) ==> self.is_cycle(c.deep_view()) && self.reaches(
                self.node_set(),
                c.deep_view()[0],
            ),
    {
        let ghost u = self.universe(Seq::empty());
        proof {
            lemma_universe_finite(self.nodes.view() + Seq::empty() + targets(self.edges.view()));
        }
        let mut visited = StrSet::new();
        let mut path: Vec<String> = Vec::new();
        let n = self.nodes.len();
        let mut i: usize = 0;
        proof {
            assert(pv(path@) =~= Seq::<Seq<char>>::empty());
        }
        while i < n
            invariant
                n == self.nodes.view().len(),
                i <= n,
                u == self.universe(Seq::empty()),
                u.finite(),
                path@.len() == 0,
                pv(path@) == Seq::<Seq<char>>::empty(),
                self.black_closed(visited.view(), Seq::empty()),
                self.black_acyclic(visited.view(), Seq::empty()),
                forall|x: Seq<char>| #[trigger] visited.view().contains(x) ==> u.contains(x),
                forall|j: int| 0 <= j < i ==> visited.view().contains(#[trigger] self.nodes.view()[j]),
            decreases n - i,
        {
            let node = self.nodes.at(i);
            proof {
                assert(self.node_set().contains(node@));
                let all = self.nodes.view() + Seq::empty() + targets(self.edges.view());
                assert(all[i as int] == node@);
            }
            if !visited.contains(node.as_str()) {
                let ghost vb = visited.view();
                match self.dfs(node, &mut visited, &mut path) {
                    Some(c) => {
                        proof {
                            self.lemma_reached_cycle_repeats(self.node_set(), c.deep_view());
                        }
                        return Some(c);
                    },
                    None => {},
                }
                proof {
                    assert forall|j: int| 0 <= j < i + 1 implies visited.view().contains(#[trigger] self.nodes.view()[j]) by {
                        if j < i {
                            assert(vb.contains(self.nodes.view()[j]));
                        }
                    }
                }
            }
            i += 1;
        }
        proof {
            assert forall|w: Seq<Seq<char>>| #[trigger] self.is_walk(w) && self.node_set().contains(w[0]) implies w.no_duplicates() by {
                let j = choose|j: int| 0 <= j < self.nodes.view().len() && self.nodes.view()[j] == w[0];
                assert(black(visited.view(), Seq::empty(), w[0]));
            }
        }
        None
    }

    /// Every walk that ends at `y` stays among the nodes and never repeats one.
    pub open spec fn settled(&self, y: Seq<char>) -> bool {
        forall|w: Seq<Seq<char>>|
            #[trigger] self.is_walk(w) && w.last() == y ==> w.no_duplicates() && forall|i: int|
                0 <= i < w.len() ==> self.node_set().contains(#[trigger] w[i])
    }

    /// An entry that lists `y` is an edge into `y`.
    proof fn lemma_entry_edge(&self, i: int, y: Seq<char>)
        requires
            crate::ordmap::sorted_keys(self.edges.view()),
            0 <= i < self.edges.view().len(),
            self.edges.view()[i].1.deep_view().contains(y),
        ensures
            self.edge(self.edges.view()[i].0, y),
    {
        crate::ordmap::lemma_key_index_unique(self.edges.view(), self.edges.view()[i].0, i);
    }

    /// An edge into `y` comes from an entry that lists `y`.
    proof fn lemma_edge_entry(&self, a: Seq<char>, y: Seq<char>) -> (i: int)
        requires
            self.edge(a, y),
        ensures
            0 <= i < self.edges.view().len(),
            self.edges.view()[i].0 == a,
            self.edges.view()[i].1.deep_view().contains(y),
    {
        lemma_key_index(self.edges.view(), a);
        key_index(self.edges.view(), a)->0
    }

    /// Going backwards from `y` through nodes outside `r`, each of which has a
    /// predecessor outside `r`, gives a walk that starts outside the nodes or
    /// has `n + 1` nodes, all outside `r`.
    proof fn lemma_descent(&self, r: Seq<Seq<char>>, y: Seq<char>, n: nat) -> (w: Seq<Seq<char>>)
        requires
            forall|z: Seq<char>|
                #[trigger] self.node_set().contains(z) && !r.contains(z) ==> exists|a: Seq<char>|
                    #[trigger] self.edge(a, z) && !r.contains(a),
            self.node_set().contains(y),
            !r.contains(y),
        ensures
            self.is_walk(w),
            w.last() == y,
            !self.node_set().contains(w[0]) || (w.len() == n + 1 && forall|i: int|
                0 <= i < w.len() ==> self.node_set().contains(#[trigger] w[i]) && !r.contains(w[i])),
        decreases n,
    {
        if n == 0 {
            seq![y]
        } else {
            let w1 = self.lemma_descent(r, y, (n - 1) as nat);
            if !self.node_set().contains(w1[0]) {
                w1
            } else {
                assert(self.node_set().contains(w1[0]) && !r.contains(w1[0]));
                let a = choose|a: Seq<char>| #[trigger] self.edge(a, w1[0]) && !r.contains(a);
                let w = seq![a] + w1;
                assert forall|i: int| 0 <= i < w.len() - 1 implies #[trigger] self.step(w, i) by {
                    if i > 0 {
                        assert(self.step(w1, i - 1));
                    }
                }
                assert(w.last() == w1.last());
                if self.node_set().contains(a) {
                    assert forall|i: int| 0 <= i < w.len() implies self.node_set().contains(#[trigger] w[i])
                        && !r.contains(w[i]) by {
                        if i > 0 {
                            assert(w[i] == w1[i - 1]);
                        }
                    }
                }
                w
            }
        }
    }

    /// A node whose predecessors, and theirs, never run out is not settled.
    proof fn lemma_unsettled(&self, r: Seq<Seq<char>>, y: Seq<char>)
        requires
            forall|z: Seq<char>|
                #[trigger] self.node_set().contains(z) && !r.contains(z) ==> exists|a: Seq<char>|
                    #[trigger] self.edge(a, z) && !r.contains(a),
            self.node_set().contains(y),
            !r.contains(y),
        ensures
            !self.settled(y),
    {
        let n = self.nodes.view().len();
        let w = self.lemma_descent(r, y, n);
        if self.node_set().contains(w[0]) {
            if w.no_duplicates() {
                w.unique_seq_to_set();
                self.nodes.view().lemma_cardinality_of_set();
                assert(w.to_set().subset_of(self.node_set()));
                vstd::set_lib::lemma_len_subset(w.to_set(), self.node_set());
            }
        }
    }

    /// When every node of `r` comes after its predecessors, every walk into `r`
    /// passes through `r` at increasing positions.
    proof fn lemma_walk_positions(&self, r: Seq<Seq<char>>, w: Seq<Seq<char>>, i: int) -> (f: Seq<int>)
        requires
            forall|k: int, a: Seq<char>|
                #![trigger self.edge(a, r[k])]
                0 <= k < r.len() && self.edge(a, r[k]) ==> exists|j: int| 0 <= j < k && #[trigger] r[j] == a,
            self.is_walk(w),
            0 <= i < r.len(),
            w.last() == r[i],
        ensures
            f.len() == w.len(),
            f.last() == i,
            forall|k: int| 0 <= k < f.len() ==> 0 <= #[trigger] f[k] < r.len() && r[f[k]] == w[k],
            forall|k: int, l: int| 0 <= k < l < f.len() ==> #[trigger] f[k] < #[trigger] f[l],
        decreases w.len(),
    {
        if w.len() == 1 {
            seq![i]
        } else {
            let v = w.drop_last();
            assert forall|k: int| 0 <= k < v.len() - 1 implies #[trigger] self.step(v, k) by {
                assert(self.step(w, k));
            }
            assert(self.step(w, w.len() - 2));
            assert(self.edge(v.last(), r[i]));
            let j = choose|j: int| 0 <= j < i && #[trigger] r[j] == v.last();
            let g = self.lemma_walk_positions(r, v, j);
            let f = g.push(i);
            assert forall|k: int, l: int| 0 <= k < l < f.len() implies #[trigger] f[k] < #[trigger] f[l] by {
                if l < f.len() - 1 {
                    assert(g[k] < g[l]);
                } else if k < g.len() - 1 {
                    assert(g[k] < g[g.len() - 1]);
                }
            }
            f
        }
    }

    /// The nodes of an order that puts predecessors first are settled.
    pub proof fn lemma_ordered_settled(&self, r: Seq<Seq<char>>, i: int)
        requires
            r.no_duplicates(),
            forall|k: int| 0 <= k < r.len() ==> self.node_set().contains(#[trigger] r[k]),
            forall|k: int, a: Seq<char>|
                #![trigger self.edge(a, r[k])]
                0 <= k < r.len() && self.edge(a, r[k]) ==> exists|j: int| 0 <= j < k && #[trigger] r[j] == a,
            0 <= i < r.len(),
        ensures
            self.settled(r[i]),
    {
        assert forall|w: Seq<Seq<char>>| #[trigger] self.is_walk(w) && w.last() == r[i] implies w.no_duplicates()
            && forall|k: int| 0 <= k < w.len() ==> self.node_set().contains(#[trigger] w[k]) by {
            let f = self.lemma_walk_positions(r, w, i);
            assert forall|k: int| 0 <= k < w.len() implies self.node_set().contains(#[trigger] w[k]) by {
                assert(r[f[k]] == w[k]);
            }
            assert forall|k: int, l: int| 0 <= k < w.len() && 0 <= l < w.len() && k != l implies w[k] != w[l] by {
                if k < l {
                    assert(f[k] < f[l]);
                } else {
                    assert(f[l] < f[k]);
                }
                assert(r[f[k]] == w[k] && r[f[l]] == w[l]);
            }
        }
    }

    /// The nodes in an order where each comes after every node that depends on
    /// it: the nodes with nothing depending on them first, then those whose
    /// dependents are all placed. A node left out has, among its dependents or
    /// theirs, one that is not a node or one on a cycle.
    pub fn topological_sort(&self) -> (r: Vec<String>)
        requires
            targets(self.edges.view()).len() <= usize::MAX,
        ensures
            r.deep_view().no_duplicates(),
            forall|i: int| 0 <= i < r.deep_view().len() ==> self.node_set().contains(#[trigger] r.deep_view()[i]),
            forall|i: int, a: Seq<char>|
                #![trigger self.edge(a, r.deep_view()[i])]
                0 <= i < r.deep_view().len() && self.edge(a, r.deep_view()[i]) ==> exists|j: int|
                    0 <= j < i && #[trigger] r.deep_view()[j] == a,
            forall|y: Seq<char>|
                #[trigger] self.node_set().contains(y) ==> (r.deep_view().contains(y) <==> self.settled(y)),
    {
        let ghost es = self.edges.view();
        let ghost ns = self.nodes.view();
        self.edges.check_sorted();
        self.nodes.check_sorted();
        let n = self.nodes.len();
        // in-degree of every node, starting at zero
        let mut deg: StrMap<usize> = StrMap::new();
        let mut i: usize = 0;
        while i < n
            invariant
                ns == self.nodes.view(),
                n == ns.len(),
                i <= n,
                forall|a: int, b: int| 0 <= a < b < ns.len() ==> lex_lt(#[trigger] ns[a], #[trigger] ns[b]),
                deg.view().len() == i,
                forall|j: int| 0 <= j < i ==> #[trigger] deg.view()[j] == (ns[j], 0usize),
            decreases n - i,
        {
            proof {
                assert forall|j: int| 0 <= j < deg.view().len() implies lex_lt(#[trigger] deg.view()[j].0, ns[i as int]) by {
                    assert(deg.view()[j].0 == ns[j]);
                }
            }
            deg.push_back(self.nodes.at(i).clone(), 0);
            i += 1;
        }
        // count the entries that list each node
        let ne = self.edges.len();
        let mut e: usize = 0;
        while e < ne
            invariant
                es == self.edges.view(),
                ns == self.nodes.view(),
                n == ns.len(),
                ne == es.len(),
                e <= ne,
                forall|a: int, b: int| 0 <= a < b < ns.len() ==> lex_lt(#[trigger] ns[a], #[trigger] ns[b]),
                targets(es).len() <= usize::MAX,
                deg.view().len() == n,
                forall|j: int|
                    0 <= j < n ==> (#[trigger] deg.view()[j]).0 == ns[j] && deg.view()[j].1 == pending(
                        es.take(e as int),
                        Set::empty(),
                        ns[j],
                    ) && deg.view()[j].1 <= targets(es.take(e as int)).len(),
            decreases ne - e,
        {
            let deps = self.edges.value_at(e);
            let ghost dv = deps.deep_view();
            let ghost base = es.take(e as int);
            proof {
                assert(es.take(e + 1).drop_last() =~= base);
                assert(es[e as int].1 == *deps);
                lemma_targets_take(es, e + 1);
            }
            let mut m: usize = 0;
            while m < deps.len()
                invariant
                    es == self.edges.view(),
                    ns == self.nodes.view(),
                    n == ns.len(),
                    dv == deps.deep_view(),
                    base == es.take(e as int),
                    es[e as int].1 == *deps,
                    forall|a: int, b: int| 0 <= a < b < ns.len() ==> lex_lt(#[trigger] ns[a], #[trigger] ns[b]),
                    targets(base).len() + dv.len() <= usize::MAX,
                    m <= deps.len(),
                    deg.view().len() == n,
                    forall|j: int|
                        0 <= j < n ==> (#[trigger] deg.view()[j]).0 == ns[j] && deg.view()[j].1 == pending(
                            base,
                            Set::empty(),
                            ns[j],
                        ) + occ(dv.take(m as int), ns[j]) && deg.view()[j].1 <= targets(base).len() + m,
                decreases deps.len() - m,
            {
                let ghost dold = deg.view();
                proof {
                    assert(dv.take(m + 1) =~= dv.take(m as int).push(dv[m as int]));
                    assert(dv[m as int] == deps@[m as int]@);
                }
                match deg.index_of(deps[m].as_str()) {
                    Some(j) => {
                        proof {
                            lemma_key_index(dold, deps@[m as int]@);
                        }
                        let d = *deg.value_at(j);
                        deg.set_value(j, d + 1);
                        proof {
                            assert forall|k: int| 0 <= k < n implies (#[trigger] deg.view()[k]).0 == ns[k]
                                && deg.view()[k].1 == pending(base, Set::empty(), ns[k]) + occ(
                                dv.take(m + 1),
                                ns[k],
                            ) && deg.view()[k].1 <= targets(base).len() + m + 1 by {
                                lemma_occ_push(dv.take(m as int), dv[m as int], ns[k]);
                                if k != j {
                                    assert(ns[k] != ns[j as int]) by {
                                        if k < j {
                                            assert(lex_lt(ns[k], ns[j as int]));
                                        } else {
                                            assert(lex_lt(ns[j as int], ns[k]));
                                        }
                                        crate::ordmap::lemma_lex_irreflexive(ns[k]);
                                    }
                                }
                            }
                        }
                    },
                    None => {
                        proof {
                            lemma_key_index(dold, deps@[m as int]@);
                            assert forall|k: int| 0 <= k < n implies (#[trigger] deg.view()[k]).0 == ns[k]
                                && deg.view()[k].1 == pending(base, Set::empty(), ns[k]) + occ(
                                dv.take(m + 1),
                                ns[k],
                            ) && deg.view()[k].1 <= targets(base).len() + m + 1 by {
                                lemma_occ_push(dv.take(m as int), dv[m as int], ns[k]);
                                assert(dold[k].0 != dv[m as int]);
                            }
                        }
                    },
                }
                m += 1;
            }
            proof {
                assert(dv.take(dv.len() as int) =~= dv);
                let t = es.take(e + 1);
                assert(t.last() == es[e as int]);
                assert forall|j: int| 0 <= j < n implies (#[trigger] deg.view()[j]).0 == ns[j] && deg.view()[j].1
                    == pending(t, Set::empty(), ns[j]) && deg.view()[j].1 <= targets(t).len() by {}
            }
            e += 1;
        }
        proof {
            assert(es.take(ne as int) =~= es);
        }
        // start from the nodes nothing depends on
        let mut queue: Vec<String> = Vec::new();
        let ghost mut idx: Seq<int> = Seq::empty();
        let mut j: usize = 0;
        while j < n
            invariant
                ns == self.nodes.view(),
                n == ns.len(),
                j <= n,
                deg.view().len() == n,
                forall|a: int, b: int| 0 <= a < b < ns.len() ==> lex_lt(#[trigger] ns[a], #[trigger] ns[b]),
                forall|k: int| 0 <= k < n ==> (#[trigger] deg.view()[k]).0 == ns[k],
                pv(queue@).no_duplicates(),
                idx.len() == queue@.len(),
                forall|q: int|
                    0 <= q < queue@.len() ==> 0 <= #[trigger] idx[q] < j && ns[idx[q]] == queue@[q]@
                        && deg.view()[idx[q]].1 == 0,
                forall|k: int| 0 <= k < j && deg.view()[k].1 == 0 ==> pv(queue@).contains(#[trigger] ns[k]),
            decreases n - j,
        {
            if *deg.value_at(j) == 0 {
                let ghost qb = queue@;
                let ghost ib = idx;
                queue.push(self.nodes.at(j).clone());
                proof {
                    idx = idx.push(j as int);
                    assert(pv(queue@) =~= pv(qb).push(ns[j as int]));
                    assert(!pv(qb).contains(ns[j as int])) by {
                        if pv(qb).contains(ns[j as int]) {
                            let q = choose|q: int| 0 <= q < pv(qb).len() && pv(qb)[q] == ns[j as int];
                            assert(qb[q]@ == ns[j as int]);
                            let k = ib[q];
                            assert(lex_lt(ns[k], ns[j as int]));
                            crate::ordmap::lemma_lex_irreflexive(ns[k]);
                        }
                    }
                    assert forall|q: int| 0 <= q < queue@.len() implies 0 <= #[trigger] idx[q] < j + 1 && ns[idx[q]]
                        == queue@[q]@ && deg.view()[idx[q]].1 == 0 by {
                        if q < qb.len() {
                            assert(queue@[q] == qb[q]);
                            assert(idx[q] == ib[q]);
                        }
                    }
                    assert forall|k: int| 0 <= k < j + 1 && deg.view()[k].1 == 0 implies pv(queue@).contains(#[trigger] ns[k]) by {
                        if k < j {
                            let q = choose|q: int| 0 <= q < pv(qb).len() && pv(qb)[q] == ns[k];
                            assert(pv(queue@)[q] == ns[k]);
                        } else {
                            assert(pv(queue@)[pv(queue@).len() - 1] == ns[k]);
                        }
                    }
                }
            }
            j += 1;
        }
        let mut result: Vec<String> = Vec::new();
        proof {
            assert(pv(result@) =~= Seq::<Seq<char>>::empty());
            assert(Seq::<Seq<char>>::empty().to_set() =~= Set::<Seq<char>>::empty());
            assert forall|k: int| 0 <= k < n implies deg.view()[k].1 == pending(es, pv(result@).to_set(), #[trigger] ns[k]) by {}
            assert forall|k: int| 0 <= k < n implies (#[trigger] deg.view()[k].1 == 0) == (pv(result@).contains(ns[k]) || pv(queue@).contains(ns[k])) by {
                if pv(queue@).contains(ns[k]) {
                    let q = choose|q: int| 0 <= q < pv(queue@).len() && pv(queue@)[q] == ns[k];
                    assert(queue@[q]@ == ns[k]);
                    let k2 = idx[q];
                    if k2 != k {
                        if k2 < k {
                            assert(lex_lt(ns[k2], ns[k]));
                        } else {
                            assert(lex_lt(ns[k], ns[k2]));
                        }
                        crate::ordmap::lemma_lex_irreflexive(ns[k]);
                    }
                }
            }
            assert forall|q: int| 0 <= q < pv(queue@).len() implies self.node_set().contains(#[trigger] pv(queue@)[q]) by {
                let k = idx[q];
                assert(ns.contains(ns[k]));
            }
            assert forall|q: int, a: Seq<char>| 0 <= q < pv(queue@).len() && #[trigger] self.edge(a, pv(queue@)[q]) implies pv(result@).contains(a) by {
                let k = idx[q];
                let ei = self.lemma_edge_entry(a, ns[k]);
                lemma_pending_zero(es, Set::empty(), ns[k], ei);
            }
        }
        while queue.len() > 0
            invariant
                es == self.edges.view(),
                ns == self.nodes.view(),
                n == ns.len(),
                crate::ordmap::sorted_keys(es),
                forall|a: int, b: int| 0 <= a < b < ns.len() ==> lex_lt(#[trigger] ns[a], #[trigger] ns[b]),
                deg.view().len() == n,
                forall|k: int| 0 <= k < n ==> (#[trigger] deg.view()[k]).0 == ns[k],
                forall|k: int| 0 <= k < n ==> deg.view()[k].1 == pending(es, pv(result@).to_set(), #[trigger] ns[k]),
                forall|k: int| 0 <= k < n ==> (#[trigger] deg.view()[k].1 == 0) == (pv(result@).contains(ns[k]) || pv(queue@).contains(ns[k])),
                pv(result@).no_duplicates(),
                pv(queue@).no_duplicates(),
                forall|x: Seq<char>| pv(result@).contains(x) ==> !pv(queue@).contains(x),
                forall|q: int| 0 <= q < pv(result@).len() ==> self.node_set().contains(#[trigger] pv(result@)[q]),
                forall|q: int| 0 <= q < pv(queue@).len() ==> self.node_set().contains(#[trigger] pv(queue@)[q]),
                forall|q: int, a: Seq<char>|
                    #![trigger self.edge(a, pv(result@)[q])]
                    0 <= q < pv(result@).len() && self.edge(a, pv(result@)[q]) ==> exists|j: int| 0 <= j < q && #[trigger] pv(result@)[j] == a,
                forall|q: int, a: Seq<char>|
                    #![trigger self.edge(a, pv(queue@)[q])]
                    0 <= q < pv(queue@).len() && self.edge(a, pv(queue@)[q]) ==> pv(result@).contains(a),
            decreases n - pv(result@).len(),
        {
            proof {
                pv(result@).unique_seq_to_set();
                self.nodes.view().lemma_cardinality_of_set();
                assert(pv(result@).to_set().subset_of(self.node_set())) by {
                    assert forall|x: Seq<char>| pv(result@).to_set().contains(x) implies self.node_set().contains(x) by {
                        let q = choose|q: int| 0 <= q < pv(result@).len() && pv(result@)[q] == x;
                    }
                }
                vstd::set_lib::lemma_len_subset(pv(result@).to_set(), self.node_set());
            }
            let ghost r0 = pv(result@);
            let ghost q0 = pv(queue@);
            let node = queue.pop().unwrap();
            result.push(node.clone());
            let ghost r1 = pv(result@);
            let ghost qa = pv(queue@);
            proof {
                assert(r1 =~= r0.push(node@));
                assert(q0 =~= qa.push(node@));
                assert(q0[q0.len() - 1] == node@);
                assert(r1.to_set() =~= r0.to_set().insert(node@)) by {
                    assert forall|x: Seq<char>| r1.contains(x) == r0.to_set().insert(node@).contains(x) by {
                        if r1.contains(x) {
                            let q = choose|q: int| 0 <= q < r1.len() && r1[q] == x;
                            if q < r0.len() {
                                assert(r0[q] == x);
                            }
                        }
                        if r0.contains(x) {
                            let q = choose|q: int| 0 <= q < r0.len() && r0[q] == x;
                            assert(r1[q] == x);
                        }
                        assert(r1[r1.len() - 1] == node@);
                    }
                }
                lemma_pending_insert(es, r0.to_set(), node@, node@);
                assert(!r0.contains(node@)) by {
                    assert(q0.contains(node@));
                }
                assert(qa.no_duplicates()) by {
                    assert forall|a: int, b: int| 0 <= a < qa.len() && 0 <= b < qa.len() && a != b implies qa[a] != qa[b] by {
                        assert(qa[a] == q0[a] && qa[b] == q0[b]);
                    }
                }
                assert forall|x: Seq<char>| r1.contains(x) implies !qa.contains(x) by {
                    if qa.contains(x) {
                        let b = choose|b: int| 0 <= b < qa.len() && qa[b] == x;
                        assert(q0[b] == x);
                        if x == node@ {
                            assert(q0[q0.len() - 1] == x);
                        } else {
                            let a = choose|a: int| 0 <= a < r1.len() && r1[a] == x;
                            assert(r0[a] == x);
                        }
                    }
                }
                assert forall|x: Seq<char>| (r1.contains(x) || qa.contains(x)) == (r0.contains(x) || q0.contains(x)) by {
                    if r1.contains(x) {
                        let a = choose|a: int| 0 <= a < r1.len() && r1[a] == x;
                        if a < r0.len() {
                            assert(r0[a] == x);
                        }
                    }
                    if qa.contains(x) {
                        let b = choose|b: int| 0 <= b < qa.len() && qa[b] == x;
                        assert(q0[b] == x);
                    }
                    if r0.contains(x) {
                        let a = choose|a: int| 0 <= a < r0.len() && r0[a] == x;
                        assert(r1[a] == x);
                    }
                    if q0.contains(x) {
                        let b = choose|b: int| 0 <= b < q0.len() && q0[b] == x;
                        if b < qa.len() {
                            assert(qa[b] == x);
                        } else {
                            assert(r1[r1.len() - 1] == x);
                        }
                    }
                }
                assert forall|k: int| 0 <= k < n implies (#[trigger] deg.view()[k].1 == 0) == (r1.contains(ns[k]) || qa.contains(ns[k])) by {
                    assert((r1.contains(ns[k]) || qa.contains(ns[k])) == (r0.contains(ns[k]) || q0.contains(ns[k])));
                }
                assert forall|q: int| 0 <= q < qa.len() implies self.node_set().contains(#[trigger] qa[q]) by {
                    assert(qa[q] == q0[q]);
                }
                assert forall|q: int, a: Seq<char>|
                    #![trigger self.edge(a, qa[q])]
                    0 <= q < qa.len() && self.edge(a, qa[q]) implies r1.contains(a) by {
                    assert(qa[q] == q0[q]);
                    assert(self.edge(a, q0[q]));
                    let j = choose|j: int| 0 <= j < r0.len() && r0[j] == a;
                    assert(r1[j] == a);
                }
            }
            match self.edges.get(node.as_str()) {
                Some(deps) => {
                    let ghost dv = deps.deep_view();
                    let mut m: usize = 0;
                    while m < deps.len()
                        invariant
                            es == self.edges.view(),
                            ns == self.nodes.view(),
                            n == ns.len(),
                            crate::ordmap::sorted_keys(es),
                            forall|a: int, b: int| 0 <= a < b < ns.len() ==> lex_lt(#[trigger] ns[a], #[trigger] ns[b]),
                            dv == deps.deep_view(),
                            lookup(es, node@) == Some(*deps),
                            r1 == pv(result@),
                            r1 == r0.push(node@),
                            r1.to_set() == r0.to_set().insert(node@),
                            !r0.contains(node@),
                            m <= deps.len(),
                            deg.view().len() == n,
                            forall|k: int| 0 <= k < n ==> (#[trigger] deg.view()[k]).0 == ns[k],
                            forall|k: int|
                                0 <= k < n ==> deg.view()[k].1 + occ(dv.take(m as int), #[trigger] ns[k]) == pending(es, r0.to_set(), ns[k]),
                            forall|k: int| 0 <= k < n ==> (#[trigger] deg.view()[k].1 == 0) == (r1.contains(ns[k]) || pv(queue@).contains(ns[k])),
                            pv(queue@).no_duplicates(),
                            forall|x: Seq<char>| r1.contains(x) ==> !pv(queue@).contains(x),
                            forall|q: int| 0 <= q < pv(queue@).len() ==> self.node_set().contains(#[trigger] pv(queue@)[q]),
                            forall|q: int, a: Seq<char>|
                                #![trigger self.edge(a, pv(queue@)[q])]
                                0 <= q < pv(queue@).len() && self.edge(a, pv(queue@)[q]) ==> r1.contains(a),
                        decreases deps.len() - m,
                    {
                        let ghost dold = deg.view();
                        let ghost qbefore = pv(queue@);
                        proof {
                            assert(dv.take(m + 1) =~= dv.take(m as int).push(dv[m as int]));
                            assert(dv[m as int] == deps@[m as int]@);
                        }
                        match deg.index_of(deps[m].as_str()) {
                            Some(j) => {
                                proof {
                                    lemma_key_index(dold, deps@[m as int]@);
                                    lemma_pending_insert(es, r0.to_set(), node@, ns[j as int]);
                                    lemma_occ_take_le(dv, m + 1, ns[j as int]);
                                    lemma_occ_push(dv.take(m as int), dv[m as int], ns[j as int]);
                                }
                                let d = *deg.value_at(j);
                                deg.set_value(j, d - 1);
                                if d - 1 == 0 {
                                    let ghost qb = pv(queue@);
                                    queue.push(deps[m].clone());
                                    proof {
                                        assert(pv(queue@) =~= qb.push(ns[j as int]));
                                        assert(!qb.contains(ns[j as int]));
                                        assert(!r1.contains(ns[j as int]));
                                        // nothing else is pending for it: its dependents are all placed
                                        assert(pending(es, r1.to_set(), ns[j as int]) == 0) by {
                                            assert(r1.to_set() == r0.to_set().insert(node@));
                                        }
                                        assert forall|q: int, a: Seq<char>|
                                            #![trigger self.edge(a, pv(queue@)[q])]
                                            0 <= q < pv(queue@).len() && self.edge(a, pv(queue@)[q]) implies r1.contains(a) by {
                                            if q < qb.len() {
                                                assert(pv(queue@)[q] == qb[q]);
                                            } else {
                                                let ei = self.lemma_edge_entry(a, ns[j as int]);
                                                lemma_pending_zero(es, r1.to_set(), ns[j as int], ei);
                                            }
                                        }
                                        assert forall|q: int| 0 <= q < pv(queue@).len() implies self.node_set().contains(#[trigger] pv(queue@)[q]) by {
                                            if q < qb.len() {
                                                assert(pv(queue@)[q] == qb[q]);
                                            } else {
                                                assert(ns.contains(ns[j as int]));
                                            }
                                        }
                                        assert forall|x: Seq<char>| r1.contains(x) implies !pv(queue@).contains(x) by {
                                            if pv(queue@).contains(x) {
                                                let q = choose|q: int| 0 <= q < pv(queue@).len() && pv(queue@)[q] == x;
                                                if q < qb.len() {
                                                    assert(qb[q] == x);
                                                }
                                            }
                                        }
                                    }
                                }
                                proof {
                                    assert forall|k: int| 0 <= k < n implies deg.view()[k].1 + occ(dv.take(m + 1), #[trigger] ns[k]) == pending(es, r0.to_set(), ns[k]) by {
                                        lemma_occ_push(dv.take(m as int), dv[m as int], ns[k]);
                                        if k != j {
                                            assert(ns[k] != ns[j as int]) by {
                                                if k < j {
                                                    assert(lex_lt(ns[k], ns[j as int]));
                                                } else {
                                                    assert(lex_lt(ns[j as int], ns[k]));
                                                }
                                                crate::ordmap::lemma_lex_irreflexive(ns[k]);
                                            }
                                        }
                                    }
                                    assert forall|k: int| 0 <= k < n implies (#[trigger] deg.view()[k].1 == 0) == (r1.contains(ns[k]) || pv(queue@).contains(ns[k])) by {
                                        assert(dold[k].1 == 0 <==> (r1.contains(ns[k]) || qbefore.contains(ns[k])));
                                        if d - 1 == 0 {
                                            assert(pv(queue@) == qbefore.push(ns[j as int]));
                                            assert(pv(queue@)[pv(queue@).len() - 1] == ns[j as int]);
                                            assert forall|x: Seq<char>| #[trigger] pv(queue@).contains(x) == (qbefore.contains(x) || x == ns[j as int]) by {
                                                if pv(queue@).contains(x) {
                                                    let b = choose|b: int| 0 <= b < pv(queue@).len() && pv(queue@)[b] == x;
                                                    if b < qbefore.len() {
                                                        assert(qbefore[b] == x);
                                                    }
                                                }
                                                if qbefore.contains(x) {
                                                    let b = choose|b: int| 0 <= b < qbefore.len() && qbefore[b] == x;
                                                    assert(pv(queue@)[b] == x);
                                                }
                                            }
                                        } else {
                                            assert(pv(queue@) == qbefore);
                                        }
                                        if k != j {
                                            assert(ns[k] != ns[j as int]) by {
                                                if k < j {
                                                    assert(lex_lt(ns[k], ns[j as int]));
                                                } else {
                                                    assert(lex_lt(ns[j as int], ns[k]));
                                                }
                                                crate::ordmap::lemma_lex_irreflexive(ns[k]);
                                            }
                                        }
                                    }
                                }
                            },
                            None => {
                                proof {
                                    lemma_key_index(dold, deps@[m as int]@);
                                    assert forall|k: int| 0 <= k < n implies deg.view()[k].1 + occ(dv.take(m + 1), #[trigger] ns[k]) == pending(es, r0.to_set(), ns[k]) by {
                                        lemma_occ_push(dv.take(m as int), dv[m as int], ns[k]);
                                        assert(dold[k].0 != dv[m as int]);
                                    }
                                }
                            },
                        }
                        m += 1;
                    }
                    proof {
                        assert(dv.take(dv.len() as int) =~= dv);
                        assert forall|k: int| 0 <= k < n implies deg.view()[k].1 == pending(es, r1.to_set(), #[trigger] ns[k]) by {
                            lemma_pending_insert(es, r0.to_set(), node@, ns[k]);
                        }
                    }
                },
                None => {
                    proof {
                        assert forall|k: int| 0 <= k < n implies deg.view()[k].1 == pending(es, r1.to_set(), #[trigger] ns[k]) by {
                            lemma_pending_insert(es, r0.to_set(), node@, ns[k]);
                        }
                    }
                },
            }
            proof {
                assert(r1.no_duplicates()) by {
                    assert forall|a: int, b: int| 0 <= a < r1.len() && 0 <= b < r1.len() && a != b implies r1[a] != r1[b] by {
                        if a < r0.len() && b < r0.len() {
                            assert(r0[a] != r0[b]);
                        } else if a < r0.len() {
                            assert(r0[a] == r1[a]);
                        } else {
                            assert(r0[b] == r1[b]);
                        }
                    }
                }
                r1.unique_seq_to_set();
                self.nodes.view().lemma_cardinality_of_set();
                assert forall|x: Seq<char>| r1.to_set().contains(x) implies self.node_set().contains(x) by {
                    let q = choose|q: int| 0 <= q < r1.len() && r1[q] == x;
                    if q < r0.len() {
                        assert(r0[q] == x);
                    } else {
                        assert(q0.contains(node@));
                        let b = choose|b: int| 0 <= b < q0.len() && q0[b] == node@;
                        assert(self.node_set().contains(q0[b]));
                    }
                }
                vstd::set_lib::lemma_len_subset(r1.to_set(), self.node_set());
                assert forall|q: int, a: Seq<char>|
                    #![trigger self.edge(a, r1[q])]
                    0 <= q < r1.len() && self.edge(a, r1[q]) implies exists|j: int| 0 <= j < q && #[trigger] r1[j] == a by {
                    if q < r0.len() {
                        assert(r1[q] == r0[q]);
                        let j = choose|j: int| 0 <= j < q && #[trigger] r0[j] == a;
                        assert(r1[j] == a);
                    } else {
                        assert(self.edge(a, q0[q0.len() - 1]));
                        assert(r0.contains(a));
                        let j = choose|j: int| 0 <= j < r0.len() && r0[j] == a;
                        assert(r1[j] == a);
                    }
                }
            }
        }
        let ghost rf = pv(result@);
        proof {
            assert(result.deep_view() =~= rf);
            // every node left out has a dependent that is not placed
            assert forall|z: Seq<char>|
                #[trigger] self.node_set().contains(z) && !rf.contains(z) implies exists|a: Seq<char>|
                    #[trigger] self.edge(a, z) && !rf.contains(a) by {
                let k = choose|k: int| 0 <= k < n && ns[k] == z;
                assert(deg.view()[k].1 != 0);
                let ei = lemma_pending_pos(es, rf.to_set(), z);
                self.lemma_entry_edge(ei, z);
            }
            assert forall|y: Seq<char>|
                #[trigger] self.node_set().contains(y) implies (rf.contains(y) <==> self.settled(y)) by {
                if rf.contains(y) {
                    let q = choose|q: int| 0 <= q < rf.len() && rf[q] == y;
                    self.lemma_ordered_settled(rf, q);
                } else {
                    self.lemma_unsettled(rf, y);
                }
            }
        }
        result
    }

    proof fn lemma_closed_holds_walk(&self, v: Seq<Seq<char>>, from: Set<Seq<char>>, p: Seq<Seq<char>>)
        requires
            forall|x: Seq<char>| #[trigger] from.contains(x) ==> v.contains(x),
            forall|x: Seq<char>, y: Seq<char>|
                #![trigger v.contains(x), self.edge(x, y)]
                v.contains(x) && self.edge(x, y) ==> v.contains(y),
            self.is_walk(p),
            from.contains(p[0]),
        ensures
            v.contains(p.last()),
        decreases p.len(),
    {
        if p.len() > 1 {
            let q = p.drop_last();
            assert forall|i: int| 0 <= i < q.len() - 1 implies #[trigger] self.step(q, i) by {
                assert(self.step(p, i));
            }
            self.lemma_closed_holds_walk(v, from, q);
            assert(self.step(p, p.len() - 2));
        }
    }

    proof fn lemma_edge_in_universe(&self, extra: Seq<Seq<char>>, a: Seq<char>, b: Seq<char>)
        requires
            self.edge(a, b),
        ensures
            self.universe(extra).contains(b),
    {
        let es = self.edges.view();
        lemma_key_index(es, a);
        let i = key_index(es, a)->0;
        lemma_targets_contain(es, i, b);
        let t = targets(es);
        let k = choose|k: int| 0 <= k < t.len() && t[k] == b;
        let all = self.nodes.view() + extra + t;
        assert(all[self.nodes.view().len() + extra.len() + k] == b);
    }

    proof fn lemma_walk_extend(&self, from: Set<Seq<char>>, x: Seq<char>, y: Seq<char>)
        requires
            self.reaches(from, x),
            self.edge(x, y),
        ensures
            self.reaches(from, y),
    {
        let p = choose|p: Seq<Seq<char>>| #[trigger] self.is_walk(p) && from.contains(p[0]) && p.last() == x;
        let q = p.push(y);
        assert forall|i: int| 0 <= i < q.len() - 1 implies #[trigger] self.step(q, i) by {
            if i < p.len() - 1 {
                assert(self.step(p, i));
            }
        }
        assert(self.is_walk(q));
    }

    proof fn lemma_seed_reaches(&self, from: Set<Seq<char>>, x: Seq<char>)
        requires
            from.contains(x),
        ensures
            self.reaches(from, x),
    {
        let p = seq![x];
        assert(self.is_walk(p));
    }
}

/// Every graph of the components is free of cycles reachable from its nodes.
pub open spec fn ir_acyclic(cs: Seq<(Seq<char>, Component)>) -> bool {
    forall|g: DependencyGraph| #[trigger] g.is_graph_of(cs) ==> g.acyclic_from(g.node_set())
}

/// Graphs with the same edges agree on which walks there are.
proof fn lemma_same_walks(g1: DependencyGraph, g2: DependencyGraph, p: Seq<Seq<char>>)
    requires
        forall|n: Seq<char>| #[trigger] g1.succ(n) == g2.succ(n),
    ensures
        g1.is_walk(p) == g2.is_walk(p),
{
    assert forall|i: int| 0 <= i < p.len() - 1 implies g1.step(p, i) == g2.step(p, i) by {
        assert(g1.succ(p[i]) == g2.succ(p[i]));
    }
    if g1.is_walk(p) {
        assert forall|i: int| 0 <= i < p.len() - 1 implies #[trigger] g2.step(p, i) by {
            assert(g1.step(p, i));
        }
    }
    if g2.is_walk(p) {
        assert forall|i: int| 0 <= i < p.len() - 1 implies #[trigger] g1.step(p, i) by {
            assert(g2.step(p, i));
        }
    }
}

/// Whether the components are acyclic is decided by any one of their graphs.
pub proof fn lemma_ir_acyclic(g: DependencyGraph, cs: Seq<(Seq<char>, Component)>)
    requires
        g.is_graph_of(cs),
    ensures
        ir_acyclic(cs) == g.acyclic_from(g.node_set()),
{
    if g.acyclic_from(g.node_set()) {
        assert forall|h: DependencyGraph| #[trigger] h.is_graph_of(cs) implies h.acyclic_from(h.node_set()) by {
            DependencyGraph::lemma_graph_of_unique(g, h, cs);
            assert forall|p: Seq<Seq<char>>| #[trigger] h.is_walk(p) && h.node_set().contains(p[0]) implies p.no_duplicates() by {
                lemma_same_walks(g, h, p);
                assert(g.is_walk(p));
            }
        }
    }
}

/// The graph of the IR, refused where it holds a cycle reachable from its nodes.
pub fn link_dependencies(ir: &ProjectIR) -> (r: Result<DependencyGraph, String>)
    ensures
        r is Ok <==> ir_acyclic(ir.components.view()),
        r matches Ok(g) ==> g.is_graph_of(ir.components.view()) && g.acyclic_from(g.node_set()),
        r matches Err(msg) ==> exists|g: DependencyGraph, c: Seq<Seq<char>>|
            #[trigger] g.is_graph_of(ir.components.view()) && !g.acyclic_from(g.node_set())
                && #[trigger] g.is_cycle(c) && msg@ == "Circular dependency detected: "@ + debug_strings(c),
{
    let graph = DependencyGraph::from_ir(ir);
    proof {
        lemma_ir_acyclic(graph, ir.components.view());
    }
    match graph.detect_cycles() {
        Some(cycle) => {
            let shown = debug_string_list(&cycle);
            let msg = concat_strs("Circular dependency detected: ", shown.as_str());
            proof {
                assert(graph.is_cycle(cycle.deep_view()));
            }
            Err(msg)
        },
        None => Ok(graph),
    }
}

} // verus!
