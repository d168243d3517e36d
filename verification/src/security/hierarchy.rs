//! A permission hierarchy kept in memory: each parent permission implies
//! its children, and what a permission implies is everything reachable
//! from it. Implications that would close a cycle are refused.

use vstd::prelude::*;
use crate::security::capability::texts;
use crate::security::delegation::{PermissionHierarchy, contains_text};
use crate::runtime::text::same_text;
use crate::support::join_text;

verus! {

/// A graph of permissions: each parent with its children.
pub type Graph = Seq<(String, Vec<String>)>;

/// The parents of a graph.
pub open spec fn parents(g: Graph) -> Seq<Seq<char>> {
    g.map_values(|e: (String, Vec<String>)| e.0@)
}

/// Whether `a` implies `b` directly.
pub open spec fn edge(g: Graph, a: Seq<char>, b: Seq<char>) -> bool {
    exists|i: int| 0 <= i < g.len() && #[trigger] g[i].0@ == a && texts(g[i].1@).contains(b)
}

/// Whether the step from position `k` of `p` to the next is an edge.
pub open spec fn step(g: Graph, p: Seq<Seq<char>>, k: int) -> bool {
    edge(g, p[k], p[k + 1])
}

/// Whether `p` is a path of the graph.
pub open spec fn is_path(g: Graph, p: Seq<Seq<char>>) -> bool {
    p.len() >= 1 && forall|k: int| 0 <= k < p.len() - 1 ==> #[trigger] step(g, p, k)
}

/// Whether a path leads from `a` to `b`; every permission reaches itself.
pub open spec fn reaches(g: Graph, a: Seq<char>, b: Seq<char>) -> bool {
    exists|p: Seq<Seq<char>>| #[trigger] is_path(g, p) && p[0] == a && p.last() == b
}

/// Whether a path of at least one edge leads from `a` to `b`.
pub open spec fn implies_transitively(g: Graph, a: Seq<char>, b: Seq<char>) -> bool {
    exists|p: Seq<Seq<char>>| #[trigger] is_path(g, p) && p.len() >= 2 && p[0] == a && p.last() == b
}

/// Whether no permission implies itself through a path.
pub open spec fn acyclic(g: Graph) -> bool {
    forall|a: Seq<char>| !#[trigger] implies_transitively(g, a, a)
}

/// Every permission named in the graph.
pub open spec fn all_nodes(g: Graph) -> Seq<Seq<char>>
    decreases g.len(),
{
    if g.len() == 0 {
        Seq::empty()
    } else {
        all_nodes(g.drop_last()) + seq![g.last().0@] + texts(g.last().1@)
    }
}

/// Whether every parent appears once and every child once under it.
pub open spec fn well_formed_graph(g: Graph) -> bool {
    &&& parents(g).no_duplicates()
    &&& forall|i: int| 0 <= i < g.len() ==> texts(#[trigger] g[i].1@).no_duplicates()
}

/// The target of an edge is named in the graph.
proof fn lemma_edge_target_named(g: Graph, a: Seq<char>, b: Seq<char>)
    requires
        edge(g, a, b),
    ensures
        all_nodes(g).contains(b),
    decreases g.len(),
{
    let i = choose|i: int| 0 <= i < g.len() && #[trigger] g[i].0@ == a && texts(g[i].1@).contains(b);
    if i == g.len() - 1 {
        let t = texts(g.last().1@);
        let j = choose|j: int| 0 <= j < t.len() && t[j] == b;
        let front = all_nodes(g.drop_last()) + seq![g.last().0@];
        assert(all_nodes(g)[front.len() + j] == b);
    } else {
        assert(g.drop_last()[i] == g[i]);
        assert(edge(g.drop_last(), a, b));
        lemma_edge_target_named(g.drop_last(), a, b);
        let j = choose|j: int| 0 <= j < all_nodes(g.drop_last()).len() && all_nodes(g.drop_last())[j] == b;
        assert(all_nodes(g)[j] == b);
    }
}

/// A set that holds the start of a path and is closed under edges holds
/// its end.
proof fn lemma_closed_holds_end(g: Graph, vs: Seq<Seq<char>>, p: Seq<Seq<char>>)
    requires
        is_path(g, p),
        vs.contains(p[0]),
        forall|v: Seq<char>, c: Seq<char>| vs.contains(v) && #[trigger] edge(g, v, c) ==> vs.contains(c),
    ensures
        vs.contains(p.last()),
    decreases p.len(),
{
    if p.len() > 1 {
        let q = p.drop_last();
        assert forall|k: int| 0 <= k < q.len() - 1 implies #[trigger] step(g, q, k) by {
            assert(step(g, p, k));
        }
        lemma_closed_holds_end(g, vs, q);
        assert(step(g, p, p.len() - 2));
        assert(q.last() == p[p.len() - 2]);
    }
}

/// A path extended by an edge is a path.
proof fn lemma_extend_path(g: Graph, p: Seq<Seq<char>>, c: Seq<char>)
    requires
        is_path(g, p),
        edge(g, p.last(), c),
    ensures
        is_path(g, p.push(c)),
        p.push(c)[0] == p[0],
        p.push(c).last() == c,
{
    let q = p.push(c);
    assert forall|k: int| 0 <= k < q.len() - 1 implies #[trigger] step(g, q, k) by {
        if k < p.len() - 1 {
            assert(step(g, p, k));
        }
    }
}

/// A distinct list of names from a list has at most its length.
proof fn lemma_distinct_within(vs: Seq<Seq<char>>, ns: Seq<Seq<char>>)
    requires
        vs.no_duplicates(),
        forall|s: Seq<char>| #[trigger] vs.contains(s) ==> ns.contains(s),
    ensures
        vs.len() <= ns.len(),
{
    vs.unique_seq_to_set();
    ns.lemma_cardinality_of_set();
    assert(vs.to_set().subset_of(ns.to_set())) by {
        assert forall|s: Seq<char>| vs.to_set().contains(s) implies ns.to_set().contains(s) by {
            assert(vs.contains(s));
        }
    }
    vstd::set_lib::lemma_len_subset(vs.to_set(), ns.to_set());
}

/// The children of parent `p`, none when it is not a parent.
pub open spec fn children_of(g: Graph, p: Seq<char>) -> Seq<Seq<char>> {
    if exists|i: int| 0 <= i < g.len() && #[trigger] g[i].0@ == p {
        texts(g[choose|i: int| 0 <= i < g.len() && #[trigger] g[i].0@ == p].1@)
    } else {
        Seq::empty()
    }
}

/// The edges of the longest chain of implications from `p` of at most
/// `k` edges.
pub open spec fn depth_within(g: Graph, p: Seq<char>, k: nat) -> nat
    decreases k, 0nat,
{
    if k == 0 {
        0
    } else {
        deepest(g, children_of(g, p), (k - 1) as nat)
    }
}

/// The edges of the longest chain that starts with an edge to one of
/// `cs` and then takes at most `k` edges.
pub open spec fn deepest(g: Graph, cs: Seq<Seq<char>>, k: nat) -> nat
    decreases k, cs.len() + 1,
{
    if cs.len() == 0 {
        0
    } else {
        let rest = deepest(g, cs.drop_last(), k);
        let here = 1 + depth_within(g, cs.last(), k);
        if rest >= here {
            rest
        } else {
            here
        }
    }
}

/// The number of names in the graph, parents and children counted once
/// per mention.
pub open spec fn node_count(g: Graph) -> nat {
    all_nodes(g).len()
}

/// The number of parent and child pairs.
pub open spec fn relationship_count(g: Graph) -> nat
    decreases g.len(),
{
    if g.len() == 0 {
        0
    } else {
        relationship_count(g.drop_last()) + g.last().1@.len()
    }
}

/// The longest chain of implications from any parent, at most `k` edges.
pub open spec fn max_depth_within(g: Graph, n: int, k: nat) -> nat
    decreases n,
{
    if n <= 0 {
        0
    } else {
        let rest = max_depth_within(g, n - 1, k);
        let here = depth_within(g, g[n - 1].0@, k);
        if rest >= here {
            rest
        } else {
            here
        }
    }
}

/// Whether `p` is a child of some parent.
pub open spec fn is_child(g: Graph, p: Seq<char>) -> bool {
    exists|i: int| 0 <= i < g.len() && #[trigger] texts(g[i].1@).contains(p)
}

/// The bound on chain lengths.
proof fn lemma_depth_bound(g: Graph, p: Seq<char>, k: nat)
    ensures
        depth_within(g, p, k) <= k,
    decreases k, 0nat,
{
    if k > 0 {
        lemma_deepest_bound(g, children_of(g, p), (k - 1) as nat);
    }
}

/// The bound on chain lengths through children.
proof fn lemma_deepest_bound(g: Graph, cs: Seq<Seq<char>>, k: nat)
    ensures
        deepest(g, cs, k) <= k + 1,
    decreases k, cs.len() + 1,
{
    if cs.len() > 0 {
        lemma_deepest_bound(g, cs.drop_last(), k);
        lemma_depth_bound(g, cs.last(), k);
    }
}

/// Paths of an extended graph: each edge of the graph with one edge more
/// is an edge of the graph or the new one.
proof fn lemma_split_path(g: Graph, h: Graph, a: Seq<char>, b: Seq<char>, p: Seq<Seq<char>>)
    requires
        forall|x: Seq<char>, y: Seq<char>| #[trigger] edge(h, x, y) ==> edge(g, x, y) || (x == a && y == b),
        is_path(h, p),
    ensures
        is_path(g, p) || (reaches(g, p[0], a) && reaches(g, b, p.last())),
    decreases p.len(),
{
    if p.len() > 1 {
        let q = p.drop_last();
        assert forall|k: int| 0 <= k < q.len() - 1 implies #[trigger] step(h, q, k) by {
            assert(step(h, p, k));
        }
        lemma_split_path(g, h, a, b, q);
        let u = q.last();
        let v = p.last();
        assert(step(h, p, p.len() - 2));
        assert(edge(h, u, v));
        if edge(g, u, v) {
            if is_path(g, q) {
                lemma_extend_path(g, q, v);
                assert(q.push(v) =~= p);
            } else {
                let r = choose|r: Seq<Seq<char>>| #[trigger] is_path(g, r) && r[0] == b && r.last() == u;
                lemma_extend_path(g, r, v);
            }
        } else {
            assert(u == a && v == b);
            if is_path(g, q) {
                assert(is_path(g, q) && q[0] == p[0] && q.last() == a);
            }
            let r = seq![b];
            assert(is_path(g, r));
        }
    }
}

/// Joining two paths that meet gives a path.
proof fn lemma_join_paths(g: Graph, p: Seq<Seq<char>>, q: Seq<Seq<char>>)
    requires
        is_path(g, p),
        is_path(g, q),
        p.last() == q[0],
    ensures
        is_path(g, p + q.drop_first()),
        (p + q.drop_first())[0] == p[0],
        (p + q.drop_first()).last() == q.last(),
    decreases q.len(),
{
    let r = p + q.drop_first();
    assert forall|k: int| 0 <= k < r.len() - 1 implies #[trigger] step(g, r, k) by {
        if k < p.len() - 1 {
            assert(step(g, p, k));
        } else {
            let j = k - (p.len() - 1);
            assert(step(g, q, j));
            assert(r[k] == q[j]);
            assert(r[k + 1] == q[j + 1]);
        }
    }
}

/// Adding an edge `a` to `b` where `b` does not reach `a` keeps a graph
/// free of cycles.
pub proof fn lemma_edge_keeps_acyclic(g: Graph, h: Graph, a: Seq<char>, b: Seq<char>)
    requires
        acyclic(g),
        !reaches(g, b, a),
        forall|x: Seq<char>, y: Seq<char>| #[trigger] edge(h, x, y) ==> edge(g, x, y) || (x == a && y == b),
    ensures
        acyclic(h),
{
    assert forall|x: Seq<char>| !#[trigger] implies_transitively(h, x, x) by {
        if implies_transitively(h, x, x) {
            let p = choose|p: Seq<Seq<char>>| #[trigger] is_path(h, p) && p.len() >= 2 && p[0] == x && p.last() == x;
            lemma_split_path(g, h, a, b, p);
            if is_path(g, p) {
                assert(implies_transitively(g, x, x));
            } else {
                let r1 = choose|r: Seq<Seq<char>>| #[trigger] is_path(g, r) && r[0] == b && r.last() == x;
                let r2 = choose|r: Seq<Seq<char>>| #[trigger] is_path(g, r) && r[0] == x && r.last() == a;
                lemma_join_paths(g, r1, r2);
                assert(reaches(g, b, a));
            }
        }
    }
}

/// Dropping edges keeps a graph free of cycles.
pub proof fn lemma_fewer_edges_keep_acyclic(g: Graph, h: Graph)
    requires
        acyclic(g),
        forall|x: Seq<char>, y: Seq<char>| #[trigger] edge(h, x, y) ==> edge(g, x, y),
    ensures
        acyclic(h),
{
    assert forall|x: Seq<char>| !#[trigger] implies_transitively(h, x, x) by {
        if implies_transitively(h, x, x) {
            let p = choose|p: Seq<Seq<char>>| #[trigger] is_path(h, p) && p.len() >= 2 && p[0] == x && p.last() == x;
            assert forall|k: int| 0 <= k < p.len() - 1 implies #[trigger] step(g, p, k) by {
                assert(step(h, p, k));
            }
            assert(is_path(g, p));
            assert(implies_transitively(g, x, x));
        }
    }
}

/// The empty graph has no cycle.
pub proof fn lemma_empty_acyclic(g: Graph)
    requires
        g.len() == 0,
    ensures
        acyclic(g),
{
    assert forall|x: Seq<char>| !#[trigger] implies_transitively(g, x, x) by {
        if implies_transitively(g, x, x) {
            let p = choose|p: Seq<Seq<char>>| #[trigger] is_path(g, p) && p.len() >= 2 && p[0] == x && p.last() == x;
            assert(step(g, p, 0));
        }
    }
}

/// Statistics of a hierarchy.
#[derive(Debug, Clone)]
pub struct HierarchyStats {
    /// Permissions with children.
    pub total_permissions: usize,
    /// Parent and child pairs.
    pub total_relationships: usize,
    /// Edges of the longest chain of implications.
    pub max_depth: usize,
    /// Parents that are nobody's child.
    pub leaf_permissions: usize,
}

/// Permissions and what each implies, kept in memory.
pub struct SimplePermissionHierarchy {
    hierarchy: Vec<(String, Vec<String>)>,
}

impl SimplePermissionHierarchy {
    #[verifier::type_invariant]
    spec fn graph_invariant(&self) -> bool {
        well_formed_graph(self.hierarchy@)
    }

    /// The graph.
    pub closed spec fn graph(&self) -> Graph {
        self.hierarchy@
    }

    /// An empty hierarchy.
    pub fn new() -> (h: Self)
        ensures
            h.graph().len() == 0,
    {
        SimplePermissionHierarchy { hierarchy: Vec::new() }
    }

    /// The position of parent `name`, if any.
    fn position_of(&self, name: &str) -> (r: Option<usize>)
        ensures
            match r {
                Some(i) => i < self.graph().len() && self.graph()[i as int].0@ == name@,
                None => forall|i: int| 0 <= i < self.graph().len() ==> #[trigger] self.graph()[i].0@ != name@,
            },
    {
        let mut i: usize = 0;
        while i < self.hierarchy.len()
            invariant
                i <= self.hierarchy@.len(),
                forall|j: int| 0 <= j < i ==> #[trigger] self.hierarchy@[j].0@ != name@,
            decreases self.hierarchy.len() - i,
        {
            if same_text(self.hierarchy[i].0.as_str(), name) {
                return Some(i);
            }
            i = i + 1;
        }
        None
    }

    /// Every permission `permission` implies through at least one edge,
    /// each once.
    fn get_all_implied_permissions(&self, permission: &str) -> (r: Vec<String>)
        ensures
            texts(r@).no_duplicates(),
            forall|s: Seq<char>| #[trigger] texts(r@).contains(s) <==> implies_transitively(self.graph(), permission@, s),
    {
        proof {
            use_type_invariant(self);
        }
        let ghost g = self.graph();
        let ghost ns = all_nodes(g);
        let ghost perm = permission@;
        let mut result: Vec<String> = Vec::new();
        let mut to_process: Vec<String> = Vec::new();
        to_process.push(permission.to_owned());
        proof {
            assert(texts(to_process@)[0] == perm);
        }
        while to_process.len() > 0
            invariant
                g == self.graph(),
                well_formed_graph(g),
                ns == all_nodes(g),
                perm == permission@,
                texts(result@).no_duplicates(),
                forall|s: Seq<char>|
                    #[trigger] texts(result@).contains(s) ==> implies_transitively(g, perm, s) && ns.contains(s),
                forall|s: Seq<char>| #[trigger] texts(to_process@).contains(s) ==> s == perm || texts(result@).contains(s),
                forall|v: Seq<char>, c: Seq<char>|
                    (v == perm || texts(result@).contains(v)) && #[trigger] edge(g, v, c) ==> texts(result@).contains(c)
                        || texts(to_process@).contains(v),
            decreases ns.len() - result@.len(), to_process@.len(),
        {
            proof {
                lemma_distinct_within(texts(result@), ns);
            }
            let ghost old_pending = texts(to_process@);
            let ghost old_result = texts(result@);
            let current = to_process.pop().unwrap();
            proof {
                assert(old_pending == texts(to_process@).push(current@));
                assert(old_pending[old_pending.len() - 1] == current@);
                assert(old_pending.contains(current@));
                assert forall|x: Seq<char>| old_pending.contains(x) implies #[trigger] texts(to_process@).contains(x) || x == current@ by {
                    let j = choose|j: int| 0 <= j < old_pending.len() && old_pending[j] == x;
                    if j < old_pending.len() - 1 {
                        assert(texts(to_process@)[j] == x);
                    }
                }
                assert forall|x: Seq<char>| #[trigger] texts(to_process@).contains(x) implies old_pending.contains(x) by {
                    let j = choose|j: int| 0 <= j < texts(to_process@).len() && texts(to_process@)[j] == x;
                    assert(old_pending[j] == x);
                }
                if current@ != perm {
                    assert(old_result.contains(current@));
                }
            }
            match self.position_of(current.as_str()) {
                Some(e) => {
                    let children = &self.hierarchy[e];
                    let mut k: usize = 0;
                    while k < children.1.len()
                        invariant
                            g == self.graph(),
                            well_formed_graph(g),
                            ns == all_nodes(g),
                            perm == permission@,
                            e < g.len(),
                            g[e as int] == *children,
                            g[e as int].0@ == current@,
                            current@ == perm || implies_transitively(g, perm, current@),
                            k <= children.1@.len(),
                            texts(result@).no_duplicates(),
                            result@.len() >= old_result.len(),
                            forall|x: Seq<char>| #[trigger] old_result.contains(x) ==> texts(result@).contains(x),
                            forall|x: Seq<char>|
                                #[trigger] texts(result@).contains(x) ==> implies_transitively(g, perm, x) && ns.contains(x),
                            forall|x: Seq<char>|
                                #[trigger] texts(to_process@).contains(x) ==> x == perm || texts(result@).contains(x),
                            forall|x: Seq<char>|
                                #[trigger] old_pending.contains(x) ==> texts(to_process@).contains(x) || x == current@,
                            forall|q: int| 0 <= q < k ==> texts(result@).contains(#[trigger] children.1@[q]@),
                            forall|x: Seq<char>|
                                #[trigger] texts(result@).contains(x) && !old_result.contains(x) ==> texts(
                                    to_process@,
                                ).contains(x),
                            result@.len() > old_result.len() || to_process@.len() < old_pending.len(),
                        decreases children.1.len() - k,
                    {
                        let c = children.1[k].as_str();
                        if !contains_text(&result, c) {
                            let ghost before_r = texts(result@);
                            let ghost before_p = texts(to_process@);
                            result.push(c.to_owned());
                            to_process.push(c.to_owned());
                            proof {
                                assert(texts(result@) == before_r.push(c@));
                                assert(texts(to_process@) == before_p.push(c@));
                                assert(texts(g[e as int].1@)[k as int] == c@);
                                assert(edge(g, current@, c@));
                                if current@ == perm {
                                    let p = seq![perm, c@];
                                    assert(step(g, p, 0));
                                    assert(is_path(g, p));
                                } else {
                                    let p = choose|p: Seq<Seq<char>>| #[trigger] is_path(g, p) && p.len() >= 2 && p[0] == perm && p.last() == current@;
                                    lemma_extend_path(g, p, c@);
                                    assert(is_path(g, p.push(c@)));
                                }
                                lemma_edge_target_named(g, current@, c@);
                                assert forall|x: Seq<char>| #[trigger] texts(result@).contains(x) <==> before_r.contains(x) || x == c@ by {
                                    if texts(result@).contains(x) {
                                        let j = choose|j: int| 0 <= j < texts(result@).len() && texts(result@)[j] == x;
                                        if j < before_r.len() {
                                            assert(before_r[j] == x);
                                        }
                                    }
                                    if before_r.contains(x) {
                                        let j = choose|j: int| 0 <= j < before_r.len() && before_r[j] == x;
                                        assert(texts(result@)[j] == x);
                                    }
                                    assert(texts(result@)[before_r.len() as int] == c@);
                                }
                                assert forall|x: Seq<char>| #[trigger] texts(to_process@).contains(x) <==> before_p.contains(x) || x == c@ by {
                                    if texts(to_process@).contains(x) {
                                        let j = choose|j: int| 0 <= j < texts(to_process@).len() && texts(to_process@)[j] == x;
                                        if j < before_p.len() {
                                            assert(before_p[j] == x);
                                        }
                                    }
                                    if before_p.contains(x) {
                                        let j = choose|j: int| 0 <= j < before_p.len() && before_p[j] == x;
                                        assert(texts(to_process@)[j] == x);
                                    }
                                    assert(texts(to_process@)[before_p.len() as int] == c@);
                                }
                                assert forall|a: int, b: int| 0 <= a < b < texts(result@).len() implies texts(result@)[a]
                                    != texts(result@)[b] by {
                                    if b == before_r.len() {
                                        assert(before_r[a] == texts(result@)[a]);
                                        assert(before_r.contains(before_r[a]));
                                    }
                                }
                            }
                        }
                        k = k + 1;
                    }
                    proof {
                        assert forall|v: Seq<char>, c: Seq<char>|
                            (v == perm || texts(result@).contains(v)) && #[trigger] edge(g, v, c) implies texts(result@).contains(c)
                                || texts(to_process@).contains(v) by {
                            if v == current@ {
                                let i = choose|i: int| 0 <= i < g.len() && #[trigger] g[i].0@ == v && texts(g[i].1@).contains(c);
                                if i != e {
                                    assert(parents(g)[i] == parents(g)[e as int]);
                                }
                                let q = choose|q: int| 0 <= q < texts(g[i].1@).len() && texts(g[i].1@)[q] == c;
                                assert(texts(result@).contains(children.1@[q]@));
                            } else if v == perm || old_result.contains(v) {
                                assert(old_result.contains(c) || old_pending.contains(v));
                            } else {
                                assert(texts(result@).contains(v));
                                assert(texts(to_process@).contains(v));
                            }
                        }
                    }
                },
                None => {
                    proof {
                        assert forall|v: Seq<char>, c: Seq<char>|
                            (v == perm || texts(result@).contains(v)) && #[trigger] edge(g, v, c) implies texts(result@).contains(c)
                                || texts(to_process@).contains(v) by {
                            if v == current@ {
                                let i = choose|i: int| 0 <= i < g.len() && #[trigger] g[i].0@ == v && texts(g[i].1@).contains(c);
                                assert(g[i].0@ != current@);
                            } else {
                                assert(old_result.contains(c) || old_pending.contains(v));
                            }
                        }
                    }
                },
            }
            proof {
                lemma_distinct_within(texts(result@), ns);
            }
        }
        proof {
            assert forall|s: Seq<char>| implies_transitively(g, perm, s) implies #[trigger] texts(result@).contains(s) by {
                let p = choose|p: Seq<Seq<char>>| #[trigger] is_path(g, p) && p.len() >= 2 && p[0] == perm && p.last() == s;
                let vs = texts(result@).push(perm);
                assert(vs[vs.len() - 1] == perm);
                assert forall|v: Seq<char>, c: Seq<char>| vs.contains(v) && #[trigger] edge(g, v, c) implies vs.contains(c) by {
                    if vs.contains(v) {
                        let j = choose|j: int| 0 <= j < vs.len() && vs[j] == v;
                        if j < vs.len() - 1 {
                            assert(texts(result@)[j] == v);
                        }
                    }
                    assert(texts(result@).contains(c));
                    let j = choose|j: int| 0 <= j < texts(result@).len() && texts(result@)[j] == c;
                    assert(vs[j] == c);
                }
                let q = p.drop_last();
                assert forall|k: int| 0 <= k < q.len() - 1 implies #[trigger] step(g, q, k) by {
                    assert(step(g, p, k));
                }
                lemma_closed_holds_end(g, vs, q);
                let u = q.last();
                let j = choose|j: int| 0 <= j < vs.len() && vs[j] == u;
                if j < vs.len() - 1 {
                    assert(texts(result@)[j] == u);
                }
                assert(step(g, p, p.len() - 2));
                assert(edge(g, u, s));
            }
        }
        result
    }

    /// Records that `parent` implies `child`, unless `child` already
    /// reaches `parent`: then the cycle is refused and nothing changes.
    fn add_edge(&mut self, parent: &str, child: &str) -> (r: Result<(), String>)
        ensures
            reaches(old(self).graph(), child@, parent@) ==> {
                &&& r matches Err(m)
                &&& m@ == "Adding implication "@ + parent@ + " -> "@ + child@ + " would create a cycle"@
                &&& final(self).graph() == old(self).graph()
            },
            !reaches(old(self).graph(), child@, parent@) ==> {
                &&& r is Ok
                &&& forall|x: Seq<char>, y: Seq<char>|
                    #[trigger] edge(final(self).graph(), x, y) <==> edge(old(self).graph(), x, y) || (x == parent@
                        && y == child@)
            },
    {
        proof {
            use_type_invariant(&*self);
        }
        if self.has_cycle(parent, child) {
            let m1 = join_text("Adding implication ", parent);
            let m2 = join_text(m1.as_str(), " -> ");
            let m3 = join_text(m2.as_str(), child);
            return Err(join_text(m3.as_str(), " would create a cycle"));
        }
        let ghost g = self.graph();
        let pos = self.position_of(parent);
        let mut h: Vec<(String, Vec<String>)> = Vec::new();
        std::mem::swap(&mut h, &mut self.hierarchy);
        proof {
            assert(h@ == g);
        }
        match pos {
            Some(i) => {
                let mut entry = h.remove(i);
                let ghost before_children = texts(entry.1@);
                if !contains_text(&entry.1, child) {
                    entry.1.push(child.to_owned());
                    proof {
                        assert(texts(entry.1@) == before_children.push(child@));
                        assert forall|a: int, b: int| 0 <= a < b < texts(entry.1@).len() implies texts(entry.1@)[a]
                            != texts(entry.1@)[b] by {
                            if b == before_children.len() {
                                assert(before_children[a] == texts(entry.1@)[a]);
                                assert(before_children.contains(before_children[a]));
                            }
                        }
                    }
                }
                h.insert(i, entry);
                proof {
                    assert(forall|j: int| 0 <= j < g.len() && j != i ==> #[trigger] h@[j] == g[j]);
                    assert(h@.len() == g.len());
                    assert forall|j: int| 0 <= j < h@.len() implies texts(#[trigger] h@[j].1@).no_duplicates() by {
                        if j != i {
                            assert(h@[j] == g[j]);
                        }
                    }
                    assert(parents(h@) =~= parents(g));
                    assert forall|s: Seq<char>| #[trigger] texts(h@[i as int].1@).contains(s) <==> before_children.contains(s)
                        || s == child@ by {
                        let t = texts(h@[i as int].1@);
                        if t.contains(s) {
                            let j = choose|j: int| 0 <= j < t.len() && t[j] == s;
                            if j < before_children.len() {
                                assert(before_children[j] == s);
                            }
                        }
                        if before_children.contains(s) {
                            let j = choose|j: int| 0 <= j < before_children.len() && before_children[j] == s;
                            assert(t[j] == s);
                        }
                        if s == child@ && !before_children.contains(s) {
                            assert(t[before_children.len() as int] == s);
                        }
                    }
                    assert forall|x: Seq<char>, y: Seq<char>|
                        #[trigger] edge(h@, x, y) <==> edge(g, x, y) || (x == parent@ && y == child@) by {
                        if edge(h@, x, y) {
                            let j = choose|j: int| 0 <= j < h@.len() && #[trigger] h@[j].0@ == x && texts(h@[j].1@).contains(y);
                            if j != i {
                                assert(g[j] == h@[j]);
                            } else {
                                assert(g[j].0@ == x);
                                if y != child@ {
                                    assert(before_children.contains(y));
                                    assert(texts(g[j].1@).contains(y));
                                }
                            }
                        }
                        if edge(g, x, y) {
                            let j = choose|j: int| 0 <= j < g.len() && #[trigger] g[j].0@ == x && texts(g[j].1@).contains(y);
                            if j != i {
                                assert(g[j] == h@[j]);
                            } else {
                                assert(before_children.contains(y));
                                assert(texts(h@[j].1@).contains(y));
                                assert(h@[j].0@ == x);
                            }
                        }
                        if x == parent@ && y == child@ {
                            assert(h@[i as int].0@ == x);
                            assert(texts(h@[i as int].1@).contains(y));
                        }
                    }
                }
            },
            None => {
                let mut children: Vec<String> = Vec::new();
                children.push(child.to_owned());
                h.push((parent.to_owned(), children));
                proof {
                    assert(h@.drop_last() == g);
                    assert(parents(h@) =~= parents(g).push(parent@));
                    assert(!parents(g).contains(parent@)) by {
                        if parents(g).contains(parent@) {
                            let j = choose|j: int| 0 <= j < parents(g).len() && parents(g)[j] == parent@;
                            assert(g[j].0@ == parent@);
                        }
                    }
                    assert forall|a: int, b: int| 0 <= a < b < parents(h@).len() implies parents(h@)[a]
                        != parents(h@)[b] by {
                        if b == g.len() {
                            assert(parents(g)[a] == parents(h@)[a]);
                            assert(parents(g).contains(parents(g)[a]));
                        }
                    }
                    assert(texts(h@.last().1@) =~= seq![child@]);
                    assert forall|j: int| 0 <= j < h@.len() implies texts(#[trigger] h@[j].1@).no_duplicates() by {
                        if j < g.len() {
                            assert(h@[j] == g[j]);
                        }
                    }
                    assert forall|x: Seq<char>, y: Seq<char>|
                        #[trigger] edge(h@, x, y) <==> edge(g, x, y) || (x == parent@ && y == child@) by {
                        if edge(h@, x, y) {
                            let j = choose|j: int| 0 <= j < h@.len() && #[trigger] h@[j].0@ == x && texts(h@[j].1@).contains(y);
                            if j < g.len() {
                                assert(g[j] == h@[j]);
                            } else {
                                let t = texts(h@[j].1@);
                                let q = choose|q: int| 0 <= q < t.len() && t[q] == y;
                                assert(t[q] == child@);
                            }
                        }
                        if edge(g, x, y) {
                            let j = choose|j: int| 0 <= j < g.len() && #[trigger] g[j].0@ == x && texts(g[j].1@).contains(y);
                            assert(g[j] == h@[j]);
                        }
                        if x == parent@ && y == child@ {
                            assert(h@[g.len() as int].0@ == x);
                            assert(texts(h@[g.len() as int].1@)[0] == y);
                        }
                    }
                }
            },
        }
        self.hierarchy = h;
        Ok(())
    }

    /// Forgets that `parent` implies `child`; a parent left without
    /// children is dropped.
    fn remove_edge(&mut self, parent: &str, child: &str)
        ensures
            forall|x: Seq<char>, y: Seq<char>|
                #[trigger] edge(final(self).graph(), x, y) <==> edge(old(self).graph(), x, y) && !(x == parent@
                    && y == child@),
    {
        proof {
            use_type_invariant(&*self);
        }
        let ghost g = self.graph();
        let pos = self.position_of(parent);
        match pos {
            None => {
                proof {
                    assert forall|x: Seq<char>, y: Seq<char>| #[trigger] edge(g, x, y) implies !(x == parent@ && y == child@) by {
                        let j = choose|j: int| 0 <= j < g.len() && #[trigger] g[j].0@ == x && texts(g[j].1@).contains(y);
                    }
                }
            },
            Some(i) => {
                let mut h: Vec<(String, Vec<String>)> = Vec::new();
                std::mem::swap(&mut h, &mut self.hierarchy);
                let mut entry = h.remove(i);
                let ghost before = texts(entry.1@);
                let mut kept: Vec<String> = Vec::new();
                let mut k: usize = 0;
                while k < entry.1.len()
                    invariant
                        k <= entry.1@.len(),
                        before == texts(entry.1@),
                        before.no_duplicates(),
                        texts(kept@).no_duplicates(),
                        forall|s: Seq<char>| #[trigger] texts(kept@).contains(s) <==> texts(entry.1@.take(k as int)).contains(s) && s != child@,
                    decreases entry.1.len() - k,
                {
                    let c = entry.1[k].as_str();
                    let ghost pre = texts(kept@);
                    proof {
                        assert(texts(entry.1@.take(k + 1)) =~= texts(entry.1@.take(k as int)).push(c@));
                    }
                    if !same_text(c, child) {
                        kept.push(c.to_owned());
                        proof {
                            assert(texts(kept@) == pre.push(c@));
                            assert(!texts(entry.1@.take(k as int)).contains(c@)) by {
                                if texts(entry.1@.take(k as int)).contains(c@) {
                                    let j = choose|j: int| 0 <= j < k && texts(entry.1@.take(k as int))[j] == c@;
                                    assert(before[j] == before[k as int]);
                                }
                            }
                            assert forall|a: int, b: int| 0 <= a < b < texts(kept@).len() implies texts(kept@)[a]
                                != texts(kept@)[b] by {
                                if b == pre.len() {
                                    assert(pre[a] == texts(kept@)[a]);
                                    assert(pre.contains(pre[a]));
                                }
                            }
                        }
                    }
                    proof {
                        let t1 = texts(entry.1@.take(k + 1));
                        let t0 = texts(entry.1@.take(k as int));
                        assert forall|s: Seq<char>| #[trigger] texts(kept@).contains(s) <==> t1.contains(s) && s != child@ by {
                            if t0.contains(s) {
                                let j = choose|j: int| 0 <= j < t0.len() && t0[j] == s;
                                assert(t1[j] == s);
                            }
                            if t1.contains(s) {
                                let j = choose|j: int| 0 <= j < t1.len() && t1[j] == s;
                                if j < t0.len() {
                                    assert(t0[j] == s);
                                }
                            }
                            if texts(kept@).contains(s) && texts(kept@) != pre {
                                let j = choose|j: int| 0 <= j < texts(kept@).len() && texts(kept@)[j] == s;
                                if j < pre.len() {
                                    assert(pre[j] == s);
                                }
                            }
                            if texts(kept@) != pre && pre.contains(s) {
                                let j = choose|j: int| 0 <= j < pre.len() && pre[j] == s;
                                assert(texts(kept@)[j] == s);
                            }
                            if texts(kept@) != pre {
                                assert(texts(kept@)[pre.len() as int] == c@);
                            }
                            assert(t1[k as int] == c@);
                        }
                    }
                    k = k + 1;
                }
                proof {
                    assert(entry.1@.take(entry.1@.len() as int) =~= entry.1@);
                }
                let ghost rest = h@;
                if kept.len() > 0 {
                    entry.1 = kept;
                    h.insert(i, entry);
                    proof {
                        assert(forall|j: int| 0 <= j < g.len() && j != i ==> #[trigger] h@[j] == g[j]);
                        assert(parents(h@) =~= parents(g));
                        assert(texts(h@[i as int].1@) == texts(kept@));
                        assert(before == texts(g[i as int].1@));
                        assert forall|j: int| 0 <= j < h@.len() implies texts(#[trigger] h@[j].1@).no_duplicates() by {
                            if j != i {
                                assert(h@[j] == g[j]);
                            }
                        }
                        assert forall|x: Seq<char>, y: Seq<char>|
                            #[trigger] edge(h@, x, y) <==> edge(g, x, y) && !(x == parent@ && y == child@) by {
                            if edge(h@, x, y) {
                                let j = choose|j: int| 0 <= j < h@.len() && #[trigger] h@[j].0@ == x && texts(h@[j].1@).contains(y);
                                if j != i {
                                    assert(g[j] == h@[j]);
                                    if x == parent@ {
                                        assert(parents(g)[j] == parents(g)[i as int]);
                                    }
                                } else {
                                    assert(texts(kept@).contains(y));
                                    assert(before.contains(y));
                                    assert(g[j].0@ == x);
                                    assert(texts(g[j].1@).contains(y));
                                }
                            }
                            if edge(g, x, y) && !(x == parent@ && y == child@) {
                                let j = choose|j: int| 0 <= j < g.len() && #[trigger] g[j].0@ == x && texts(g[j].1@).contains(y);
                                if j != i {
                                    assert(g[j] == h@[j]);
                                } else {
                                    assert(before.contains(y));
                                    assert(texts(kept@).contains(y));
                                    assert(texts(h@[j].1@).contains(y));
                                    assert(h@[j].0@ == x);
                                }
                            }
                        }
                    }
                } else {
                    proof {
                        assert(h@ == g.remove(i as int));
                        assert(parents(h@) =~= parents(g).remove(i as int));
                        assert forall|a: int, b: int| 0 <= a < b < parents(h@).len() implies parents(h@)[a]
                            != parents(h@)[b] by {
                            let a2 = if a < i { a } else { a + 1 };
                            let b2 = if b < i { b } else { b + 1 };
                            assert(parents(h@)[a] == parents(g)[a2]);
                            assert(parents(h@)[b] == parents(g)[b2]);
                        }
                        assert forall|j: int| 0 <= j < h@.len() implies texts(#[trigger] h@[j].1@).no_duplicates() by {
                            let j2 = if j < i { j } else { j + 1 };
                            assert(h@[j] == g[j2]);
                        }
                        assert forall|x: Seq<char>, y: Seq<char>|
                            #[trigger] edge(h@, x, y) <==> edge(g, x, y) && !(x == parent@ && y == child@) by {
                            if edge(h@, x, y) {
                                let j = choose|j: int| 0 <= j < h@.len() && #[trigger] h@[j].0@ == x && texts(h@[j].1@).contains(y);
                                let j2 = if j < i { j } else { j + 1 };
                                assert(h@[j] == g[j2]);
                                if x == parent@ {
                                    assert(parents(g)[j2] == parents(g)[i as int]);
                                }
                            }
                            if edge(g, x, y) && !(x == parent@ && y == child@) {
                                let j = choose|j: int| 0 <= j < g.len() && #[trigger] g[j].0@ == x && texts(g[j].1@).contains(y);
                                if j == i {
                                    assert(texts(kept@).contains(y));
                                } else {
                                    let j3 = if j < i { j } else { j - 1 };
                                    assert(h@[j3] == g[j]);
                                }
                            }
                        }
                    }
                }
                self.hierarchy = h;
            },
        }
    }

    /// Whether adding `parent` implies `child` would close a cycle:
    /// whether `child` reaches `parent`.
    pub fn has_cycle(&self, parent: &str, child: &str) -> (r: bool)
        ensures
            r == reaches(self.graph(), child@, parent@),
    {
        proof {
            use_type_invariant(self);
        }
        let ghost g = self.graph();
        let ghost ns = seq![child@] + all_nodes(g);
        let mut stack: Vec<String> = Vec::new();
        stack.push(child.to_owned());
        let mut visited: Vec<String> = Vec::new();
        proof {
            let p = seq![child@];
            assert(is_path(g, p));
            assert(ns[0] == child@);
            assert(texts(stack@)[0] == child@);
        }
        while stack.len() > 0
            invariant
                g == self.graph(),
                well_formed_graph(g),
                ns == seq![child@] + all_nodes(g),
                texts(visited@).no_duplicates(),
                !texts(visited@).contains(parent@),
                texts(visited@).contains(child@) || texts(stack@).contains(child@),
                forall|s: Seq<char>|
                    #[trigger] texts(visited@).contains(s) ==> reaches(g, child@, s) && ns.contains(s),
                forall|s: Seq<char>|
                    #[trigger] texts(stack@).contains(s) ==> reaches(g, child@, s) && ns.contains(s),
                forall|v: Seq<char>, c: Seq<char>|
                    texts(visited@).contains(v) && #[trigger] edge(g, v, c) ==> texts(visited@).contains(c)
                        || texts(stack@).contains(c),
            decreases ns.len() - visited@.len(), stack@.len(),
        {
            proof {
                lemma_distinct_within(texts(visited@), ns);
            }
            let ghost old_stack = texts(stack@);
            let ghost old_visited = texts(visited@);
            let current = stack.pop().unwrap();
            proof {
                assert(old_stack == texts(stack@).push(current@));
                assert(old_stack[old_stack.len() - 1] == current@);
                assert(old_stack.contains(current@));
                assert forall|s: Seq<char>| old_stack.contains(s) implies texts(stack@).contains(s) || s == current@ by {
                    let j = choose|j: int| 0 <= j < old_stack.len() && old_stack[j] == s;
                    if j < old_stack.len() - 1 {
                        assert(texts(stack@)[j] == s);
                    }
                }
                assert forall|s: Seq<char>| #[trigger] texts(stack@).contains(s) implies old_stack.contains(s) by {
                    let j = choose|j: int| 0 <= j < texts(stack@).len() && texts(stack@)[j] == s;
                    assert(old_stack[j] == s);
                }
            }
            if same_text(current.as_str(), parent) {
                return true;
            }
            if contains_text(&visited, current.as_str()) {
                continue;
            }
            visited.push(current.clone());
            proof {
                assert(texts(visited@) == old_visited.push(current@));
                assert forall|s: Seq<char>| #[trigger] texts(visited@).contains(s) <==> old_visited.contains(s) || s == current@ by {
                    if texts(visited@).contains(s) {
                        let j = choose|j: int| 0 <= j < texts(visited@).len() && texts(visited@)[j] == s;
                        if j < old_visited.len() {
                            assert(old_visited[j] == s);
                        }
                    }
                    if old_visited.contains(s) {
                        let j = choose|j: int| 0 <= j < old_visited.len() && old_visited[j] == s;
                        assert(texts(visited@)[j] == s);
                    }
                    assert(texts(visited@)[old_visited.len() as int] == current@);
                }
                assert forall|a: int, b: int| 0 <= a < b < texts(visited@).len() implies texts(visited@)[a]
                    != texts(visited@)[b] by {
                    if b == old_visited.len() {
                        assert(old_visited[a] == texts(visited@)[a]);
                        assert(old_visited.contains(old_visited[a]));
                    }
                }
            }
            match self.position_of(current.as_str()) {
                Some(e) => {
                    let children = &self.hierarchy[e];
                    let ghost popped = texts(stack@);
                    let mut k: usize = 0;
                    while k < children.1.len()
                        invariant
                            g == self.graph(),
                            well_formed_graph(g),
                            ns == seq![child@] + all_nodes(g),
                            e < g.len(),
                            g[e as int] == *children,
                            g[e as int].0@ == current@,
                            reaches(g, child@, current@),
                            k <= children.1@.len(),
                            forall|s: Seq<char>|
                                #[trigger] texts(stack@).contains(s) ==> reaches(g, child@, s) && ns.contains(s),
                            forall|s: Seq<char>| #[trigger] popped.contains(s) ==> texts(stack@).contains(s),
                            forall|q: int|
                                0 <= q < k ==> texts(visited@).contains(#[trigger] children.1@[q]@) || texts(
                                    stack@,
                                ).contains(children.1@[q]@),
                        decreases children.1.len() - k,
                    {
                        let c = children.1[k].as_str();
                        if !contains_text(&visited, c) {
                            let ghost before = texts(stack@);
                            stack.push(c.to_owned());
                            proof {
                                assert(texts(stack@) == before.push(c@));
                                assert(texts(g[e as int].1@)[k as int] == c@);
                                assert(edge(g, current@, c@));
                                let p = choose|p: Seq<Seq<char>>| #[trigger] is_path(g, p) && p[0] == child@ && p.last() == current@;
                                lemma_extend_path(g, p, c@);
                                assert(is_path(g, p.push(c@)));
                                lemma_edge_target_named(g, current@, c@);
                                let j = choose|j: int| 0 <= j < all_nodes(g).len() && all_nodes(g)[j] == c@;
                                assert(ns[j + 1] == c@);
                                assert forall|s: Seq<char>| #[trigger] texts(stack@).contains(s) implies before.contains(s) || s == c@ by {
                                    let j2 = choose|j2: int| 0 <= j2 < texts(stack@).len() && texts(stack@)[j2] == s;
                                    if j2 < before.len() {
                                        assert(before[j2] == s);
                                    }
                                }
                                assert forall|s: Seq<char>| before.contains(s) implies #[trigger] texts(stack@).contains(s) by {
                                    let j2 = choose|j2: int| 0 <= j2 < before.len() && before[j2] == s;
                                    assert(texts(stack@)[j2] == s);
                                }
                                assert(texts(stack@)[before.len() as int] == c@);
                            }
                        }
                        k = k + 1;
                    }
                    proof {
                        assert forall|v: Seq<char>, c: Seq<char>|
                            texts(visited@).contains(v) && #[trigger] edge(g, v, c) implies texts(visited@).contains(c)
                                || texts(stack@).contains(c) by {
                            if v == current@ {
                                let i = choose|i: int| 0 <= i < g.len() && #[trigger] g[i].0@ == v && texts(g[i].1@).contains(c);
                                if i != e {
                                    assert(parents(g)[i] == parents(g)[e as int]);
                                }
                                let q = choose|q: int| 0 <= q < texts(g[i].1@).len() && texts(g[i].1@)[q] == c;
                                assert(texts(visited@).contains(children.1@[q]@) || texts(stack@).contains(children.1@[q]@));
                            } else {
                                assert(old_visited.contains(v));
                                assert(old_visited.contains(c) || old_stack.contains(c));
                                if old_stack.contains(c) && c != current@ {
                                    assert(popped.contains(c));
                                }
                            }
                        }
                    }
                },
                None => {
                    proof {
                        assert forall|v: Seq<char>, c: Seq<char>|
                            texts(visited@).contains(v) && #[trigger] edge(g, v, c) implies texts(visited@).contains(c)
                                || texts(stack@).contains(c) by {
                            if v == current@ {
                                let i = choose|i: int| 0 <= i < g.len() && #[trigger] g[i].0@ == v && texts(g[i].1@).contains(c);
                                assert(g[i].0@ != current@);
                            } else {
                                assert(old_visited.contains(v));
                                assert(old_visited.contains(c) || old_stack.contains(c));
                            }
                        }
                    }
                },
            }
            proof {
                assert forall|s: Seq<char>| #[trigger] texts(visited@).contains(s) implies ns.contains(s) by {
                    if s != current@ {
                        assert(old_visited.contains(s));
                    } else {
                        assert(old_stack.contains(current@));
                    }
                }
                lemma_distinct_within(texts(visited@), ns);
            }
        }
        proof {
            if reaches(g, child@, parent@) {
                let p = choose|p: Seq<Seq<char>>| #[trigger] is_path(g, p) && p[0] == child@ && p.last() == parent@;
                assert(texts(stack@).len() == 0);
                lemma_closed_holds_end(g, texts(visited@), p);
            }
        }
        false
    }
}

impl PermissionHierarchy for SimplePermissionHierarchy {
    /// Whether `parent` implies `child` through at least one implication.
    fn implies(&self, parent: &str, child: &str) -> (r: Result<bool, String>)
        ensures
            r == Ok::<bool, String>(implies_transitively(self.graph(), parent@, child@)),
    {
        let implied = self.get_all_implied_permissions(parent);
        Ok(contains_text(&implied, child))
    }

    /// Every permission `permission` implies, each once.
    fn get_implied_permissions(&self, permission: &str) -> (r: Result<Vec<String>, String>)
        ensures
            r is Ok,
            texts(r->Ok_0@).no_duplicates(),
            forall|s: Seq<char>|
                #[trigger] texts(r->Ok_0@).contains(s) <==> implies_transitively(self.graph(), permission@, s),
    {
        Ok(self.get_all_implied_permissions(permission))
    }

    /// Records that `parent` implies `child`; refused, changing nothing,
    /// when `child` already reaches `parent`. A hierarchy without cycles
    /// stays so.
    fn add_implication(&mut self, parent: &str, child: &str) -> (r: Result<(), String>)
        ensures
            reaches(old(self).graph(), child@, parent@) ==> {
                &&& r matches Err(m)
                &&& m@ == "Adding implication "@ + parent@ + " -> "@ + child@ + " would create a cycle"@
                &&& final(self).graph() == old(self).graph()
            },
            !reaches(old(self).graph(), child@, parent@) ==> {
                &&& r is Ok
                &&& forall|x: Seq<char>, y: Seq<char>|
                    #[trigger] edge(final(self).graph(), x, y) <==> edge(old(self).graph(), x, y) || (x == parent@
                        && y == child@)
            },
            acyclic(old(self).graph()) ==> acyclic(final(self).graph()),
    {
        let r = self.add_edge(parent, child);
        proof {
            if acyclic(old(self).graph()) && !reaches(old(self).graph(), child@, parent@) {
                lemma_edge_keeps_acyclic(old(self).graph(), self.graph(), parent@, child@);
            }
        }
        r
    }

    /// Forgets that `parent` implies `child`. A hierarchy without cycles
    /// stays so.
    fn remove_implication(&mut self, parent: &str, child: &str) -> (r: Result<(), String>)
        ensures
            r is Ok,
            forall|x: Seq<char>, y: Seq<char>|
                #[trigger] edge(final(self).graph(), x, y) <==> edge(old(self).graph(), x, y) && !(x == parent@
                    && y == child@),
            acyclic(old(self).graph()) ==> acyclic(final(self).graph()),
    {
        self.remove_edge(parent, child);
        proof {
            if acyclic(old(self).graph()) {
                lemma_fewer_edges_keep_acyclic(old(self).graph(), self.graph());
            }
        }
        Ok(())
    }

    /// Every parent with its children.
    fn get_hierarchy(&self) -> (r: Result<Vec<(String, Vec<String>)>, String>)
        ensures
            r is Ok,
            r->Ok_0@.len() == self.graph().len(),
            forall|i: int|
                0 <= i < r->Ok_0@.len() ==> #[trigger] r->Ok_0@[i].0@ == self.graph()[i].0@ && texts(
                    r->Ok_0@[i].1@,
                ) == texts(self.graph()[i].1@),
    {
        let mut out: Vec<(String, Vec<String>)> = Vec::new();
        let mut i: usize = 0;
        while i < self.hierarchy.len()
            invariant
                i <= self.hierarchy@.len(),
                out@.len() == i,
                forall|j: int|
                    0 <= j < i ==> #[trigger] out@[j].0@ == self.hierarchy@[j].0@ && texts(out@[j].1@) == texts(
                        self.hierarchy@[j].1@,
                    ),
            decreases self.hierarchy.len() - i,
        {
            let entry = &self.hierarchy[i];
            out.push((entry.0.clone(), crate::security::capability::copy_texts(&entry.1)));
            i = i + 1;
        }
        Ok(out)
    }
}

impl Default for SimplePermissionHierarchy {
    fn default() -> (h: Self)
        ensures
            h.graph().len() == 0,
    {
        SimplePermissionHierarchy::new()
    }
}

impl SimplePermissionHierarchy {
    /// A hierarchy built from `config`: each parent implies each of its
    /// children, in order; an implication that would close a cycle is
    /// left out. The result has no cycle.
    pub fn from_config(config: Vec<(String, Vec<String>)>) -> (h: Self)
        ensures
            acyclic(h.graph()),
            forall|x: Seq<char>, y: Seq<char>|
                #[trigger] edge(h.graph(), x, y) ==> exists|i: int|
                    0 <= i < config@.len() && config@[i].0@ == x && texts(config@[i].1@).contains(y),
    {
        let mut h = SimplePermissionHierarchy::new();
        proof {
            lemma_empty_acyclic(h.graph());
        }
        let mut i: usize = 0;
        while i < config.len()
            invariant
                i <= config@.len(),
                acyclic(h.graph()),
                forall|x: Seq<char>, y: Seq<char>|
                    #[trigger] edge(h.graph(), x, y) ==> exists|q: int|
                        0 <= q < i && config@[q].0@ == x && texts(config@[q].1@).contains(y),
            decreases config.len() - i,
        {
            let parent = config[i].0.as_str();
            let children = &config[i].1;
            let mut k: usize = 0;
            while k < children.len()
                invariant
                    i < config@.len(),
                    k <= children@.len(),
                    *children == config@[i as int].1,
                    parent@ == config@[i as int].0@,
                    acyclic(h.graph()),
                    forall|x: Seq<char>, y: Seq<char>|
                        #[trigger] edge(h.graph(), x, y) ==> exists|q: int|
                            0 <= q <= i && config@[q].0@ == x && texts(config@[q].1@).contains(y),
                decreases children.len() - k,
            {
                let ghost before = h.graph();
                let outcome = h.add_implication(parent, children[k].as_str());
                proof {
                    assert forall|x: Seq<char>, y: Seq<char>| #[trigger] edge(h.graph(), x, y) implies exists|q: int|
                        0 <= q <= i && config@[q].0@ == x && texts(config@[q].1@).contains(y) by {
                        if !edge(before, x, y) {
                            assert(x == parent@ && y == children@[k as int]@);
                            assert(texts(config@[i as int].1@)[k as int] == y);
                        }
                    }
                }
                k = k + 1;
            }
            i = i + 1;
        }
        h
    }

    /// Statistics of the hierarchy: parents, parent and child pairs, the
    /// longest chain of implications in edges, and the parents that are
    /// nobody's child.
    pub fn get_stats(&self) -> (r: HierarchyStats)
        requires
            node_count(self.graph()) <= usize::MAX,
        ensures
            r.total_permissions == self.graph().len(),
            r.total_relationships == relationship_count(self.graph()),
            r.max_depth == max_depth_within(self.graph(), self.graph().len() as int, node_count(self.graph())),
            r.leaf_permissions == parents(self.graph()).filter(|p: Seq<char>| !is_child(self.graph(), p)).len(),
    {
        let ghost g = self.graph();
        proof {
            lemma_counts(g);
        }
        let mut relationships: usize = 0;
        let mut nodes: usize = 0;
        let mut i: usize = 0;
        while i < self.hierarchy.len()
            invariant
                g == self.graph(),
                i <= g.len(),
                relationships == relationship_count(g.take(i as int)),
                nodes == node_count(g.take(i as int)),
                node_count(g) <= usize::MAX,
                forall|j: int| 0 <= j <= g.len() ==> #[trigger] node_count(g.take(j)) <= node_count(g),
                forall|j: int| 0 <= j <= g.len() ==> #[trigger] relationship_count(g.take(j)) <= node_count(g.take(j)),
            decreases self.hierarchy.len() - i,
        {
            proof {
                assert(g.take(i + 1).drop_last() =~= g.take(i as int));
                assert(g.take(i + 1).last() == g[i as int]);
                assert(node_count(g.take(i + 1)) <= usize::MAX);
                assert(texts(g[i as int].1@).len() == g[i as int].1@.len());
            }
            relationships = relationships + self.hierarchy[i].1.len();
            nodes = nodes + 1 + self.hierarchy[i].1.len();
            i = i + 1;
        }
        proof {
            assert(g.take(g.len() as int) =~= g);
        }
        let mut max_depth: usize = 0;
        let mut leaves: usize = 0;
        let ghost leafy = |p: Seq<char>| !is_child(g, p);
        let mut j: usize = 0;
        while j < self.hierarchy.len()
            invariant
                g == self.graph(),
                j <= g.len(),
                nodes == node_count(g),
                max_depth == max_depth_within(g, j as int, nodes as nat),
                max_depth <= nodes,
                leafy == (|p: Seq<char>| !is_child(g, p)),
                leaves == parents(g).take(j as int).filter(leafy).len(),
                leaves <= j,
            decreases self.hierarchy.len() - j,
        {
            let name = self.hierarchy[j].0.as_str();
            let d = self.depth_of(name, nodes);
            proof {
                lemma_depth_bound(g, g[j as int].0@, nodes as nat);
            }
            if d > max_depth {
                max_depth = d;
            }
            let child_somewhere = self.is_child_somewhere(name);
            proof {
                assert(parents(g).take(j + 1) =~= parents(g).take(j as int).push(parents(g)[j as int]));
                parents(g).take(j as int).lemma_filter_push(parents(g)[j as int], leafy);
            }
            if !child_somewhere {
                leaves = leaves + 1;
            }
            j = j + 1;
        }
        proof {
            assert(parents(g).take(g.len() as int) =~= parents(g));
        }
        HierarchyStats {
            total_permissions: self.hierarchy.len(),
            total_relationships: relationships,
            max_depth,
            leaf_permissions: leaves,
        }
    }

    /// Whether `name` is a child of some parent.
    fn is_child_somewhere(&self, name: &str) -> (r: bool)
        ensures
            r == is_child(self.graph(), name@),
    {
        let mut i: usize = 0;
        while i < self.hierarchy.len()
            invariant
                i <= self.hierarchy@.len(),
                forall|j: int| 0 <= j < i ==> !#[trigger] texts(self.hierarchy@[j].1@).contains(name@),
            decreases self.hierarchy.len() - i,
        {
            if contains_text(&self.hierarchy[i].1, name) {
                return true;
            }
            i = i + 1;
        }
        false
    }

    /// The edges of the longest chain of implications from `p` of at most
    /// `k` edges.
    fn depth_of(&self, p: &str, k: usize) -> (r: usize)
        ensures
            r == depth_within(self.graph(), p@, k as nat),
        decreases k,
    {
        proof {
            use_type_invariant(self);
        }
        if k == 0 {
            return 0;
        }
        let ghost g = self.graph();
        match self.position_of(p) {
            None => {
                proof {
                    assert(children_of(g, p@) == Seq::<Seq<char>>::empty());
                }
                0
            },
            Some(e) => {
                let children = &self.hierarchy[e];
                proof {
                    let c = choose|i: int| 0 <= i < g.len() && #[trigger] g[i].0@ == p@;
                    if c != e {
                        assert(parents(g)[c] == parents(g)[e as int]);
                    }
                    assert(children_of(g, p@) == texts(children.1@));
                }
                let mut best: usize = 0;
                let mut q: usize = 0;
                while q < children.1.len()
                    invariant
                        g == self.graph(),
                        k >= 1,
                        q <= children.1@.len(),
                        best == deepest(g, texts(children.1@).take(q as int), (k - 1) as nat),
                        best <= k,
                    decreases children.1.len() - q,
                {
                    let d = self.depth_of(children.1[q].as_str(), k - 1);
                    proof {
                        lemma_depth_bound(g, children.1@[q as int]@, (k - 1) as nat);
                        let t = texts(children.1@).take(q + 1);
                        assert(t.drop_last() =~= texts(children.1@).take(q as int));
                        assert(t.last() == children.1@[q as int]@);
                    }
                    if 1 + d > best {
                        best = 1 + d;
                    }
                    q = q + 1;
                }
                proof {
                    assert(texts(children.1@).take(children.1@.len() as int) =~= texts(children.1@));
                }
                best
            },
        }
    }
}

/// Counting names: the prefix counts grow, and pairs are within names.
proof fn lemma_counts(g: Graph)
    ensures
        forall|j: int| 0 <= j <= g.len() ==> #[trigger] node_count(g.take(j)) <= node_count(g),
        forall|j: int| 0 <= j <= g.len() ==> #[trigger] relationship_count(g.take(j)) <= node_count(g.take(j)),
    decreases g.len(),
{
    if g.len() > 0 {
        lemma_counts(g.drop_last());
        assert forall|j: int| 0 <= j <= g.len() implies #[trigger] node_count(g.take(j)) <= node_count(g) by {
            if j < g.len() {
                assert(g.take(j) =~= g.drop_last().take(j));
                assert(g.drop_last().take(g.len() - 1) =~= g.drop_last());
            } else {
                assert(g.take(j) =~= g);
            }
        }
        assert forall|j: int| 0 <= j <= g.len() implies #[trigger] relationship_count(g.take(j)) <= node_count(g.take(j)) by {
            if j < g.len() {
                assert(g.take(j) =~= g.drop_last().take(j));
            } else {
                assert(g.take(j) =~= g);
                assert(g.drop_last().take(g.len() - 1) =~= g.drop_last());
                assert(texts(g.last().1@).len() == g.last().1@.len());
                assert(relationship_count(g.drop_last()) <= node_count(g.drop_last()));
                assert(node_count(g) == node_count(g.drop_last()) + 1 + g.last().1@.len());
            }
        }
    }
}

} // verus!
