//! Propagation of a node mutation along parent or child edges.
use vstd::prelude::*;
use super::{EdgeView, Graph, GraphView, Node, NodeView};

verus! {

/// A change applied to single nodes found by a traversal. It never changes
/// a node's identifier.
pub trait NodeMutation<T> {
    /// The node after the change.
    spec fn mutated(&self, n: NodeView<T>) -> NodeView<T>;

    proof fn lemma_keeps_id(&self, n: NodeView<T>)
        ensures
            self.mutated(n).id == n.id,
    ;

    fn apply(&self, n: &mut Node<T>)
        ensures
            final(n)@ == self.mutated(old(n)@),
    ;
}

/// Sets the visibility flag of a node.
pub struct SetVisibility {
    pub visible: bool,
}

impl<T> NodeMutation<T> for SetVisibility {
    open spec fn mutated(&self, n: NodeView<T>) -> NodeView<T> {
        NodeView { visible: self.visible, ..n }
    }

    proof fn lemma_keeps_id(&self, n: NodeView<T>) {
    }

    fn apply(&self, n: &mut Node<T>) {
        n.visible = self.visible;
    }
}

/// Edge `e` leads one hop from `from` to `to`: to its parent when `up`, to
/// its child otherwise.
pub open spec fn step<E>(e: EdgeView<E>, up: bool, from: i64, to: i64) -> bool {
    if up {
        e.child == from && e.parent == to
    } else {
        e.parent == from && e.child == to
    }
}

/// Some edge leads one hop from `from` to `to`.
pub open spec fn linked<E>(edges: Seq<EdgeView<E>>, up: bool, from: i64, to: i64) -> bool {
    exists|k: int| 0 <= k < edges.len() && #[trigger] step(edges[k], up, from, to)
}

/// Each identifier of `w` is one hop from the one before it.
pub open spec fn is_walk<E>(edges: Seq<EdgeView<E>>, up: bool, w: Seq<i64>) -> bool {
    forall|k: int| 0 <= k < w.len() - 1 ==> #[trigger] linked(edges, up, w[k], w[k + 1])
}

/// The identifiers reached from `seeds` in one or more hops: the ascendants
/// when `up`, the descendants otherwise. A seed belongs to it only when it
/// lies on a cycle.
pub open spec fn reach<E>(edges: Seq<EdgeView<E>>, up: bool, seeds: Set<i64>) -> Set<i64> {
    Set::new(
        |x: i64|
            exists|w: Seq<i64>|
                #[trigger] is_walk(edges, up, w) && w.len() >= 2 && seeds.contains(w[0]) && w.last()
                    == x,
    )
}

/// The nodes whose identifier is in `ids` changed once by `f`, the others kept.
pub open spec fn mutate_in<T, F: NodeMutation<T>>(
    nodes: Seq<NodeView<T>>,
    ids: Set<i64>,
    f: F,
) -> Seq<NodeView<T>> {
    Seq::new(
        nodes.len(),
        |i: int|
            if ids.contains(nodes[i].id) {
                f.mutated(nodes[i])
            } else {
                nodes[i]
            },
    )
}

/// Number of edges that lead one hop from `from` to `to`.
pub open spec fn hits<E>(edges: Seq<EdgeView<E>>, up: bool, from: i64, to: i64) -> nat
    decreases edges.len(),
{
    if edges.len() == 0 {
        0
    } else {
        hits(edges.drop_last(), up, from, to) + if step(edges.last(), up, from, to) {
            1nat
        } else {
            0nat
        }
    }
}

/// Number of pairs of a seed and an edge that lead one hop from the seed to `to`.
pub open spec fn seed_hits<E>(edges: Seq<EdgeView<E>>, up: bool, seeds: Seq<i64>, to: i64) -> nat
    decreases seeds.len(),
{
    if seeds.len() == 0 {
        0
    } else {
        seed_hits(edges, up, seeds.drop_last(), to) + hits(edges, up, seeds.last(), to)
    }
}

/// `n` changed `k` times by `f`.
pub open spec fn apply_times<T, F: NodeMutation<T>>(f: F, n: NodeView<T>, k: nat) -> NodeView<T>
    decreases k,
{
    if k == 0 {
        n
    } else {
        f.mutated(apply_times(f, n, (k - 1) as nat))
    }
}

/// Each node changed by `f` once for every seed and edge that lead to it in one hop.
pub open spec fn mutate_times<T, E, F: NodeMutation<T>>(
    nodes: Seq<NodeView<T>>,
    edges: Seq<EdgeView<E>>,
    up: bool,
    seeds: Seq<i64>,
    f: F,
) -> Seq<NodeView<T>> {
    Seq::new(nodes.len(), |i: int| apply_times(f, nodes[i], seed_hits(edges, up, seeds, nodes[i].id)))
}

/// `y` stands in `q` at or after position `head`.
spec fn pending(q: Seq<i64>, head: int, y: i64) -> bool {
    exists|j: int| head <= j < q.len() && q[j] == y
}

proof fn lemma_seed_reach<E>(edges: Seq<EdgeView<E>>, up: bool, seeds: Set<i64>, t: i64, y: i64)
    requires
        seeds.contains(t),
        linked(edges, up, t, y),
    ensures
        reach(edges, up, seeds).contains(y),
{
    let w = seq![t, y];
    assert forall|k: int| 0 <= k < w.len() - 1 implies #[trigger] linked(edges, up, w[k], w[k + 1]) by {
        assert(k == 0);
    }
    assert(is_walk(edges, up, w) && w.len() >= 2 && seeds.contains(w[0]) && w.last() == y);
}

proof fn lemma_extend_reach<E>(edges: Seq<EdgeView<E>>, up: bool, seeds: Set<i64>, x: i64, y: i64)
    requires
        reach(edges, up, seeds).contains(x),
        linked(edges, up, x, y),
    ensures
        reach(edges, up, seeds).contains(y),
{
    let w = choose|w: Seq<i64>|
        #[trigger] is_walk(edges, up, w) && w.len() >= 2 && seeds.contains(w[0]) && w.last() == x;
    let w2 = w.push(y);
    assert forall|k: int| 0 <= k < w2.len() - 1 implies #[trigger] linked(
        edges,
        up,
        w2[k],
        w2[k + 1],
    ) by {
        if k < w.len() - 1 {
            assert(w2[k] == w[k] && w2[k + 1] == w[k + 1]);
            assert(linked(edges, up, w[k], w[k + 1]));
        } else {
            assert(w2[k] == x && w2[k + 1] == y);
        }
    }
    assert(is_walk(edges, up, w2) && w2.len() >= 2 && seeds.contains(w2[0]) && w2.last() == y);
}

proof fn lemma_walk_within<E>(
    edges: Seq<EdgeView<E>>,
    up: bool,
    seeds: Set<i64>,
    d: Seq<i64>,
    w: Seq<i64>,
    k: int,
)
    requires
        forall|t: i64, y: i64| seeds.contains(t) && #[trigger] linked(edges, up, t, y) ==> d.contains(y),
        forall|x: i64, y: i64| d.contains(x) && #[trigger] linked(edges, up, x, y) ==> d.contains(y),
        is_walk(edges, up, w),
        seeds.contains(w[0]),
        1 <= k < w.len(),
    ensures
        d.contains(w[k]),
    decreases k,
{
    let j = k - 1;
    assert(linked(edges, up, w[j], w[j + 1]));
    if k > 1 {
        lemma_walk_within(edges, up, seeds, d, w, k - 1);
    }
}

proof fn lemma_walk_in_set<E>(
    edges: Seq<EdgeView<E>>,
    up: bool,
    seeds: Set<i64>,
    s: Set<i64>,
    w: Seq<i64>,
    k: int,
)
    requires
        forall|t: i64, y: i64| seeds.contains(t) && #[trigger] linked(edges, up, t, y) ==> s.contains(y),
        forall|x: i64, y: i64| s.contains(x) && #[trigger] linked(edges, up, x, y) ==> s.contains(y),
        is_walk(edges, up, w),
        seeds.contains(w[0]),
        1 <= k < w.len(),
    ensures
        s.contains(w[k]),
    decreases k,
{
    let j = k - 1;
    assert(linked(edges, up, w[j], w[j + 1]));
    if k > 1 {
        lemma_walk_in_set(edges, up, seeds, s, w, k - 1);
    }
}

/// The identifiers reached from `seeds` are the least set that holds each
/// identifier one hop from a seed and each identifier one hop from one of
/// its members: `reach` is closed in that way, and lies within every set
/// that is.
pub proof fn lemma_reach_least_closed<E>(edges: Seq<EdgeView<E>>, up: bool, seeds: Set<i64>, s: Set<i64>)
    ensures
        forall|t: i64, y: i64|
            seeds.contains(t) && #[trigger] linked(edges, up, t, y) ==> reach(edges, up, seeds).contains(y),
        forall|x: i64, y: i64|
            reach(edges, up, seeds).contains(x) && #[trigger] linked(edges, up, x, y) ==> reach(
                edges,
                up,
                seeds,
            ).contains(y),
        (forall|t: i64, y: i64| seeds.contains(t) && #[trigger] linked(edges, up, t, y) ==> s.contains(y))
            && (forall|x: i64, y: i64| s.contains(x) && #[trigger] linked(edges, up, x, y) ==> s.contains(y))
            ==> reach(edges, up, seeds).subset_of(s),
{
    assert forall|t: i64, y: i64|
        seeds.contains(t) && #[trigger] linked(edges, up, t, y) implies reach(edges, up, seeds).contains(y) by {
        lemma_seed_reach(edges, up, seeds, t, y);
    }
    assert forall|x: i64, y: i64|
        reach(edges, up, seeds).contains(x) && #[trigger] linked(edges, up, x, y) implies reach(
        edges,
        up,
        seeds,
    ).contains(y) by {
        lemma_extend_reach(edges, up, seeds, x, y);
    }
    if (forall|t: i64, y: i64| seeds.contains(t) && #[trigger] linked(edges, up, t, y) ==> s.contains(y))
        && (forall|x: i64, y: i64| s.contains(x) && #[trigger] linked(edges, up, x, y) ==> s.contains(y)) {
        assert forall|x: i64| reach(edges, up, seeds).contains(x) implies s.contains(x) by {
            let w = choose|w: Seq<i64>|
                #[trigger] is_walk(edges, up, w) && w.len() >= 2 && seeds.contains(w[0]) && w.last() == x;
            lemma_walk_in_set(edges, up, seeds, s, w, w.len() - 1);
        }
    }
}

/// The identifiers that some edge leads to.
spec fn targets_of<E>(edges: Seq<EdgeView<E>>, up: bool) -> Seq<i64> {
    edges.map_values(|e: EdgeView<E>| if up { e.parent } else { e.child })
}

proof fn lemma_done_bounded<E>(edges: Seq<EdgeView<E>>, up: bool, seeds: Set<i64>, d: Seq<i64>)
    requires
        d.no_duplicates(),
        forall|j: int| 0 <= j < d.len() ==> reach(edges, up, seeds).contains(d[j]),
    ensures
        d.len() <= edges.len(),
{
    let u = targets_of(edges, up);
    assert forall|x: i64| d.to_set().contains(x) implies u.to_set().contains(x) by {
        let j = choose|j: int| 0 <= j < d.len() && d[j] == x;
        assert(reach(edges, up, seeds).contains(d[j]));
        let w = choose|w: Seq<i64>|
            #[trigger] is_walk(edges, up, w) && w.len() >= 2 && seeds.contains(w[0]) && w.last() == x;
        let i = w.len() - 2;
        assert(linked(edges, up, w[i], w[i + 1]));
        let k = choose|k: int| 0 <= k < edges.len() && #[trigger] step(edges[k], up, w[i], w[i + 1]);
        assert(u[k] == x);
    }
    d.unique_seq_to_set();
    u.lemma_cardinality_of_set();
    vstd::set_lib::lemma_len_subset(d.to_set(), u.to_set());
}

fn contains_id(v: &Vec<i64>, x: i64) -> (r: bool)
    ensures
        r == v@.contains(x),
{
    let mut i: usize = 0;
    while i < v.len()
        invariant
            i <= v@.len(),
            forall|j: int| 0 <= j < i ==> v@[j] != x,
        decreases v@.len() - i,
    {
        if v[i] == x {
            return true;
        }
        i = i + 1;
    }
    false
}

impl<N, E> Graph<N, E> {
    /// Appends to `queue` the far end of every edge that leads one hop from `from`.
    fn push_links(&self, up: bool, from: i64, queue: &mut Vec<i64>)
        ensures
            final(queue)@.len() >= old(queue)@.len(),
            forall|j: int| 0 <= j < old(queue)@.len() ==> final(queue)@[j] == old(queue)@[j],
            forall|j: int|
                old(queue)@.len() <= j < final(queue)@.len() ==> linked(
                    self@.edges,
                    up,
                    from,
                    final(queue)@[j],
                ),
            forall|y: i64|
                #[trigger] linked(self@.edges, up, from, y) ==> pending(
                    final(queue)@,
                    old(queue)@.len() as int,
                    y,
                ),
    {
        let ghost q0 = queue@;
        let mut k: usize = 0;
        while k < self.edges.len()
            invariant
                k <= self@.edges.len(),
                queue@.len() >= q0.len(),
                forall|j: int| 0 <= j < q0.len() ==> queue@[j] == q0[j],
                forall|j: int| q0.len() <= j < queue@.len() ==> linked(self@.edges, up, from, queue@[j]),
                forall|m: int, y: i64|
                    0 <= m < k && #[trigger] step(self@.edges[m], up, from, y) ==> pending(
                        queue@,
                        q0.len() as int,
                        y,
                    ),
            decreases self@.edges.len() - k,
        {
            let e = &self.edges[k];
            let hit = if up {
                e.child == from
            } else {
                e.parent == from
            };
            let ghost before = queue@;
            if hit {
                let to = if up {
                    e.parent
                } else {
                    e.child
                };
                queue.push(to);
                proof {
                    assert(step(self@.edges[k as int], up, from, to));
                    assert(queue@[before.len() as int] == to);
                }
            }
            proof {
                assert forall|m: int, y: i64|
                    0 <= m < k + 1 && #[trigger] step(self@.edges[m], up, from, y) implies pending(
                    queue@,
                    q0.len() as int,
                    y,
                ) by {
                    if m < k {
                        let j = choose|j: int| q0.len() <= j < before.len() && before[j] == y;
                        assert(queue@[j] == y);
                    } else {
                        assert(hit);
                        assert(queue@[before.len() as int] == y);
                    }
                }
            }
            k = k + 1;
        }
    }

    /// Applies `fun` once to every node reached from `targets` in one or more
    /// hops along `up` (parents) or not `up` (children), each at most once
    /// however many paths or cycles lead to it. Breadth first, with a set of
    /// identifiers already done, so that it ends on graphs with cycles.
    fn map_closure<F: NodeMutation<N>>(&mut self, up: bool, targets: &[i64], fun: &F)
        requires
            old(self).wf(),
        ensures
            final(self).wf(),
            final(self)@ == (GraphView {
                nodes: mutate_in(old(self)@.nodes, reach(old(self)@.edges, up, targets@.to_set()), *fun),
                ..old(self)@
            }),
    {
        let ghost g0 = self@;
        let ghost edges = g0.edges;
        let ghost seeds = targets@.to_set();
        let ghost r = reach(edges, up, seeds);
        let mut queue: Vec<i64> = Vec::new();
        let mut s: usize = 0;
        while s < targets.len()
            invariant
                self@ == g0,
                self.wf(),
                s <= targets@.len(),
                seeds == targets@.to_set(),
                r == reach(edges, up, seeds),
                edges == g0.edges,
                forall|j: int| 0 <= j < queue@.len() ==> r.contains(queue@[j]),
                forall|j: int, y: i64|
                    0 <= j < s && #[trigger] linked(edges, up, targets@[j], y) ==> pending(queue@, 0, y),
            decreases targets@.len() - s,
        {
            let ghost q0 = queue@;
            self.push_links(up, targets[s], &mut queue);
            proof {
                assert(seeds.contains(targets@[s as int]));
                assert forall|j: int| 0 <= j < queue@.len() implies r.contains(queue@[j]) by {
                    if j >= q0.len() {
                        lemma_seed_reach(edges, up, seeds, targets@[s as int], queue@[j]);
                    } else {
                        assert(queue@[j] == q0[j]);
                    }
                }
                assert forall|j: int, y: i64|
                    0 <= j < s + 1 && #[trigger] linked(edges, up, targets@[j], y) implies pending(
                    queue@,
                    0,
                    y,
                ) by {
                    if j < s {
                        let m = choose|m: int| 0 <= m < q0.len() && q0[m] == y;
                        assert(queue@[m] == y);
                    } else {
                        let m = choose|m: int| q0.len() <= m < queue@.len() && queue@[m] == y;
                        assert(queue@[m] == y);
                    }
                }
            }
            s = s + 1;
        }
        let mut done: Vec<i64> = Vec::new();
        let mut head: usize = 0;
        while head < queue.len()
            invariant
                self.wf(),
                self@ == (GraphView { nodes: self@.nodes, ..g0 }),
                seeds == targets@.to_set(),
                r == reach(edges, up, seeds),
                edges == g0.edges,
                self@.nodes.len() == g0.nodes.len(),
                forall|i: int| 0 <= i < g0.nodes.len() ==> (#[trigger] self@.nodes[i]).id == g0.nodes[i].id,
                forall|i: int|
                    0 <= i < g0.nodes.len() ==> #[trigger] self@.nodes[i] == if done@.contains(
                        g0.nodes[i].id,
                    ) {
                        fun.mutated(g0.nodes[i])
                    } else {
                        g0.nodes[i]
                    },
                head <= queue@.len(),
                done@.no_duplicates(),
                forall|j: int| 0 <= j < done@.len() ==> r.contains(done@[j]),
                forall|j: int| 0 <= j < queue@.len() ==> r.contains(queue@[j]),
                forall|j: int, y: i64|
                    0 <= j < targets@.len() && #[trigger] linked(edges, up, targets@[j], y)
                        ==> done@.contains(y) || pending(queue@, head as int, y),
                forall|x: i64, y: i64|
                    done@.contains(x) && #[trigger] linked(edges, up, x, y) ==> done@.contains(y)
                        || pending(queue@, head as int, y),
                done@.len() <= edges.len(),
            decreases edges.len() - done@.len(), queue@.len() - head,
        {
            let x = queue[head];
            let ghost h0 = head as int;
            let ghost q0 = queue@;
            let ghost d0 = done@;
            let ghost nodes0 = self@.nodes;
            head = head + 1;
            proof {
                assert forall|y: i64| #[trigger] pending(q0, h0, y) implies y == x || pending(q0, h0 + 1, y) by {
                    let j = choose|j: int| h0 <= j < q0.len() && q0[j] == y;
                    if j > h0 {
                        assert(h0 + 1 <= j);
                    }
                }
            }
            if !contains_id(&done, x) {
                assert(r.contains(x));
                match self.node_index(x) {
                    Some(i) => {
                        proof {
                            fun.lemma_keeps_id(self@.nodes[i as int]);
                        }
                        fun.apply(&mut self.nodes[i]);
                        proof {
                            assert(self@.nodes =~= nodes0.update(
                                i as int,
                                fun.mutated(nodes0[i as int]),
                            ));
                            assert forall|a: int, b: int|
                                0 <= a < b < self@.nodes.len() implies #[trigger] self@.nodes[a].id
                                < #[trigger] self@.nodes[b].id by {
                                assert(nodes0[a].id < nodes0[b].id);
                            }
                        }
                    },
                    None => {},
                }
                assert(self@.edges == edges);
                assert(queue@ == q0);
                self.push_links(up, x, &mut queue);
                done.push(x);
                proof {
                    let q1 = queue@;
                    let d1 = done@;
                    assert(d1 == d0.push(x));
                    assert forall|v: i64| #[trigger] d1.contains(v) <==> d0.contains(v) || v == x by {
                        if d0.contains(v) {
                            let j = choose|j: int| 0 <= j < d0.len() && d0[j] == v;
                            assert(d1[j] == v);
                        }
                        if v == x {
                            assert(d1[d0.len() as int] == x);
                        }
                        if d1.contains(v) {
                            let j = choose|j: int| 0 <= j < d1.len() && d1[j] == v;
                            if j < d0.len() {
                                assert(d0[j] == v);
                            }
                        }
                    }
                    assert forall|i: int| 0 <= i < g0.nodes.len() implies #[trigger] self@.nodes[i]
                        == if d1.contains(g0.nodes[i].id) {
                        fun.mutated(g0.nodes[i])
                    } else {
                        g0.nodes[i]
                    } by {
                        if g0.nodes[i].id == x {
                            assert(!d0.contains(g0.nodes[i].id));
                        }
                    }
                    assert forall|y: i64| #[trigger] pending(q0, h0 + 1, y) implies pending(q1, h0 + 1, y) by {
                        let j = choose|j: int| h0 + 1 <= j < q0.len() && q0[j] == y;
                        assert(q1[j] == y);
                    }
                    assert forall|y: i64| #[trigger] linked(edges, up, x, y) implies pending(q1, h0 + 1, y) by {
                        assert(pending(q1, q0.len() as int, y));
                        let j = choose|j: int| q0.len() <= j < q1.len() && q1[j] == y;
                        assert(h0 + 1 <= j);
                    }
                    assert forall|j: int| 0 <= j < q1.len() implies r.contains(q1[j]) by {
                        if j >= q0.len() {
                            lemma_extend_reach(edges, up, seeds, x, q1[j]);
                        } else {
                            assert(q1[j] == q0[j]);
                        }
                    }
                    assert forall|j: int| 0 <= j < d1.len() implies r.contains(d1[j]) by {
                        if j < d0.len() {
                            assert(d1[j] == d0[j]);
                        }
                    }
                    lemma_done_bounded(edges, up, seeds, d1);
                }
            } else {
                proof {
                    assert forall|i: int| 0 <= i < g0.nodes.len() implies #[trigger] self@.nodes[i]
                        == if done@.contains(g0.nodes[i].id) {
                        fun.mutated(g0.nodes[i])
                    } else {
                        g0.nodes[i]
                    } by {}
                }
            }
        }
        proof {
            assert forall|t: i64, y: i64|
                seeds.contains(t) && #[trigger] linked(edges, up, t, y) implies done@.contains(y) by {
                let j = choose|j: int| 0 <= j < targets@.len() && targets@[j] == t;
                assert(linked(edges, up, targets@[j], y));
            }
            assert forall|x: i64| r.contains(x) implies done@.contains(x) by {
                let w = choose|w: Seq<i64>|
                    #[trigger] is_walk(edges, up, w) && w.len() >= 2 && seeds.contains(w[0])
                        && w.last() == x;
                lemma_walk_within(edges, up, seeds, done@, w, w.len() - 1);
            }
            assert forall|x: i64| done@.contains(x) implies r.contains(x) by {
                let j = choose|j: int| 0 <= j < done@.len() && done@[j] == x;
            }
            assert(self@.nodes =~= mutate_in(g0.nodes, r, *fun));
        }
    }

    /// Applies `fun` once to every ascendant of `targets` that has a node:
    /// every identifier reached by following edges from child to parent one
    /// or more times.
    pub fn map_ascendant<F: NodeMutation<N>>(&mut self, targets: &[i64], fun: &F)
        requires
            old(self).wf(),
        ensures
            final(self).wf(),
            final(self)@ == (GraphView {
                nodes: mutate_in(old(self)@.nodes, reach(old(self)@.edges, true, targets@.to_set()), *fun),
                ..old(self)@
            }),
    {
        self.map_closure(true, targets, fun)
    }

    /// Applies `fun` once to every descendant of `targets` that has a node:
    /// every identifier reached by following edges from parent to child one
    /// or more times.
    pub fn map_descendant<F: NodeMutation<N>>(&mut self, targets: &[i64], fun: &F)
        requires
            old(self).wf(),
        ensures
            final(self).wf(),
            final(self)@ == (GraphView {
                nodes: mutate_in(old(self)@.nodes, reach(old(self)@.edges, false, targets@.to_set()), *fun),
                ..old(self)@
            }),
    {
        self.map_closure(false, targets, fun)
    }
}


proof fn lemma_hits_step<E>(edges: Seq<EdgeView<E>>, k: int, up: bool, from: i64, to: i64)
    requires
        0 <= k < edges.len(),
    ensures
        hits(edges.take(k + 1), up, from, to) == hits(edges.take(k), up, from, to) + if step(
            edges[k],
            up,
            from,
            to,
        ) {
            1nat
        } else {
            0nat
        },
{
    assert(edges.take(k + 1).drop_last() =~= edges.take(k));
}

proof fn lemma_seed_hits_step<E>(edges: Seq<EdgeView<E>>, up: bool, seeds: Seq<i64>, s: int, to: i64)
    requires
        0 <= s < seeds.len(),
    ensures
        seed_hits(edges, up, seeds.take(s + 1), to) == seed_hits(edges, up, seeds.take(s), to) + hits(
            edges,
            up,
            seeds[s],
            to,
        ),
{
    assert(seeds.take(s + 1).drop_last() =~= seeds.take(s));
}

impl<N, E> Graph<N, E> {
    /// Applies `fun` to the node at the far end of each edge that leads one
    /// hop from a seed, once for every such seed and edge. Ends that have no
    /// node are skipped.
    fn map_hop<F: NodeMutation<N>>(&mut self, up: bool, targets: &[i64], fun: &F)
        requires
            old(self).wf(),
        ensures
            final(self).wf(),
            final(self)@ == (GraphView {
                nodes: mutate_times(old(self)@.nodes, old(self)@.edges, up, targets@, *fun),
                ..old(self)@
            }),
    {
        let ghost g0 = self@;
        let ghost edges = g0.edges;
        let mut s: usize = 0;
        while s < targets.len()
            invariant
                self.wf(),
                self@ == (GraphView { nodes: self@.nodes, ..g0 }),
                edges == g0.edges,
                s <= targets@.len(),
                self@.nodes.len() == g0.nodes.len(),
                forall|i: int|
                    0 <= i < g0.nodes.len() ==> #[trigger] self@.nodes[i] == apply_times(
                        *fun,
                        g0.nodes[i],
                        seed_hits(edges, up, targets@.take(s as int), g0.nodes[i].id),
                    ),
                forall|i: int| 0 <= i < g0.nodes.len() ==> (#[trigger] self@.nodes[i]).id == g0.nodes[i].id,
            decreases targets@.len() - s,
        {
            let from = targets[s];
            let mut k: usize = 0;
            while k < self.edges.len()
                invariant
                    self.wf(),
                    self@ == (GraphView { nodes: self@.nodes, ..g0 }),
                    edges == g0.edges,
                    s < targets@.len(),
                    from == targets@[s as int],
                    k <= edges.len(),
                    self@.nodes.len() == g0.nodes.len(),
                    forall|i: int|
                        0 <= i < g0.nodes.len() ==> #[trigger] self@.nodes[i] == apply_times(
                            *fun,
                            g0.nodes[i],
                            seed_hits(edges, up, targets@.take(s as int), g0.nodes[i].id) + hits(
                                edges.take(k as int),
                                up,
                                from,
                                g0.nodes[i].id,
                            ),
                        ),
                    forall|i: int|
                        0 <= i < g0.nodes.len() ==> (#[trigger] self@.nodes[i]).id == g0.nodes[i].id,
                decreases edges.len() - k,
            {
                let ghost nodes0 = self@.nodes;
                let e = &self.edges[k];
                let hit = if up {
                    e.child == from
                } else {
                    e.parent == from
                };
                let to = if up {
                    e.parent
                } else {
                    e.child
                };
                proof {
                    assert forall|i: int| 0 <= i < g0.nodes.len() implies hits(
                        edges.take(k + 1),
                        up,
                        from,
                        #[trigger] g0.nodes[i].id,
                    ) == hits(edges.take(k as int), up, from, g0.nodes[i].id) + if hit
                        && to == g0.nodes[i].id {
                        1nat
                    } else {
                        0nat
                    } by {
                        lemma_hits_step(edges, k as int, up, from, g0.nodes[i].id);
                    }
                }
                if hit {
                    match self.node_index(to) {
                        Some(i) => {
                            proof {
                                fun.lemma_keeps_id(self@.nodes[i as int]);
                            }
                            fun.apply(&mut self.nodes[i]);
                            proof {
                                assert(self@.nodes =~= nodes0.update(
                                    i as int,
                                    fun.mutated(nodes0[i as int]),
                                ));
                                assert forall|a: int, b: int|
                                    0 <= a < b < self@.nodes.len() implies #[trigger] self@.nodes[a].id
                                    < #[trigger] self@.nodes[b].id by {
                                    assert(nodes0[a].id < nodes0[b].id);
                                }
                                assert forall|j: int| 0 <= j < g0.nodes.len() && j != i implies g0.nodes[j].id != to by {
                                    if j < i {
                                        assert(nodes0[j].id < nodes0[i as int].id);
                                    } else {
                                        assert(nodes0[i as int].id < nodes0[j].id);
                                    }
                                }
                            }
                        },
                        None => {},
                    }
                }
                k = k + 1;
            }
            proof {
                assert(edges.take(edges.len() as int) =~= edges);
                assert forall|i: int| 0 <= i < g0.nodes.len() implies seed_hits(
                    edges,
                    up,
                    targets@.take(s + 1),
                    #[trigger] g0.nodes[i].id,
                ) == seed_hits(edges, up, targets@.take(s as int), g0.nodes[i].id) + hits(
                    edges,
                    up,
                    from,
                    g0.nodes[i].id,
                ) by {
                    lemma_seed_hits_step(edges, up, targets@, s as int, g0.nodes[i].id);
                }
            }
            s = s + 1;
        }
        proof {
            assert(targets@.take(targets@.len() as int) =~= targets@);
            assert(self@.nodes =~= mutate_times(g0.nodes, edges, up, targets@, *fun));
        }
    }

    /// Applies `fun` to the parent of each seed, once for every edge from
    /// that parent to the seed (and every time the seed is repeated).
    pub fn map_parents<F: NodeMutation<N>>(&mut self, targets: &[i64], fun: &F)
        requires
            old(self).wf(),
        ensures
            final(self).wf(),
            final(self)@ == (GraphView {
                nodes: mutate_times(old(self)@.nodes, old(self)@.edges, true, targets@, *fun),
                ..old(self)@
            }),
    {
        self.map_hop(true, targets, fun)
    }

    /// Applies `fun` to the child of each seed, once for every edge from the
    /// seed to that child (and every time the seed is repeated).
    pub fn map_children<F: NodeMutation<N>>(&mut self, targets: &[i64], fun: &F)
        requires
            old(self).wf(),
        ensures
            final(self).wf(),
            final(self)@ == (GraphView {
                nodes: mutate_times(old(self)@.nodes, old(self)@.edges, false, targets@, *fun),
                ..old(self)@
            }),
    {
        self.map_hop(false, targets, fun)
    }
}

} // verus!
