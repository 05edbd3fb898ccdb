//! Ordering the nodes of a directed graph so that every node comes after the
//! nodes it waits for, taking the lowest-numbered node whenever several could
//! come next. Nodes are numbered by declaration, so ties fall to the node that
//! was declared first, and the result is the same on every call.

use vstd::prelude::*;

verus! {

/// A node can be placed next: it is not placed yet, and every node with an
/// edge into it is.
pub open spec fn ready(edges: Set<(usize, usize)>, placed: Set<usize>, node: usize) -> bool {
    &&& !placed.contains(node)
    &&& forall|a: usize| #[trigger] edges.contains((a, node)) ==> placed.contains(a)
}

/// `node` is the lowest-numbered node that can be placed next.
pub open spec fn least_ready(
    nodes: Set<usize>,
    edges: Set<(usize, usize)>,
    placed: Set<usize>,
    node: usize,
) -> bool {
    &&& nodes.contains(node)
    &&& ready(edges, placed, node)
    &&& forall|m: usize| nodes.contains(m) && #[trigger] ready(edges, placed, m) ==> node <= m
}

/// `order` lists every node once, each after the nodes with an edge into it,
/// and at every position holds the lowest-numbered node that could stand
/// there.
pub open spec fn declaration_order(
    order: Seq<usize>,
    nodes: Set<usize>,
    edges: Set<(usize, usize)>,
) -> bool {
    &&& order.no_duplicates()
    &&& forall|x: usize| nodes.contains(x) <==> order.contains(x)
    &&& forall|k: int|
        0 <= k < order.len() ==> least_ready(nodes, edges, order.take(k).to_set(), #[trigger] order[k])
}

/// Each node of `walk` has an edge to the one after it.
pub open spec fn is_walk(edges: Set<(usize, usize)>, walk: Seq<usize>) -> bool {
    forall|i: int| 0 <= i < walk.len() - 1 ==> edges.contains((#[trigger] walk[i], walk[i + 1]))
}

/// Some walk of at least one edge returns to where it started.
pub open spec fn has_cycle(edges: Set<(usize, usize)>) -> bool {
    exists|walk: Seq<usize>|
        walk.len() >= 2 && walk.first() == walk.last() && #[trigger] is_walk(edges, walk)
}

/// The nodes marked in `is_node`.
pub open spec fn node_set(is_node: Seq<bool>) -> Set<usize> {
    Set::new(|i: usize| i < is_node.len() && is_node[i as int])
}

/// The edges that `preds` lists: `(a, b)` where `a` stands in the list of `b`.
pub open spec fn edge_set(preds: Seq<Vec<usize>>) -> Set<(usize, usize)> {
    Set::new(|e: (usize, usize)| e.1 < preds.len() && preds[e.1 as int]@.contains(e.0))
}

/// Only nodes have lists, and only nodes stand in them.
pub open spec fn closed_graph(is_node: Seq<bool>, preds: Seq<Vec<usize>>) -> bool {
    &&& preds.len() == is_node.len()
    &&& forall|b: int| 0 <= b < preds.len() && (#[trigger] preds[b])@.len() > 0 ==> is_node[b]
    &&& forall|b: int, k: int|
        0 <= b < preds.len() && 0 <= k < preds[b]@.len() ==> (#[trigger] preds[b]@[k])
            < is_node.len() && is_node[preds[b]@[k] as int]
}

/// A sequence of distinct numbers below `n` has at most `n` members.
pub proof fn lemma_distinct_below(s: Seq<usize>, n: nat)
    requires
        s.no_duplicates(),
        forall|k: int| 0 <= k < s.len() ==> s[k] < n,
    ensures
        s.len() <= n,
    decreases n,
{
    if s.len() == 0 {
    } else if n == 0 {
        assert(s[0] < n);
    } else {
        let top = (n - 1) as usize;
        if exists|p: int| 0 <= p < s.len() && s[p] == top {
            let p = choose|p: int| 0 <= p < s.len() && s[p] == top;
            let rest = s.remove(p);
            assert forall|i: int, j: int|
                0 <= i < rest.len() && 0 <= j < rest.len() && i != j implies rest[i] != rest[j] by {
                let si = if i < p { i } else { i + 1 };
                let sj = if j < p { j } else { j + 1 };
                assert(rest[i] == s[si]);
                assert(rest[j] == s[sj]);
            }
            assert forall|k: int| 0 <= k < rest.len() implies rest[k] < (n - 1) as nat by {
                let sk = if k < p { k } else { k + 1 };
                assert(rest[k] == s[sk]);
                assert(s[sk] < n);
                assert(sk != p);
            }
            lemma_distinct_below(rest, (n - 1) as nat);
        } else {
            assert forall|k: int| 0 <= k < s.len() implies s[k] < (n - 1) as nat by {
                assert(s[k] < n);
            }
            lemma_distinct_below(s, (n - 1) as nat);
        }
    }
}

/// Where every member of a set of numbers below `n` has an edge from another
/// member, following such edges backwards from `start` for `steps` steps
/// stays inside the set.
pub open spec fn back_step(edges: Set<(usize, usize)>, stuck: Set<usize>, node: usize) -> usize {
    choose|a: usize| edges.contains((a, node)) && stuck.contains(a)
}

pub open spec fn back_walk(
    edges: Set<(usize, usize)>,
    stuck: Set<usize>,
    start: usize,
    steps: nat,
) -> usize
    decreases steps,
{
    if steps == 0 {
        start
    } else {
        back_step(edges, stuck, back_walk(edges, stuck, start, (steps - 1) as nat))
    }
}

proof fn lemma_back_walk(edges: Set<(usize, usize)>, stuck: Set<usize>, start: usize, steps: nat)
    requires
        stuck.contains(start),
        forall|u: usize|
            stuck.contains(u) ==> exists|a: usize| #[trigger]
                edges.contains((a, u)) && stuck.contains(a),
    ensures
        stuck.contains(back_walk(edges, stuck, start, steps)),
        steps > 0 ==> edges.contains(
            (
                back_walk(edges, stuck, start, steps),
                back_walk(edges, stuck, start, (steps - 1) as nat),
            ),
        ),
    decreases steps,
{
    if steps > 0 {
        lemma_back_walk(edges, stuck, start, (steps - 1) as nat);
        let u = back_walk(edges, stuck, start, (steps - 1) as nat);
        assert(stuck.contains(u));
        let a = choose|a: usize| #[trigger] edges.contains((a, u)) && stuck.contains(a);
        assert(edges.contains((a, u)) && stuck.contains(a));
    }
}

/// A non-empty set of numbers below `n`, each with an edge from another
/// member of the set, holds a cycle.
pub proof fn lemma_stuck_has_cycle(edges: Set<(usize, usize)>, stuck: Set<usize>, start: usize, n: nat)
    requires
        stuck.contains(start),
        forall|u: usize| stuck.contains(u) ==> u < n,
        forall|u: usize|
            stuck.contains(u) ==> exists|a: usize| #[trigger]
                edges.contains((a, u)) && stuck.contains(a),
    ensures
        has_cycle(edges),
{
    let trail = Seq::new(n + 1, |k: int| back_walk(edges, stuck, start, k as nat));
    assert forall|k: int| 0 <= k < trail.len() implies trail[k] < n by {
        lemma_back_walk(edges, stuck, start, k as nat);
    }
    if trail.no_duplicates() {
        lemma_distinct_below(trail, n);
    }
    let (i, j) = choose|i: int, j: int|
        0 <= i < trail.len() && 0 <= j < trail.len() && i != j && trail[i] == trail[j];
    let lo = if i < j { i } else { j };
    let hi = if i < j { j } else { i };
    let walk = Seq::new((hi - lo + 1) as nat, |t: int| trail[hi - t]);
    assert(walk.first() == trail[hi]);
    assert(walk.last() == trail[lo]);
    assert forall|t: int| 0 <= t < walk.len() - 1 implies edges.contains(
        (#[trigger] walk[t], walk[t + 1]),
    ) by {
        lemma_back_walk(edges, stuck, start, (hi - t) as nat);
        assert(walk[t] == back_walk(edges, stuck, start, (hi - t) as nat));
        assert(walk[t + 1] == back_walk(edges, stuck, start, (hi - t - 1) as nat));
    }
    assert(is_walk(edges, walk));
}

/// Along a walk, positions in an order that respects every edge only grow.
proof fn lemma_walk_climbs(
    order: Seq<usize>,
    nodes: Set<usize>,
    edges: Set<(usize, usize)>,
    walk: Seq<usize>,
    upto: int,
)
    requires
        declaration_order(order, nodes, edges),
        is_walk(edges, walk),
        walk.len() >= 1,
        0 <= upto < walk.len(),
        order.contains(walk[0]),
        forall|a: usize, b: usize| #[trigger] edges.contains((a, b)) ==> nodes.contains(b),
    ensures
        order.contains(walk[upto]),
        order.index_of(walk[0]) + upto <= order.index_of(walk[upto]),
    decreases upto,
{
    if upto > 0 {
        lemma_walk_climbs(order, nodes, edges, walk, upto - 1);
        let a = walk[upto - 1];
        let b = walk[upto];
        assert(edges.contains((a, b)));
        assert(nodes.contains(b));
        lemma_edge_ascends(order, nodes, edges, a, b);
    }
}

/// In a declaration order, the source of an edge stands before its target
/// whenever either is listed.
pub proof fn lemma_edge_ascends(
    order: Seq<usize>,
    nodes: Set<usize>,
    edges: Set<(usize, usize)>,
    a: usize,
    b: usize,
)
    requires
        declaration_order(order, nodes, edges),
        edges.contains((a, b)),
        order.contains(b),
    ensures
        order.contains(a),
        order.index_of(a) < order.index_of(b),
{
    let pb = order.index_of(b);
    assert(least_ready(nodes, edges, order.take(pb).to_set(), order[pb]));
    assert(order.take(pb).to_set().contains(a));
    let pa = choose|pa: int| 0 <= pa < order.take(pb).len() && order.take(pb)[pa] == a;
    assert(order[pa] == a);
    assert(order.index_of(a) == pa);
}

/// A graph that has a declaration order has no cycle among the listed nodes.
pub proof fn lemma_ordered_is_acyclic(
    order: Seq<usize>,
    nodes: Set<usize>,
    edges: Set<(usize, usize)>,
)
    requires
        declaration_order(order, nodes, edges),
        forall|a: usize, b: usize| #[trigger] edges.contains((a, b)) ==> nodes.contains(b),
    ensures
        !has_cycle(edges),
{
    if has_cycle(edges) {
        let walk = choose|walk: Seq<usize>|
            walk.len() >= 2 && walk.first() == walk.last() && #[trigger] is_walk(edges, walk);
        assert(edges.contains((walk[0], walk[1])));
        assert(nodes.contains(walk[1]));
        lemma_edge_ascends(order, nodes, edges, walk[0], walk[1]);
        lemma_walk_climbs(order, nodes, edges, walk, walk.len() - 1);
    }
}

/// Two declaration orders of the same graph are the same sequence.
pub proof fn lemma_order_unique(
    first: Seq<usize>,
    second: Seq<usize>,
    nodes: Set<usize>,
    edges: Set<(usize, usize)>,
)
    requires
        declaration_order(first, nodes, edges),
        declaration_order(second, nodes, edges),
    ensures
        first == second,
{
    lemma_common_prefix(first, second, nodes, edges, first.len() as int);
    lemma_common_prefix(second, first, nodes, edges, second.len() as int);
    assert(first.take(first.len() as int) =~= first);
    assert(second.take(second.len() as int) =~= second);
}

proof fn lemma_common_prefix(
    first: Seq<usize>,
    second: Seq<usize>,
    nodes: Set<usize>,
    edges: Set<(usize, usize)>,
    upto: int,
)
    requires
        declaration_order(first, nodes, edges),
        declaration_order(second, nodes, edges),
        0 <= upto <= first.len(),
    ensures
        upto <= second.len(),
        first.take(upto) == second.take(upto),
    decreases upto,
{
    if upto == 0 {
        assert(first.take(0) =~= second.take(0));
    } else {
        let k = upto - 1;
        lemma_common_prefix(first, second, nodes, edges, k);
        let placed = first.take(k).to_set();
        assert(least_ready(nodes, edges, placed, first[k]));
        // first[k] is a node that is not among the first k of `second`, so
        // `second` goes on, and both hold the least ready node at k.
        assert(second.contains(first[k]));
        let p = second.index_of(first[k]);
        if p < k {
            assert(second.take(k)[p] == first[k]);
            assert(placed.contains(first[k]));
        }
        assert(k < second.len());
        assert(least_ready(nodes, edges, placed, second[k]));
        assert(first[k] == second[k]);
        assert(first.take(upto) =~= first.take(k).push(first[k]));
        assert(second.take(upto) =~= second.take(k).push(second[k]));
    }
}

/// Whether every node with an edge into `node` is placed.
fn waits_for_none(preds: &Vec<Vec<usize>>, placed: &Vec<bool>, node: usize) -> (r: bool)
    requires
        node < preds.len(),
        forall|k: int| 0 <= k < preds[node as int]@.len() ==> (#[trigger] preds[node as int]@[k])
            < placed.len(),
    ensures
        r == forall|a: usize| #[trigger]
            edge_set(preds@).contains((a, node)) ==> a < placed.len() && placed[a as int],
{
    let list = &preds[node];
    let mut k: usize = 0;
    while k < list.len()
        invariant
            k <= list@.len(),
            list@ == preds[node as int]@,
            node < preds.len(),
            forall|j: int| 0 <= j < list@.len() ==> (#[trigger] list@[j]) < placed.len(),
            forall|j: int| 0 <= j < k ==> placed[(#[trigger] list@[j]) as int],
        decreases list@.len() - k,
    {
        if !placed[list[k]] {
            assert(edge_set(preds@).contains((list@[k as int], node)));
            return false;
        }
        k += 1;
    }
    assert forall|a: usize| #[trigger] edge_set(preds@).contains((a, node)) implies a
        < placed.len() && placed[a as int] by {
        let j = choose|j: int| 0 <= j < list@.len() && list@[j] == a;
        assert(placed[list@[j] as int]);
    }
    true
}

/// The placed nodes, as a set.
pub open spec fn marked(placed: Seq<bool>) -> Set<usize> {
    Set::new(|i: usize| i < placed.len() && placed[i as int])
}

/// The lowest-numbered node that can be placed next, if any can.
fn next_ready(is_node: &Vec<bool>, preds: &Vec<Vec<usize>>, placed: &Vec<bool>) -> (r: Option<usize>)
    requires
        closed_graph(is_node@, preds@),
        placed.len() == is_node.len(),
    ensures
        match r {
            Some(c) => least_ready(node_set(is_node@), edge_set(preds@), marked(placed@), c),
            None => forall|m: usize|
                node_set(is_node@).contains(m) ==> !#[trigger] ready(
                    edge_set(preds@),
                    marked(placed@),
                    m,
                ),
        },
{
    let n = is_node.len();
    let mut c: usize = 0;
    while c < n
        invariant
            c <= n,
            n == is_node.len(),
            closed_graph(is_node@, preds@),
            placed.len() == is_node.len(),
            forall|m: usize|
                m < c && node_set(is_node@).contains(m) ==> !#[trigger] ready(
                    edge_set(preds@),
                    marked(placed@),
                    m,
                ),
        decreases n - c,
    {
        if is_node[c] && !placed[c] {
            if waits_for_none(preds, placed, c) {
                assert(ready(edge_set(preds@), marked(placed@), c));
                return Some(c);
            } else {
                let ghost a = choose|a: usize| #[trigger]
                    edge_set(preds@).contains((a, c)) && !(a < placed.len() && placed[a as int]);
                assert(edge_set(preds@).contains((a, c)) && !marked(placed@).contains(a));
            }
        }
        c += 1;
    }
    None
}

/// A node that is not placed yet, if there is one.
fn first_unplaced(is_node: &Vec<bool>, placed: &Vec<bool>) -> (r: Option<usize>)
    requires
        placed.len() == is_node.len(),
    ensures
        match r {
            Some(u) => node_set(is_node@).contains(u) && !marked(placed@).contains(u),
            None => forall|m: usize| node_set(is_node@).contains(m) ==> marked(placed@).contains(m),
        },
{
    let mut u: usize = 0;
    while u < is_node.len()
        invariant
            u <= is_node.len(),
            placed.len() == is_node.len(),
            forall|m: usize|
                m < u && node_set(is_node@).contains(m) ==> marked(placed@).contains(m),
        decreases is_node.len() - u,
    {
        if is_node[u] && !placed[u] {
            return Some(u);
        }
        u += 1;
    }
    None
}

/// Orders the nodes of a graph. `is_node` marks which numbers are nodes;
/// `preds` lists, for each node, the nodes with an edge into it.
///
/// The result is the declaration order of the graph where it has one, and
/// `None` exactly where the graph has a cycle.
pub fn sort_by_declaration(is_node: &Vec<bool>, preds: &Vec<Vec<usize>>) -> (r: Option<Vec<usize>>)
    requires
        closed_graph(is_node@, preds@),
    ensures
        match r {
            Some(order) => declaration_order(order@, node_set(is_node@), edge_set(preds@)),
            None => has_cycle(edge_set(preds@)),
        },
        r is None <==> has_cycle(edge_set(preds@)),
{
    let n = is_node.len();
    let ghost nodes = node_set(is_node@);
    let ghost edges = edge_set(preds@);
    let mut placed: Vec<bool> = Vec::new();
    while placed.len() < n
        invariant
            placed.len() <= n,
            forall|i: int| 0 <= i < placed.len() ==> !placed[i],
        decreases n - placed.len(),
    {
        placed.push(false);
    }
    let mut order: Vec<usize> = Vec::new();
    assert(order@.to_set() =~= marked(placed@));
    let mut open = true;
    while open && order.len() < n
        invariant
            n == is_node.len(),
            nodes == node_set(is_node@),
            edges == edge_set(preds@),
            closed_graph(is_node@, preds@),
            placed.len() == n,
            order@.no_duplicates(),
            order@.to_set() == marked(placed@),
            forall|k: int| 0 <= k < order.len() ==> nodes.contains(#[trigger] order[k]),
            forall|k: int|
                0 <= k < order.len() ==> least_ready(
                    nodes,
                    edges,
                    order@.take(k).to_set(),
                    #[trigger] order[k],
                ),
            !open ==> forall|m: usize|
                nodes.contains(m) ==> !#[trigger] ready(edges, marked(placed@), m),
            order.len() <= n,
        decreases (if open { 1int } else { 0int }), n - order.len(),
    {
        match next_ready(is_node, preds, &placed) {
            Some(c) => {
                let ghost before = order@;
                let ghost before_placed = placed@;
                placed.set(c, true);
                order.push(c);
                proof {
                    assert(!before.contains(c)) by {
                        if before.contains(c) {
                            assert(before.to_set().contains(c));
                        }
                    }
                    assert(order@.take(before.len() as int) =~= before);
                    assert forall|k: int| 0 <= k < order.len() implies least_ready(
                        nodes,
                        edges,
                        order@.take(k).to_set(),
                        #[trigger] order[k],
                    ) by {
                        if k < before.len() {
                            assert(order@.take(k) =~= before.take(k));
                            assert(order[k] == before[k]);
                        }
                    }
                    assert(order@.to_set() =~= marked(placed@)) by {
                        assert forall|x: usize| order@.to_set().contains(x) == marked(
                            placed@,
                        ).contains(x) by {
                            if order@.to_set().contains(x) {
                                let p = choose|p: int| 0 <= p < order@.len() && order@[p] == x;
                                if p < before.len() {
                                    assert(before[p] == x);
                                    assert(before.to_set().contains(x));
                                    assert(marked(before_placed).contains(x));
                                }
                            }
                            if marked(placed@).contains(x) {
                                if x == c {
                                    assert(order@[before.len() as int] == c);
                                } else {
                                    assert(marked(before_placed).contains(x));
                                    assert(before.to_set().contains(x));
                                    let p = choose|p: int| 0 <= p < before.len() && before[p] == x;
                                    assert(order@[p] == x);
                                }
                            }
                        }
                    }
                    assert forall|k: int| 0 <= k < order.len() implies order[k] < n by {
                        assert(nodes.contains(order[k]));
                    }
                    lemma_distinct_below(order@, n as nat);
                }
            },
            None => {
                open = false;
            },
        }
    }
    match first_unplaced(is_node, &placed) {
        Some(u) => {
            proof {
                if open {
                    // every number below n is listed, so `u` is too
                    let longer = order@.push(u);
                    assert(!order@.contains(u)) by {
                        if order@.contains(u) {
                            assert(order@.to_set().contains(u));
                        }
                    }
                    assert forall|k: int| 0 <= k < longer.len() implies longer[k] < n by {
                        if k < order.len() {
                            assert(nodes.contains(order[k]));
                        }
                    }
                    lemma_distinct_below(longer, n as nat);
                }
                let stuck = Set::new(|m: usize| nodes.contains(m) && !marked(placed@).contains(m));
                assert forall|m: usize| stuck.contains(m) implies exists|a: usize| #[trigger]
                    edges.contains((a, m)) && stuck.contains(a) by {
                    assert(!ready(edges, marked(placed@), m));
                    let a = choose|a: usize| #[trigger]
                        edges.contains((a, m)) && !marked(placed@).contains(a);
                    let k = choose|k: int|
                        0 <= k < preds@[m as int]@.len() && preds@[m as int]@[k] == a;
                    assert(is_node[preds@[m as int]@[k] as int]);
                    assert(stuck.contains(a));
                }
                lemma_stuck_has_cycle(edges, stuck, u, n as nat);
            }
            None
        },
        None => {
            proof {
                assert forall|x: usize| nodes.contains(x) <==> order@.contains(x) by {
                    if nodes.contains(x) {
                        assert(marked(placed@).contains(x));
                        assert(order@.to_set().contains(x));
                    }
                    if order@.contains(x) {
                        let p = choose|p: int| 0 <= p < order@.len() && order@[p] == x;
                        assert(nodes.contains(order[p]));
                    }
                }
                assert forall|a: usize, b: usize| #[trigger] edges.contains((a, b)) implies nodes.contains(
                    b,
                ) by {
                    let k = choose|k: int|
                        0 <= k < preds@[b as int]@.len() && preds@[b as int]@[k] == a;
                    assert(is_node[b as int]);
                }
                lemma_ordered_is_acyclic(order@, nodes, edges);
            }
            Some(order)
        },
    }
}

} // verus!
