use vstd::prelude::*;

verus! {

/// Whether `rank` gives every edge's source a smaller number than its target.
pub open spec fn ranks<N>(edges: Seq<(N, N)>, rank: spec_fn(N) -> nat) -> bool {
    forall|k: int| 0 <= k < edges.len() ==> rank((#[trigger] edges[k]).0) < rank(edges[k].1)
}

/// Whether a graph is acyclic, said without paths: its nodes can be
/// numbered so that every edge leads from a smaller number to a larger one.
pub open spec fn rankable<N>(edges: Seq<(N, N)>) -> bool {
    exists|rank: spec_fn(N) -> nat| ranks(edges, rank)
}

/// Whether every edge runs between nodes below `n`.
pub open spec fn edges_within(n: nat, edges: Seq<(usize, usize)>) -> bool {
    forall|k: int| 0 <= k < edges.len() ==> (#[trigger] edges[k]).0 < n && edges[k].1 < n
}

/// Whether `order` lists each of the nodes `0..n` once, every edge's source
/// before its target.
pub open spec fn is_topological_order(n: nat, edges: Seq<(usize, usize)>, order: Seq<usize>)
    -> bool {
    &&& order.len() == n
    &&& forall|i: int| 0 <= i < order.len() ==> (#[trigger] order[i]) < n
    &&& forall|i: int, j: int|
        0 <= i < j < order.len() ==> (#[trigger] order[i]) != (#[trigger] order[j])
    &&& forall|v: usize| v < n ==> #[trigger] placed_before(order, v, order.len() as int)
    &&& forall|k: int, i: int, j: int|
        0 <= k < edges.len() && 0 <= i < order.len() && 0 <= j < order.len() && #[trigger] order[i]
            == (#[trigger] edges[k]).0 && #[trigger] order[j] == edges[k].1 ==> i < j
}

/// Whether `walk`, a sequence of edge numbers, is a cycle: each edge starts
/// where the one before it ends, and the first starts where the last ends.
pub open spec fn is_cycle<N>(edges: Seq<(N, N)>, walk: Seq<int>) -> bool {
    &&& walk.len() > 0
    &&& forall|i: int| 0 <= i < walk.len() ==> 0 <= (#[trigger] walk[i]) < edges.len()
    &&& forall|i: int|
        0 <= i < walk.len() - 1 ==> edges[#[trigger] walk[i]].1 == edges[walk[i + 1]].0
    &&& edges[walk[walk.len() - 1]].1 == edges[walk[0]].0
}

/// Along a walk the rank only grows.
proof fn lemma_rank_grows<N>(edges: Seq<(N, N)>, walk: Seq<int>, rank: spec_fn(N) -> nat, i: int)
    requires
        ranks(edges, rank),
        is_cycle(edges, walk),
        0 <= i < walk.len(),
    ensures
        rank(edges[walk[0]].0) < rank(edges[walk[i]].1),
    decreases i,
{
    assert(rank(edges[walk[i]].0) < rank(edges[walk[i]].1));
    if i > 0 {
        lemma_rank_grows(edges, walk, rank, i - 1);
        assert(edges[walk[i - 1]].1 == edges[walk[i - 1 + 1]].0);
    }
}

/// A graph that contains a cycle is not acyclic in the sense of
/// [`rankable`].
pub proof fn lemma_cycle_is_not_rankable<N>(edges: Seq<(N, N)>, walk: Seq<int>)
    requires
        is_cycle(edges, walk),
    ensures
        !rankable(edges),
{
    if rankable(edges) {
        let rank = choose|rank: spec_fn(N) -> nat| ranks(edges, rank);
        lemma_rank_grows(edges, walk, rank, walk.len() - 1);
    }
}

/// The place of node `v` in `order`.
pub open spec fn place_of(order: Seq<usize>, v: usize) -> nat {
    (choose|i: int| 0 <= i < order.len() && order[i] == v) as nat
}

/// A graph that has a topological order is acyclic: the place of each node
/// in the order is its rank.
pub proof fn lemma_order_ranks(n: nat, edges: Seq<(usize, usize)>, order: Seq<usize>)
    requires
        edges_within(n, edges),
        is_topological_order(n, edges, order),
    ensures
        ranks(edges, |v: usize| place_of(order, v)),
        rankable(edges),
{
    let rank = |v: usize| place_of(order, v);
    assert forall|k: int| 0 <= k < edges.len() implies rank((#[trigger] edges[k]).0) < rank(
        edges[k].1,
    ) by {
        let s = edges[k].0;
        let t = edges[k].1;
        assert(placed_before(order, s, order.len() as int));
        assert(placed_before(order, t, order.len() as int));
        let i = choose|i: int| 0 <= i < order.len() && order[i] == s;
        let j = choose|j: int| 0 <= j < order.len() && order[j] == t;
        assert(order[i] == edges[k].0 && order[j] == edges[k].1);
    }
    assert(ranks(edges, rank));
}

/// The number of edges among the first `upto` that lead into `v` and are
/// not removed.
pub open spec fn pending_into(edges: Seq<(usize, usize)>, removed: Seq<bool>, v: usize, upto: int)
    -> nat
    decreases upto,
{
    if upto <= 0 {
        0
    } else {
        pending_into(edges, removed, v, upto - 1) + if edges[upto - 1].1 == v && !removed[upto
            - 1] {
            1nat
        } else {
            0nat
        }
    }
}

proof fn lemma_pending_bound(edges: Seq<(usize, usize)>, removed: Seq<bool>, v: usize, upto: int)
    requires
        0 <= upto <= edges.len(),
    ensures
        pending_into(edges, removed, v, upto) <= upto,
    decreases upto,
{
    if upto > 0 {
        lemma_pending_bound(edges, removed, v, upto - 1);
    }
}

/// Removing edge `k` takes one off the count of the node it leads into.
proof fn lemma_pending_remove(
    edges: Seq<(usize, usize)>,
    removed: Seq<bool>,
    k: int,
    v: usize,
    upto: int,
)
    requires
        0 <= upto <= edges.len(),
        removed.len() == edges.len(),
        0 <= k < edges.len(),
        !removed[k],
    ensures
        pending_into(edges, removed.update(k, true), v, upto) == pending_into(
            edges,
            removed,
            v,
            upto,
        ) - (if k < upto && edges[k].1 == v {
            1int
        } else {
            0int
        }),
    decreases upto,
{
    if upto > 0 {
        lemma_pending_remove(edges, removed, k, v, upto - 1);
    }
}

/// A node whose count is not zero has an edge into it that is not removed.
proof fn lemma_pending_witness(
    edges: Seq<(usize, usize)>,
    removed: Seq<bool>,
    v: usize,
    upto: int,
) -> (k: int)
    requires
        0 <= upto <= edges.len(),
        pending_into(edges, removed, v, upto) > 0,
    ensures
        0 <= k < upto,
        edges[k].1 == v,
        !removed[k],
    decreases upto,
{
    if edges[upto - 1].1 == v && !removed[upto - 1] {
        upto - 1
    } else {
        lemma_pending_witness(edges, removed, v, upto - 1)
    }
}

/// Every edge into a node whose count is zero is removed.
proof fn lemma_pending_none(
    edges: Seq<(usize, usize)>,
    removed: Seq<bool>,
    v: usize,
    upto: int,
    k: int,
)
    requires
        0 <= k < upto <= edges.len(),
        pending_into(edges, removed, v, upto) == 0,
        edges[k].1 == v,
    ensures
        removed[k],
    decreases upto,
{
    if k < upto - 1 {
        lemma_pending_none(edges, removed, v, upto - 1, k);
    }
}

/// The number of nodes among the first `upto` that are placed.
pub open spec fn placed_upto(placed: Seq<bool>, upto: int) -> nat
    decreases upto,
{
    if upto <= 0 {
        0
    } else {
        placed_upto(placed, upto - 1) + if placed[upto - 1] {
            1nat
        } else {
            0nat
        }
    }
}

proof fn lemma_placed_bound(placed: Seq<bool>, upto: int)
    requires
        0 <= upto <= placed.len(),
    ensures
        placed_upto(placed, upto) <= upto,
    decreases upto,
{
    if upto > 0 {
        lemma_placed_bound(placed, upto - 1);
    }
}

proof fn lemma_placed_update(placed: Seq<bool>, v: int, upto: int)
    requires
        0 <= upto <= placed.len(),
        0 <= v < placed.len(),
        !placed[v],
    ensures
        placed_upto(placed.update(v, true), upto) == placed_upto(placed, upto) + (if v < upto {
            1int
        } else {
            0int
        }),
    decreases upto,
{
    if upto > 0 {
        lemma_placed_update(placed, v, upto - 1);
    }
}

/// Where fewer nodes are placed than there are, some node is not.
proof fn lemma_unplaced_witness(placed: Seq<bool>, upto: int) -> (v: int)
    requires
        0 <= upto <= placed.len(),
        placed_upto(placed, upto) < upto,
    ensures
        0 <= v < upto,
        !placed[v],
    decreases upto,
{
    lemma_placed_bound(placed, upto - 1);
    if !placed[upto - 1] {
        upto - 1
    } else {
        lemma_unplaced_witness(placed, upto - 1)
    }
}

/// Where every node is placed, each is.
proof fn lemma_placed_all(placed: Seq<bool>, upto: int, v: int)
    requires
        0 <= v < upto <= placed.len(),
        placed_upto(placed, upto) == upto,
    ensures
        placed[v],
    decreases upto,
{
    lemma_placed_bound(placed, upto - 1);
    if v < upto - 1 {
        lemma_placed_all(placed, upto - 1, v);
    }
}

/// Whether node `v` stands in `order` before place `limit`.
pub open spec fn placed_before(order: Seq<usize>, v: usize, limit: int) -> bool {
    exists|i: int| 0 <= i < limit && i < order.len() && #[trigger] order[i] == v
}

/// Whether node `v` can follow the nodes of `prefix`: it is not among them,
/// and the source of every edge into it is.
pub open spec fn is_ready(n: nat, edges: Seq<(usize, usize)>, prefix: Seq<usize>, v: usize)
    -> bool {
    &&& v < n
    &&& !placed_before(prefix, v, prefix.len() as int)
    &&& forall|k: int|
        0 <= k < edges.len() && (#[trigger] edges[k]).1 == v ==> placed_before(
            prefix,
            edges[k].0,
            prefix.len() as int,
        )
}

/// Whether `order` lists all nodes, each place taking the node of the
/// smallest number among those that can follow the nodes before it.
pub open spec fn is_ready_first_order(n: nat, edges: Seq<(usize, usize)>, order: Seq<usize>)
    -> bool {
    &&& order.len() == n
    &&& forall|j: int|
        0 <= j < order.len() ==> is_ready(n, edges, order.take(j), #[trigger] order[j])
    &&& forall|j: int, v: usize|
        0 <= j < order.len() && #[trigger] is_ready(n, edges, order.take(j), v) ==> order[j] <= v
}

/// A graph has one ready-first order at most.
pub proof fn lemma_ready_first_is_unique(
    n: nat,
    edges: Seq<(usize, usize)>,
    a: Seq<usize>,
    b: Seq<usize>,
)
    requires
        is_ready_first_order(n, edges, a),
        is_ready_first_order(n, edges, b),
    ensures
        a == b,
{
    lemma_same_prefix(n, edges, a, b, n as int);
    assert(a.take(n as int) =~= a);
    assert(b.take(n as int) =~= b);
}

proof fn lemma_same_prefix(
    n: nat,
    edges: Seq<(usize, usize)>,
    a: Seq<usize>,
    b: Seq<usize>,
    upto: int,
)
    requires
        is_ready_first_order(n, edges, a),
        is_ready_first_order(n, edges, b),
        0 <= upto <= n,
    ensures
        a.take(upto) == b.take(upto),
    decreases upto,
{
    if upto > 0 {
        lemma_same_prefix(n, edges, a, b, upto - 1);
        let j = upto - 1;
        assert(is_ready(n, edges, a.take(j), a[j]));
        assert(is_ready(n, edges, b.take(j), b[j]));
        assert(a[j] <= b[j]);
        assert(b[j] <= a[j]);
        assert(a.take(upto) =~= a.take(j).push(a[j]));
        assert(b.take(upto) =~= b.take(j).push(b[j]));
    } else {
        assert(a.take(0) =~= b.take(0));
    }
}

/// A ready-first order is a topological order.
pub proof fn lemma_ready_first_is_topological(
    n: nat,
    edges: Seq<(usize, usize)>,
    order: Seq<usize>,
    placed: Seq<bool>,
)
    requires
        edges_within(n, edges),
        is_ready_first_order(n, edges, order),
        placed.len() == n,
        placed_upto(placed, n as int) == n,
        forall|v: usize|
            v < n ==> (placed[v as int] <==> placed_before(order, v, order.len() as int)),
    ensures
        is_topological_order(n, edges, order),
{
    assert forall|i: int| 0 <= i < order.len() implies (#[trigger] order[i]) < n by {
        assert(is_ready(n, edges, order.take(i), order[i]));
    }
    assert forall|i: int, j: int| 0 <= i < j < order.len() implies (#[trigger] order[i]) != (
    #[trigger] order[j]) by {
        assert(is_ready(n, edges, order.take(j), order[j]));
        if order[i] == order[j] {
            assert(order.take(j)[i] == order[j]);
        }
    }
    assert forall|v: usize| v < n implies #[trigger] placed_before(
        order,
        v,
        order.len() as int,
    ) by {
        lemma_placed_all(placed, n as int, v as int);
    }
    assert forall|k: int, i: int, j: int|
        0 <= k < edges.len() && 0 <= i < order.len() && 0 <= j < order.len() && #[trigger] order[i]
            == (#[trigger] edges[k]).0 && #[trigger] order[j] == edges[k].1 implies i < j by {
        assert(is_ready(n, edges, order.take(j), order[j]));
        assert(placed_before(order.take(j), edges[k].0, j));
        let w = choose|w: int|
            0 <= w < j && w < order.take(j).len() && #[trigger] order.take(j)[w] == edges[k].0;
        assert(order[w] == edges[k].0);
        if w < i {
            assert(order[w] != order[i]);
        } else if i < w {
            assert(order[i] != order[w]);
        }
    }
}

/// What holds while the sort runs. `counts[v]` is the number of edges into
/// `v` that are not removed; an edge is removed once its source is placed;
/// the nodes in `order` are the placed nodes; and `order` is ready-first as
/// far as it goes.
spec fn sorting(
    n: nat,
    edges: Seq<(usize, usize)>,
    counts: Seq<usize>,
    placed: Seq<bool>,
    removed: Seq<bool>,
    order: Seq<usize>,
) -> bool {
    &&& edges_within(n, edges)
    &&& counts.len() == n
    &&& placed.len() == n
    &&& removed.len() == edges.len()
    &&& forall|v: usize| v < n ==> counts[v as int] == pending_into(
        edges,
        removed,
        v,
        edges.len() as int,
    )
    &&& forall|v: usize|
        v < n ==> (placed[v as int] <==> placed_before(order, v, order.len() as int))
    &&& placed_upto(placed, n as int) == order.len()
    &&& forall|j: int|
        0 <= j < order.len() ==> is_ready(n, edges, order.take(j), #[trigger] order[j])
    &&& forall|j: int, v: usize|
        0 <= j < order.len() && #[trigger] is_ready(n, edges, order.take(j), v) ==> order[j] <= v
}

/// In a graph that can be ranked, a sort that finds no node ready has
/// placed every node. A node that were left would have an edge into it from
/// another node that is left, of smaller rank, and so on without end.
proof fn lemma_rest_is_complete(
    n: nat,
    edges: Seq<(usize, usize)>,
    counts: Seq<usize>,
    placed: Seq<bool>,
    removed: Seq<bool>,
    order: Seq<usize>,
    rank: spec_fn(usize) -> nat,
    v: usize,
)
    requires
        sorting(n, edges, counts, placed, removed, order),
        forall|k: int|
            0 <= k < edges.len() ==> (#[trigger] removed[k] <==> placed[edges[k].0 as int]),
        forall|u: usize| u < n ==> placed[u as int] || counts[u as int] != 0,
        ranks(edges, rank),
        v < n,
    ensures
        placed[v as int],
    decreases rank(v),
{
    if !placed[v as int] {
        let k = lemma_pending_witness(edges, removed, v, edges.len() as int);
        let s = edges[k].0;
        assert(!removed[k]);
        assert(s < n);
        assert(rank(edges[k].0) < rank(edges[k].1));
        lemma_rest_is_complete(n, edges, counts, placed, removed, order, rank, s);
    }
}

/// The smallest node that is not placed and has no edge left into it.
fn first_ready(placed: &Vec<bool>, counts: &Vec<usize>) -> (r: Option<usize>)
    requires
        placed@.len() == counts@.len(),
    ensures
        match r {
            Some(v) => v < counts@.len() && !placed@[v as int] && counts@[v as int] == 0 && forall|
                u: int,
            |
                0 <= u < v ==> placed@[u] || counts@[u] != 0,
            None => forall|u: int| 0 <= u < counts@.len() ==> placed@[u] || counts@[u] != 0,
        },
{
    let mut v: usize = 0;
    while v < counts.len()
        invariant
            v <= counts@.len(),
            placed@.len() == counts@.len(),
            forall|u: int| 0 <= u < v ==> placed@[u] || counts@[u] != 0,
        decreases counts@.len() - v,
    {
        if !placed[v] && counts[v] == 0 {
            return Some(v);
        }
        v = v + 1;
    }
    None
}

/// A node is ready exactly if it is not placed and no edge is left into it.
proof fn lemma_ready(
    n: nat,
    edges: Seq<(usize, usize)>,
    counts: Seq<usize>,
    placed: Seq<bool>,
    removed: Seq<bool>,
    order: Seq<usize>,
    v: usize,
)
    requires
        sorting(n, edges, counts, placed, removed, order),
        forall|k: int|
            0 <= k < edges.len() ==> (#[trigger] removed[k] <==> placed[edges[k].0 as int]),
        v < n,
    ensures
        is_ready(n, edges, order, v) <==> !placed[v as int] && counts[v as int] == 0,
{
    if !placed[v as int] && counts[v as int] == 0 {
        assert forall|k: int|
            0 <= k < edges.len() && (#[trigger] edges[k]).1 == v implies placed_before(
            order,
            edges[k].0,
            order.len() as int,
        ) by {
            lemma_pending_none(edges, removed, v, edges.len() as int, k);
        }
    }
    if is_ready(n, edges, order, v) {
        if counts[v as int] != 0 {
            let k = lemma_pending_witness(edges, removed, v, edges.len() as int);
            assert(placed_before(order, edges[k].0, order.len() as int));
        }
    }
}

/// Sorts the nodes `0..n` so that every edge leads forward: each place
/// takes the node of the smallest number among those whose sources are all
/// placed. `None` means that the graph has a cycle.
pub fn topological_order(n: usize, edges: &Vec<(usize, usize)>) -> (r: Option<Vec<usize>>)
    requires
        edges_within(n as nat, edges@),
    ensures
        match r {
            Some(order) => is_ready_first_order(n as nat, edges@, order@) && is_topological_order(
                n as nat,
                edges@,
                order@,
            ),
            None => !rankable(edges@),
        },
{
    let mut counts: Vec<usize> = Vec::new();
    let mut placed: Vec<bool> = Vec::new();
    let mut v: usize = 0;
    while v < n
        invariant
            v <= n,
            counts@.len() == v,
            placed@.len() == v,
            forall|u: int| 0 <= u < v ==> counts@[u] == 0,
            forall|u: int| 0 <= u < v ==> !placed@[u],
            placed_upto(placed@, v as int) == 0,
        decreases n - v,
    {
        let ghost before = placed@;
        counts.push(0);
        placed.push(false);
        proof {
            lemma_placed_same(before, placed@, v as int);
        }
        v = v + 1;
    }
    let ghost mut removed = Seq::new(edges@.len(), |k: int| false);
    let mut k: usize = 0;
    while k < edges.len()
        invariant
            k <= edges.len(),
            edges_within(n as nat, edges@),
            counts@.len() == n,
            removed == Seq::new(edges@.len(), |k: int| false),
            forall|u: usize|
                u < n ==> counts@[u as int] == pending_into(edges@, removed, u, k as int),
        decreases edges.len() - k,
    {
        let t = edges[k].1;
        proof {
            lemma_pending_bound(edges@, removed, t, k as int);
        }
        let bumped = counts[t] + 1;
        counts.set(t, bumped);
        k = k + 1;
    }
    let mut order: Vec<usize> = Vec::new();
    assert(sorting(n as nat, edges@, counts@, placed@, removed, order@));
    while order.len() < n
        invariant
            order@.len() <= n,
            sorting(n as nat, edges@, counts@, placed@, removed, order@),
            forall|k: int|
                0 <= k < edges@.len() ==> (#[trigger] removed[k] <==> placed@[edges@[k].0 as int]),
        decreases n - order@.len(),
    {
        let next = match first_ready(&placed, &counts) {
            Some(next) => next,
            None => {
                proof {
                    let left = lemma_unplaced_witness(placed@, n as int);
                    if rankable(edges@) {
                        let rank = choose|rank: spec_fn(usize) -> nat| ranks(edges@, rank);
                        lemma_rest_is_complete(
                            n as nat,
                            edges@,
                            counts@,
                            placed@,
                            removed,
                            order@,
                            rank,
                            left as usize,
                        );
                    }
                }
                return None;
            },
        };
        let ghost order0 = order@;
        let ghost placed0 = placed@;
        let ghost counts0 = counts@;
        let ghost removed0 = removed;
        proof {
            lemma_ready(n as nat, edges@, counts0, placed0, removed0, order0, next);
            assert forall|v: usize| is_ready(n as nat, edges@, order0, v) implies next <= v by {
                lemma_ready(n as nat, edges@, counts0, placed0, removed0, order0, v);
            }
            lemma_placed_update(placed0, next as int, n as int);
        }
        placed.set(next, true);
        order.push(next);
        proof {
            let j = order0.len() as int;
            assert(order@.take(j) =~= order0);
            assert forall|i: int| 0 <= i < order@.len() implies is_ready(
                n as nat,
                edges@,
                order@.take(i),
                #[trigger] order@[i],
            ) by {
                if i < j {
                    assert(order@.take(i) =~= order0.take(i));
                    assert(order@[i] == order0[i]);
                }
            }
            assert forall|i: int, v: usize|
                0 <= i < order@.len() && #[trigger] is_ready(
                    n as nat,
                    edges@,
                    order@.take(i),
                    v,
                ) implies order@[i] <= v by {
                if i < j {
                    assert(order@.take(i) =~= order0.take(i));
                    assert(order@[i] == order0[i]);
                }
            }
            assert forall|v: usize| v < n implies (placed@[v as int] <==> placed_before(
                order@,
                v,
                order@.len() as int,
            )) by {
                if placed_before(order0, v, order0.len() as int) {
                    let i = choose|i: int|
                        0 <= i < order0.len() && i < order0.len() && #[trigger] order0[i] == v;
                    assert(order@[i] == v);
                }
                if placed_before(order@, v, order@.len() as int) {
                    let i = choose|i: int|
                        0 <= i < order@.len() && i < order@.len() && #[trigger] order@[i] == v;
                    if i < j {
                        assert(order0[i] == v);
                    }
                }
                if v == next {
                    assert(order@[j] == v);
                }
            }
        }
        let mut k: usize = 0;
        while k < edges.len()
            invariant
                k <= edges.len(),
                next < n,
                order@.len() == order0.len() + 1,
                order@.len() <= n,
                placed0.len() == n,
                placed@ == placed0.update(next as int, true),
                !placed0[next as int],
                counts@[next as int] == 0,
                edges_within(n as nat, edges@),
                counts@.len() == n,
                placed@.len() == n,
                removed.len() == edges@.len(),
                forall|v: usize|
                    v < n ==> counts@[v as int] == pending_into(
                        edges@,
                        removed,
                        v,
                        edges@.len() as int,
                    ),
                forall|m: int|
                    0 <= m < edges@.len() ==> (#[trigger] removed[m] <==> (placed0[edges@[m].0
                        as int] || (edges@[m].0 == next && m < k))),
                forall|v: usize|
                    v < n ==> (placed@[v as int] <==> placed_before(
                        order@,
                        v,
                        order@.len() as int,
                    )),
                placed_upto(placed@, n as int) == order@.len(),
                forall|j: int|
                    0 <= j < order@.len() ==> is_ready(
                        n as nat,
                        edges@,
                        order@.take(j),
                        #[trigger] order@[j],
                    ),
                forall|j: int, v: usize|
                    0 <= j < order@.len() && #[trigger] is_ready(
                        n as nat,
                        edges@,
                        order@.take(j),
                        v,
                    ) ==> order@[j] <= v,
            decreases edges.len() - k,
        {
            if edges[k].0 == next {
                let t = edges[k].1;
                let ghost counts1 = counts@;
                let ghost removed1 = removed;
                proof {
                    assert(!removed1[k as int]);
                    lemma_pending_remove(edges@, removed1, k as int, t, edges@.len() as int);
                    assert(counts1[t as int] >= 1);
                }
                let lowered = counts[t] - 1;
                counts.set(t, lowered);
                proof {
                    removed = removed1.update(k as int, true);
                    assert forall|v: usize| v < n implies counts@[v as int] == pending_into(
                        edges@,
                        removed,
                        v,
                        edges@.len() as int,
                    ) by {
                        lemma_pending_remove(edges@, removed1, k as int, v, edges@.len() as int);
                    }
                }
            }
            k = k + 1;
        }
    }
    proof {
        lemma_ready_first_is_topological(n as nat, edges@, order@, placed@);
    }
    Some(order)
}

/// Counting the placed nodes of a prefix does not look beyond it.
proof fn lemma_placed_same(a: Seq<bool>, b: Seq<bool>, upto: int)
    requires
        0 <= upto <= a.len(),
        upto <= b.len(),
        forall|i: int| 0 <= i < upto ==> a[i] == b[i],
    ensures
        placed_upto(a, upto) == placed_upto(b, upto),
    decreases upto,
{
    if upto > 0 {
        lemma_placed_same(a, b, upto - 1);
    }
}

} // verus!
