//! Cycle detection over the relation graphs of a reactor declaration:
//! depth-first search that reports the first cycle it closes, or proves the
//! graph acyclic by exhibiting a ranking that every edge decreases.

use vstd::prelude::*;

use crate::reactor::{acyclic, edges_within, has_edge, is_cycle, ranks_down, Edge};

verus! {

proof fn lemma_rank_falls_along(edges: Seq<Edge>, nodes: Seq<usize>, rank: Seq<nat>, m: int)
    requires
        ranks_down(rank, rank.len(), edges),
        1 <= m < nodes.len(),
        forall|k: int| 0 <= k < nodes.len() - 1 ==> #[trigger] has_edge(edges, nodes[k], nodes[k + 1]),
    ensures
        rank[nodes[m] as int] < rank[nodes[0] as int],
    decreases m,
{
    let p = m - 1;
    assert(has_edge(edges, nodes[p], nodes[p + 1]));
    let e = choose|e: int|
        0 <= e < edges.len() && (#[trigger] edges[e]).from == nodes[p] && edges[e].to == nodes[p + 1];
    assert(rank[edges[e].to as int] < rank[edges[e].from as int]);
    if m > 1 {
        lemma_rank_falls_along(edges, nodes, rank, m - 1);
    }
}

/// A closed walk along the edges rules out every ranking that the edges
/// decrease: a graph with a cycle is not acyclic.
pub proof fn lemma_cycle_not_acyclic(n: nat, edges: Seq<Edge>, nodes: Seq<usize>)
    requires
        is_cycle(edges, nodes),
    ensures
        !acyclic(n, edges),
{
    if acyclic(n, edges) {
        let rank = choose|rank: Seq<nat>| #[trigger] ranks_down(rank, n, edges);
        lemma_rank_falls_along(edges, nodes, rank, nodes.len() - 1);
    }
}

/// The number of unvisited nodes.
pub open spec fn unvisited(s: Seq<u8>) -> nat
    decreases s.len(),
{
    if s.len() == 0 {
        0
    } else {
        unvisited(s.drop_last()) + if s.last() == 0 {
            1nat
        } else {
            0nat
        }
    }
}

/// Recoloring one node changes the unvisited count by what it removes
/// and adds.
pub proof fn lemma_unvisited_update(s: Seq<u8>, i: int, v: u8)
    requires
        0 <= i < s.len(),
    ensures
        unvisited(s.update(i, v)) + (if s[i] == 0 {
            1nat
        } else {
            0nat
        }) == unvisited(s) + (if v == 0 {
            1nat
        } else {
            0nat
        }),
    decreases s.len(),
{
    if i < s.len() - 1 {
        assert(s.update(i, v).drop_last() =~= s.drop_last().update(i, v));
        lemma_unvisited_update(s.drop_last(), i, v);
    } else {
        assert(s.update(i, v).drop_last() =~= s.drop_last());
    }
}

proof fn lemma_unvisited_positive(s: Seq<u8>, i: int)
    requires
        0 <= i < s.len(),
        s[i] == 0,
    ensures
        unvisited(s) >= 1,
    decreases s.len(),
{
    if i < s.len() - 1 {
        lemma_unvisited_positive(s.drop_last(), i);
    }
}

/// What a depth-first search step came to: the cycle it closed, or the
/// node colors once it finished without closing one.
pub enum Search {
    /// The cycle closed, first node repeated at the end.
    Found(Seq<usize>),
    /// The colors after the step.
    Done(Seq<u8>),
}

/// The first position at or after `i` where `x` occurs in `s`, or `-1`.
pub open spec fn first_pos(s: Seq<usize>, x: usize, i: int) -> int
    decreases s.len() - i,
{
    if i < 0 || i >= s.len() {
        -1
    } else if s[i] == x {
        i
    } else {
        first_pos(s, x, i + 1)
    }
}

/// Depth-first search from `node` over the adjacency lists `adj` (colors:
/// 0 unvisited, 1 on the stack, 2 finished). Reaching a node on the stack
/// closes the cycle from its first stack position; otherwise the node's
/// successors are searched in list order and the node is finished.
pub open spec fn dfs_from(adj: Seq<Seq<usize>>, state: Seq<u8>, stack: Seq<usize>, node: usize) -> Search
    decreases unvisited(state) as int, 0int, 0int,
{
    if node >= state.len() {
        Search::Done(state)
    } else if state[node as int] == 1 {
        let p = first_pos(stack, node, 0);
        if p < 0 {
            Search::Done(state)
        } else {
            Search::Found(stack.subrange(p, stack.len() as int).push(node))
        }
    } else if state[node as int] != 0 {
        Search::Done(state)
    } else {
        proof {
            lemma_unvisited_update(state, node as int, 1);
        }
        dfs_succ(adj, state.update(node as int, 1), stack.push(node), node, 0)
    }
}

/// The search of `node`'s successors from the `i`-th on, then `node`
/// finished.
pub open spec fn dfs_succ(adj: Seq<Seq<usize>>, state: Seq<u8>, stack: Seq<usize>, node: usize, i: int) -> Search
    decreases unvisited(state) as int, 1int, adj[node as int].len() - i,
{
    if i < 0 || i >= adj[node as int].len() {
        Search::Done(state.update(node as int, 2))
    } else {
        match dfs_from(adj, state, stack, adj[node as int][i]) {
            Search::Found(c) => Search::Found(c),
            Search::Done(s2) => if unvisited(s2) <= unvisited(state) {
                dfs_succ(adj, s2, stack, node, i + 1)
            } else {
                Search::Done(s2)
            },
        }
    }
}

/// The adjacency lists as plain sequences.
pub open spec fn adj_view(adj: Seq<Vec<usize>>) -> Seq<Seq<usize>> {
    adj.map_values(|v: Vec<usize>| v@)
}

/// The successors of `u`, in the order of the edges.
pub open spec fn succ_list(edges: Seq<Edge>, u: usize) -> Seq<usize>
    decreases edges.len(),
{
    if edges.len() == 0 {
        Seq::empty()
    } else {
        succ_list(edges.drop_last(), u) + if edges.last().from == u {
            seq![edges.last().to]
        } else {
            Seq::<usize>::empty()
        }
    }
}

/// The adjacency lists of nodes `0..n`, successors in edge order.
pub open spec fn adjacency(edges: Seq<Edge>, n: nat) -> Seq<Seq<usize>> {
    Seq::new(n, |u: int| succ_list(edges, u as usize))
}

/// The searches from start nodes `from..n` in index order, colors carried
/// from one to the next: the first cycle closed, if any.
pub open spec fn search_from(adj: Seq<Seq<usize>>, state: Seq<u8>, from: int, n: int) -> Option<Seq<usize>>
    decreases n - from,
{
    if from < 0 || from >= n {
        None
    } else {
        match dfs_from(adj, state, Seq::empty(), from as usize) {
            Search::Found(c) => Some(c),
            Search::Done(s) => search_from(adj, s, from + 1, n),
        }
    }
}

/// The first cycle that depth-first search closes over nodes `0..n`,
/// starting from each node in index order and following each node's edges
/// in the order given.
#[verifier::opaque]
pub open spec fn first_cycle(edges: Seq<Edge>, n: nat) -> Option<Seq<usize>> {
    search_from(adjacency(edges, n), Seq::new(n, |i: int| 0u8), 0, n as int)
}

/// The adjacency lists hold exactly the edges.
pub open spec fn adjacency_of(adj: Seq<Vec<usize>>, edges: Seq<Edge>, n: nat) -> bool {
    &&& adj.len() == n
    &&& forall|u: usize, v: usize|
        u < n ==> (#[trigger] adj[u as int]@.contains(v) <==> has_edge(edges, u, v))
    &&& forall|u: int, k: int| 0 <= u < n && 0 <= k < adj[u]@.len() ==> #[trigger] adj[u]@[k] < n
}

/// The search state is consistent: node colors, the stack as a path of
/// grey nodes, and finished nodes ranked above all their successors.
pub open spec fn dfs_inv(
    adj: Seq<Vec<usize>>,
    state: Seq<u8>,
    stack: Seq<usize>,
    finish: Seq<usize>,
    clock: usize,
) -> bool {
    let n = adj.len();
    &&& state.len() == n
    &&& finish.len() == n
    &&& forall|u: int, k: int| 0 <= u < n && 0 <= k < adj[u]@.len() ==> #[trigger] adj[u]@[k] < n
    &&& forall|u: int| 0 <= u < n ==> #[trigger] state[u] <= 2
    &&& forall|k: int| 0 <= k < stack.len() ==> #[trigger] stack[k] < n
    &&& forall|u: usize| u < n ==> (state[u as int] == 1 <==> #[trigger] stack.contains(u))
    &&& forall|k: int| 0 <= k < stack.len() - 1 ==> #[trigger] adj[stack[k] as int]@.contains(stack[k + 1])
    &&& forall|u: usize, v: usize|
        u < n && state[u as int] == 2 && #[trigger] adj[u as int]@.contains(v) ==> state[v as int]
            == 2 && finish[v as int] < finish[u as int]
    &&& forall|u: int| 0 <= u < n && state[u] == 2 ==> #[trigger] finish[u] <= clock
    &&& clock as int + unvisited(state) + stack.len() <= n
}

/// The closed walk follows adjacency lists.
pub open spec fn is_adj_cycle(adj: Seq<Vec<usize>>, nodes: Seq<usize>) -> bool {
    &&& nodes.len() >= 2
    &&& forall|k: int| 0 <= k < nodes.len() ==> #[trigger] nodes[k] < adj.len()
    &&& nodes[0] == nodes.last()
    &&& forall|k: int| 0 <= k < nodes.len() - 1 ==> #[trigger] adj[nodes[k] as int]@.contains(nodes[k + 1])
}

fn position_of(stack: &Vec<usize>, node: usize) -> (r: Option<usize>)
    ensures
        r matches Some(i) ==> i < stack@.len() && stack@[i as int] == node && i == first_pos(
            stack@,
            node,
            0,
        ),
        r is None ==> !stack@.contains(node),
{
    let mut i: usize = 0;
    while i < stack.len()
        invariant
            i <= stack@.len(),
            forall|k: int| 0 <= k < i ==> stack@[k] != node,
            first_pos(stack@, node, 0) == first_pos(stack@, node, i as int),
        decreases stack@.len() - i,
    {
        if stack[i] == node {
            return Some(i);
        }
        i = i + 1;
    }
    None
}

/// Depth-first search from `node`; `Some` is a cycle closed by reaching a
/// node still on the stack.
fn dfs_cycle(
    node: usize,
    adj: &Vec<Vec<usize>>,
    state: &mut Vec<u8>,
    stack: &mut Vec<usize>,
    finish: &mut Vec<usize>,
    clock: &mut usize,
) -> (r: Option<Vec<usize>>)
    requires
        node < adj@.len(),
        dfs_inv(adj@, old(state)@, old(stack)@, old(finish)@, *old(clock)),
        old(stack)@.len() > 0 ==> adj@[old(stack)@.last() as int]@.contains(node),
        old(state)@[node as int] == 0 ==> old(stack)@.len() < adj@.len(),
    ensures
        r matches Some(c) ==> is_adj_cycle(adj@, c@),
        match dfs_from(adj_view(adj@), old(state)@, old(stack)@, node) {
            Search::Found(c) => r matches Some(v) && v@ == c,
            Search::Done(s) => r is None && final(state)@ == s,
        },
        r is None ==> {
            &&& dfs_inv(adj@, final(state)@, final(stack)@, final(finish)@, *final(clock))
            &&& final(state)@[node as int] == 2
            &&& final(stack)@ == old(stack)@
            &&& forall|u: int|
                0 <= u < adj@.len() && old(state)@[u] == 2 ==> #[trigger] final(state)@[u] == 2
            &&& forall|u: int|
                0 <= u < adj@.len() && old(state)@[u] == 2 ==> #[trigger] final(finish)@[u]
                    == old(finish)@[u]
            &&& forall|u: int|
                0 <= u < adj@.len() && old(state)@[u] == 1 ==> #[trigger] final(state)@[u] == 1
            &&& unvisited(final(state)@) <= unvisited(old(state)@)
            &&& *old(clock) <= *final(clock)
        },
    decreases unvisited(old(state)@),
{
    let n_nodes = adj.len();
    let color = state[node];
    if color == 1 {
        assert(stack@.contains(node));
        let start = match position_of(stack, node) {
            Some(i) => i,
            None => {
                assert(false);
                return None;
            },
        };
        let mut cycle: Vec<usize> = Vec::new();
        let mut k = start;
        while k < stack.len()
            invariant
                start <= k <= stack@.len(),
                start < stack@.len(),
                stack@[start as int] == node,
                cycle@ == stack@.subrange(start as int, k as int),
            decreases stack@.len() - k,
        {
            cycle.push(stack[k]);
            assert(cycle@ =~= stack@.subrange(start as int, k + 1));
            k = k + 1;
        }
        cycle.push(node);
        proof {
            let c = cycle@;
            assert(c.len() >= 2);
            assert forall|k: int| 0 <= k < c.len() implies #[trigger] c[k] < adj@.len() by {
                if k < c.len() - 1 {
                    assert(c[k] == stack@[start + k]);
                }
            }
            assert forall|k: int| 0 <= k < c.len() - 1 implies #[trigger] adj@[c[k] as int]@.contains(
                c[k + 1],
            ) by {
                if k < c.len() - 2 {
                    assert(c[k] == stack@[start + k]);
                    assert(c[k + 1] == stack@[start + k + 1]);
                } else {
                    assert(c[k] == stack@.last());
                }
            }
        }
        return Some(cycle);
    }
    if color == 2 {
        return None;
    }
    proof {
        lemma_unvisited_update(state@, node as int, 1);
    }
    state.set(node, 1);
    let ghost entry_zeros = unvisited(state@);
    stack.push(node);
    let ghost stack1 = stack@;
    proof {
        assert forall|u: usize| u < adj@.len() implies (state@[u as int] == 1 <==> #[trigger] stack@.contains(u)) by {
            if u == node {
                assert(stack@[stack@.len() - 1] == node);
            } else {
                if stack@.contains(u) {
                    let k = choose|k: int| 0 <= k < stack@.len() && stack@[k] == u;
                    assert(k < old(stack)@.len());
                    assert(old(stack)@[k] == u);
                    assert(old(stack)@.contains(u));
                }
                if old(stack)@.contains(u) {
                    let k = choose|k: int| 0 <= k < old(stack)@.len() && old(stack)@[k] == u;
                    assert(stack@[k] == u);
                }
            }
        }
        assert forall|k: int| 0 <= k < stack@.len() - 1 implies #[trigger] adj@[stack@[k] as int]@.contains(
            stack@[k + 1],
        ) by {
            if k < old(stack)@.len() - 1 {
                assert(stack@[k] == old(stack)@[k]);
                assert(stack@[k + 1] == old(stack)@[k + 1]);
            }
        }
    }
    let succ = &adj[node];
    let mut i: usize = 0;
    while i < succ.len()
        invariant
            node < adj@.len(),
            *succ == adj@[node as int],
            i <= succ@.len(),
            dfs_inv(adj@, state@, stack@, finish@, *clock),
            stack@ == stack1,
            stack1 == old(stack)@.push(node),
            state@[node as int] == 1,
            unvisited(state@) <= entry_zeros,
            entry_zeros < unvisited(old(state)@),
            forall|k: int| 0 <= k < i ==> state@[succ@[k] as int] == 2,
            forall|u: int|
                0 <= u < adj@.len() && old(state)@[u] == 2 ==> #[trigger] state@[u] == 2,
            forall|u: int|
                0 <= u < adj@.len() && old(state)@[u] == 2 ==> #[trigger] finish@[u]
                    == old(finish)@[u],
            forall|u: int| 0 <= u < adj@.len() && old(state)@[u] == 1 ==> #[trigger] state@[u] == 1,
            *old(clock) <= *clock,
            dfs_from(adj_view(adj@), old(state)@, old(stack)@, node) == dfs_succ(
                adj_view(adj@),
                state@,
                stack1,
                node,
                i as int,
            ),
        decreases succ@.len() - i,
    {
        let next = succ[i];
        assert(adj@[node as int]@[i as int] == next);
        assert(adj@[node as int]@.contains(next));
        assert(next < adj@.len());
        assert(stack@.last() == node);
        proof {
            if state@[next as int] == 0 {
                lemma_unvisited_positive(state@, next as int);
            }
        }
        let ghost before = state@;
        let found = dfs_cycle(next, adj, state, stack, finish, clock);
        proof {
            assert(adj_view(adj@)[node as int] == adj@[node as int]@);
        }
        match found {
            Some(c) => {
                return Some(c);
            },
            None => {},
        }
        i = i + 1;
    }
    let popped = stack.pop();
    proof {
        assert(stack@ =~= old(stack)@);
        lemma_unvisited_update(state@, node as int, 2);
    }
    state.set(node, 2);
    assert(*clock + 1 <= n_nodes);
    *clock = *clock + 1;
    finish.set(node, *clock);
    proof {
        assert forall|u: usize| u < adj@.len() implies (state@[u as int] == 1 <==> #[trigger] stack@.contains(u)) by {
            if u == node {
                if stack@.contains(u) {
                    let k = choose|k: int| 0 <= k < stack@.len() && stack@[k] == u;
                    assert(stack1[k] == u);
                }
            } else {
                if stack1.contains(u) {
                    let k = choose|k: int| 0 <= k < stack1.len() && stack1[k] == u;
                    if k < stack@.len() {
                        assert(stack@[k] == u);
                    }
                }
                if stack@.contains(u) {
                    let k = choose|k: int| 0 <= k < stack@.len() && stack@[k] == u;
                    assert(stack1[k] == u);
                }
            }
        }
    }
    None
}

/// The first cycle the search closes, visiting start nodes in index order.
pub fn find_cycle(n: usize, edges: &Vec<Edge>) -> (r: Option<Vec<usize>>)
    requires
        edges_within(edges@, n as nat),
    ensures
        r matches Some(c) ==> is_cycle(edges@, c@),
        r is None ==> acyclic(n as nat, edges@),
        match first_cycle(edges@, n as nat) {
            Some(c) => r matches Some(v) && v@ == c,
            None => r is None,
        },
{
    let mut adj: Vec<Vec<usize>> = Vec::new();
    let mut u: usize = 0;
    while u < n
        invariant
            u <= n,
            adj@.len() == u,
            edges_within(edges@, n as nat),
            forall|w: int, v: usize|
                0 <= w < u ==> (#[trigger] adj@[w]@.contains(v) <==> has_edge(edges@, w as usize, v)),
            forall|w: int, k: int| 0 <= w < u && 0 <= k < adj@[w]@.len() ==> #[trigger] adj@[w]@[k] < n,
            forall|w: int| 0 <= w < u ==> #[trigger] adj@[w]@ == succ_list(edges@, w as usize),
        decreases n - u,
    {
        let mut list: Vec<usize> = Vec::new();
        let mut e: usize = 0;
        while e < edges.len()
            invariant
                e <= edges@.len(),
                u < n,
                edges_within(edges@, n as nat),
                forall|v: usize|
                    #[trigger] list@.contains(v) <==> exists|k: int|
                        0 <= k < e && (#[trigger] edges@[k]).from == u && edges@[k].to == v,
                forall|k: int| 0 <= k < list@.len() ==> #[trigger] list@[k] < n,
                list@ == succ_list(edges@.take(e as int), u),
            decreases edges@.len() - e,
        {
            proof {
                assert(edges@.take(e + 1).drop_last() =~= edges@.take(e as int));
            }
            if edges[e].from == u {
                let ghost before = list@;
                list.push(edges[e].to);
                proof {
                    assert forall|v: usize| #[trigger] list@.contains(v) <==> exists|k: int|
                        0 <= k < e + 1 && (#[trigger] edges@[k]).from == u && edges@[k].to == v by {
                        if list@.contains(v) {
                            let i = choose|i: int| 0 <= i < list@.len() && list@[i] == v;
                            if i < before.len() {
                                assert(before.contains(v));
                            } else {
                                assert(edges@[e as int].to == v);
                            }
                        }
                        if exists|k: int| 0 <= k < e + 1 && (#[trigger] edges@[k]).from == u && edges@[k].to == v {
                            let k = choose|k: int| 0 <= k < e + 1 && (#[trigger] edges@[k]).from == u && edges@[k].to == v;
                            if k < e {
                                assert(before.contains(v));
                                let i = choose|i: int| 0 <= i < before.len() && before[i] == v;
                                assert(list@[i] == v);
                            } else {
                                assert(list@[list@.len() - 1] == v);
                            }
                        }
                    }
                }
            } else {
                proof {
                    assert forall|v: usize| #[trigger] list@.contains(v) <==> exists|k: int|
                        0 <= k < e + 1 && (#[trigger] edges@[k]).from == u && edges@[k].to == v by {
                        if exists|k: int| 0 <= k < e + 1 && (#[trigger] edges@[k]).from == u && edges@[k].to == v {
                            let k = choose|k: int| 0 <= k < e + 1 && (#[trigger] edges@[k]).from == u && edges@[k].to == v;
                            assert(k < e);
                        }
                    }
                }
            }
            e = e + 1;
        }
        proof {
            assert(edges@.take(edges@.len() as int) =~= edges@);
        }
        adj.push(list);
        proof {
            assert forall|w: int, v: usize|
                0 <= w < u + 1 implies (#[trigger] adj@[w]@.contains(v) <==> has_edge(edges@, w as usize, v)) by {
                if w == u {
                    assert(adj@[w] == list);
                    if has_edge(edges@, w as usize, v) {
                        let k = choose|k: int| 0 <= k < edges@.len() && (#[trigger] edges@[k]).from == w as usize && edges@[k].to == v;
                        assert(0 <= k < e);
                    }
                }
            }
        }
        u = u + 1;
    }
    let mut state: Vec<u8> = Vec::new();
    let mut finish: Vec<usize> = Vec::new();
    let mut k: usize = 0;
    while k < n
        invariant
            k <= n,
            state@.len() == k,
            finish@.len() == k,
            forall|w: int| 0 <= w < k ==> #[trigger] state@[w] == 0,
            unvisited(state@) == k,
        decreases n - k,
    {
        let ghost before = state@;
        state.push(0);
        assert(state@.drop_last() =~= before);
        finish.push(0);
        k = k + 1;
    }
    let mut stack: Vec<usize> = Vec::new();
    let mut clock: usize = 0;
    let mut node: usize = 0;
    proof {
        assert(state@ =~= Seq::new(n as nat, |i: int| 0u8));
        assert(adj_view(adj@) =~= adjacency(edges@, n as nat));
        reveal(first_cycle);
    }
    while node < n
        invariant
            node <= n,
            adj@.len() == n,
            adjacency_of(adj@, edges@, n as nat),
            dfs_inv(adj@, state@, stack@, finish@, clock),
            stack@.len() == 0,
            forall|w: int| 0 <= w < node ==> #[trigger] state@[w] == 2,
            adj_view(adj@) == adjacency(edges@, n as nat),
            first_cycle(edges@, n as nat) == search_from(
                adjacency(edges@, n as nat),
                state@,
                node as int,
                n as int,
            ),
        decreases n - node,
    {
        proof {
            assert(stack@ =~= Seq::<usize>::empty());
        }
        match dfs_cycle(node, &adj, &mut state, &mut stack, &mut finish, &mut clock) {
            Some(c) => {
                proof {
                    assert forall|k: int| 0 <= k < c@.len() - 1 implies #[trigger] has_edge(
                        edges@,
                        c@[k],
                        c@[k + 1],
                    ) by {
                        assert(adj@[c@[k] as int]@.contains(c@[k + 1]));
                    }
                }
                return Some(c);
            },
            None => {},
        }
        node = node + 1;
    }
    proof {
        let rank = Seq::new(n as nat, |w: int| finish@[w] as nat);
        assert(forall|w: int| 0 <= w < n ==> #[trigger] state@[w] == 2);
        assert forall|k: int| 0 <= k < edges@.len() implies #[trigger] rank[edges@[k].to as int]
            < rank[edges@[k].from as int] by {
            let a = edges@[k].from;
            let b = edges@[k].to;
            assert(has_edge(edges@, a, b));
            assert(adj@[a as int]@.contains(b));
            assert(state@[a as int] == 2);
        }
        assert(ranks_down(rank, n as nat, edges@));
    }
    None
}

} // verus!
