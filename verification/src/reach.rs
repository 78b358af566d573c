//! Reachability over a directed edge list.
//!
//! Both node graphs of the app (the editor graph and the engine graph) answer
//! questions of the form "which nodes can be reached from this one by
//! following connections". This module holds the mathematical definition of
//! reachability, a verified closure that computes it, and the exact
//! breadth-first and depth-first visit orders.
use vstd::prelude::*;

verus! {

/// There is a directed edge from `a` to `b`.
pub open spec fn has_edge(edges: Seq<(u64, u64)>, a: u64, b: u64) -> bool {
    edges.contains((a, b))
}

/// `p` is a non-empty walk along `edges`.
pub open spec fn is_path(edges: Seq<(u64, u64)>, p: Seq<u64>) -> bool {
    &&& p.len() >= 1
    &&& forall|i: int| 0 <= i < p.len() - 1 ==> #[trigger] has_edge(edges, p[i], p[i + 1])
}

/// `b` can be reached from `a` by following zero or more edges.
pub open spec fn reachable(edges: Seq<(u64, u64)>, a: u64, b: u64) -> bool {
    exists|p: Seq<u64>| #[trigger] is_path(edges, p) && p[0] == a && p.last() == b
}

/// Every node reaches itself.
pub proof fn lemma_reachable_refl(edges: Seq<(u64, u64)>, a: u64)
    ensures
        reachable(edges, a, a),
{
    let p = seq![a];
    assert(is_path(edges, p));
}

/// A reachable node followed by one edge is reachable.
pub proof fn lemma_reachable_step(edges: Seq<(u64, u64)>, a: u64, b: u64, c: u64)
    requires
        reachable(edges, a, b),
        has_edge(edges, b, c),
    ensures
        reachable(edges, a, c),
{
    let p = choose|p: Seq<u64>| #[trigger] is_path(edges, p) && p[0] == a && p.last() == b;
    let q = p.push(c);
    assert forall|i: int| 0 <= i < q.len() - 1 implies #[trigger] has_edge(edges, q[i], q[i + 1]) by {
        if i < p.len() - 1 {
            assert(q[i] == p[i] && q[i + 1] == p[i + 1]);
            assert(has_edge(edges, p[i], p[i + 1]));
        }
    }
    assert(is_path(edges, q));
}

/// A set that contains the start of a path and is closed under edges contains
/// the end of the path.
pub proof fn lemma_closed_contains_path_end(edges: Seq<(u64, u64)>, s: Set<u64>, p: Seq<u64>)
    requires
        is_path(edges, p),
        s.contains(p[0]),
        forall|x: u64, y: u64| s.contains(x) && #[trigger] has_edge(edges, x, y) ==> s.contains(y),
    ensures
        s.contains(p.last()),
    decreases p.len(),
{
    if p.len() > 1 {
        let q = p.drop_last();
        assert forall|i: int| 0 <= i < q.len() - 1 implies #[trigger] has_edge(edges, q[i], q[i + 1]) by {
            assert(has_edge(edges, p[i], p[i + 1]));
        }
        lemma_closed_contains_path_end(edges, s, q);
        let i = p.len() - 2;
        assert(has_edge(edges, p[i], p[i + 1]));
    }
}

/// A set closed under edges contains everything reachable from its members.
pub proof fn lemma_closed_contains_reachable(edges: Seq<(u64, u64)>, s: Set<u64>, a: u64, b: u64)
    requires
        s.contains(a),
        reachable(edges, a, b),
        forall|x: u64, y: u64| s.contains(x) && #[trigger] has_edge(edges, x, y) ==> s.contains(y),
    ensures
        s.contains(b),
{
    let p = choose|p: Seq<u64>| #[trigger] is_path(edges, p) && p[0] == a && p.last() == b;
    lemma_closed_contains_path_end(edges, s, p);
}

/// Reachability is transitive.
pub proof fn lemma_reachable_trans(edges: Seq<(u64, u64)>, a: u64, b: u64, c: u64)
    requires
        reachable(edges, a, b),
        reachable(edges, b, c),
    ensures
        reachable(edges, a, c),
{
    let s = Set::new(|y: u64| reachable(edges, a, y));
    assert forall|x: u64, y: u64| s.contains(x) && #[trigger] has_edge(edges, x, y) implies s.contains(y) by {
        lemma_reachable_step(edges, a, x, y);
    }
    lemma_closed_contains_reachable(edges, s, b, c);
}

/// A duplicate-free sequence whose items all occur in `u` is no longer than `u`.
pub proof fn lemma_unique_within_len(a: Seq<u64>, u: Seq<u64>)
    requires
        a.no_duplicates(),
        forall|x: u64| a.contains(x) ==> u.contains(x),
    ensures
        a.len() <= u.len(),
{
    a.unique_seq_to_set();
    u.lemma_cardinality_of_set();
    assert(a.to_set().subset_of(u.to_set()));
    vstd::set_lib::lemma_len_subset(a.to_set(), u.to_set());
}

/// The start node followed by every edge target: all nodes a walk can visit.
pub open spec fn walk_universe(edges: Seq<(u64, u64)>, start: u64) -> Seq<u64> {
    seq![start] + edges.map_values(|e: (u64, u64)| e.1)
}

/// The edge leaves `v`.
pub open spec fn leaves(v: u64) -> spec_fn((u64, u64)) -> bool {
    |e: (u64, u64)| e.0 == v
}

/// The targets of a list of edges.
pub open spec fn targets(edges: Seq<(u64, u64)>) -> Seq<u64> {
    edges.map_values(|e: (u64, u64)| e.1)
}

/// The targets of the edges leaving `v`, in edge order.
pub open spec fn succ(edges: Seq<(u64, u64)>, v: u64) -> Seq<u64> {
    targets(edges.filter(leaves(v)))
}

/// A breadth-first walk's state is sound: the visited nodes are distinct,
/// and visited and queued nodes are nodes a walk from `start` can visit.
pub open spec fn bfs_state_ok(edges: Seq<(u64, u64)>, start: u64, queue: Seq<u64>, visited: Seq<u64>) -> bool {
    &&& visited.no_duplicates()
    &&& forall|x: u64| #[trigger] visited.contains(x) ==> walk_universe(edges, start).contains(x)
    &&& forall|j: int| 0 <= j < queue.len() ==> walk_universe(edges, start).contains(#[trigger] queue[j])
}

/// The nodes a breadth-first walk visits, in order, once it has taken
/// `head` nodes off `queue` and visited `visited`: each node taken off the
/// queue is visited unless it already was, and then queues the targets of
/// its edges, in edge order.
pub open spec fn bfs_run(edges: Seq<(u64, u64)>, start: u64, queue: Seq<u64>, head: int, visited: Seq<u64>) -> Seq<u64>
    decreases walk_universe(edges, start).len() - visited.len(), queue.len() - head
        when bfs_state_ok(edges, start, queue, visited) && 0 <= head
        via bfs_run_decreases
{
    if head >= queue.len() {
        visited
    } else {
        let v = queue[head];
        if visited.contains(v) {
            bfs_run(edges, start, queue, head + 1, visited)
        } else {
            bfs_run(edges, start, queue + succ(edges, v), head + 1, visited.push(v))
        }
    }
}

/// A node taken off the queue and not yet visited leaves room to visit it:
/// fewer nodes are visited than a walk could visit.
proof fn lemma_bfs_room(edges: Seq<(u64, u64)>, start: u64, queue: Seq<u64>, head: int, visited: Seq<u64>)
    requires
        bfs_state_ok(edges, start, queue, visited),
        0 <= head < queue.len(),
        !visited.contains(queue[head]),
    ensures
        visited.len() + 1 <= walk_universe(edges, start).len(),
{
    let v = queue[head];
    let u = walk_universe(edges, start);
    let w = visited.push(v);
    assert forall|x: u64| w.contains(x) implies u.contains(x) by {
        if x != v {
            let i = choose|i: int| 0 <= i < w.len() && w[i] == x;
            assert(visited[i] == x);
            assert(visited.contains(x));
        }
    }
    assert(w.no_duplicates()) by {
        assert forall|i: int, j: int| 0 <= i < w.len() && 0 <= j < w.len() && i != j implies w[i] != w[j] by {
            if i == visited.len() {
                assert(visited.contains(w[j]));
            } else if j == visited.len() {
                assert(visited.contains(w[i]));
            }
        }
    }
    lemma_unique_within_len(w, u);
}

/// A step that visits a new node keeps the walk's state sound.
proof fn lemma_bfs_step_ok(edges: Seq<(u64, u64)>, start: u64, queue: Seq<u64>, head: int, visited: Seq<u64>)
    requires
        bfs_state_ok(edges, start, queue, visited),
        0 <= head < queue.len(),
        !visited.contains(queue[head]),
    ensures
        bfs_state_ok(edges, start, queue + succ(edges, queue[head]), visited.push(queue[head])),
{
    broadcast use vstd::seq_lib::group_filter_ensures;

    let v = queue[head];
    let u = walk_universe(edges, start);
    let w = visited.push(v);
    let q2 = queue + succ(edges, v);
    let f = edges.filter(leaves(v));
    assert forall|x: u64| #[trigger] w.contains(x) implies u.contains(x) by {
        if x != v {
            let i = choose|i: int| 0 <= i < w.len() && w[i] == x;
            assert(visited[i] == x);
            assert(visited.contains(x));
        }
    }
    assert(w.no_duplicates()) by {
        assert forall|i: int, j: int| 0 <= i < w.len() && 0 <= j < w.len() && i != j implies w[i] != w[j] by {
            if i == visited.len() {
                assert(visited.contains(w[j]));
            } else if j == visited.len() {
                assert(visited.contains(w[i]));
            }
        }
    }
    assert forall|j: int| 0 <= j < q2.len() implies u.contains(#[trigger] q2[j]) by {
        if j >= queue.len() {
            let t = j - queue.len();
            assert(q2[j] == f[t].1);
            assert(f.contains(f[t]));
            edges.lemma_filter_contains_rev(leaves(v), f[t]);
            let k = choose|k: int| 0 <= k < edges.len() && edges[k] == f[t];
            assert(u[k + 1] == edges[k].1);
        }
    }
}

/// Each step of [bfs_run] takes a node off the queue, and a step that
/// visits a new node leaves fewer nodes unvisited.
#[via_fn]
proof fn bfs_run_decreases(edges: Seq<(u64, u64)>, start: u64, queue: Seq<u64>, head: int, visited: Seq<u64>) {
    if bfs_state_ok(edges, start, queue, visited) && 0 <= head && head < queue.len() && !visited.contains(queue[head]) {
        lemma_bfs_room(edges, start, queue, head, visited);
    }
}

/// The breadth-first order of the nodes reachable from `start`.
pub open spec fn bfs_order(edges: Seq<(u64, u64)>, start: u64) -> Seq<u64> {
    bfs_run(edges, start, seq![start], 0, Seq::empty())
}

/// The nodes a depth-first walk visits, in order, once its stack is
/// `stack` and it has visited `visited`: the node on top of the stack is
/// taken off and visited unless it already was, and then the targets of its
/// edges are stacked so that the first edge's target comes off first.
pub open spec fn dfs_run(edges: Seq<(u64, u64)>, start: u64, stack: Seq<u64>, visited: Seq<u64>) -> Seq<u64>
    decreases walk_universe(edges, start).len() - visited.len(), stack.len()
        when bfs_state_ok(edges, start, stack, visited)
        via dfs_run_decreases
{
    if stack.len() == 0 {
        visited
    } else {
        let v = stack.last();
        if visited.contains(v) {
            dfs_run(edges, start, stack.drop_last(), visited)
        } else {
            dfs_run(edges, start, stack.drop_last() + succ(edges, v).reverse(), visited.push(v))
        }
    }
}

/// Each step of [dfs_run] takes a node off the stack, and a step that
/// visits a new node leaves fewer nodes unvisited.
#[via_fn]
proof fn dfs_run_decreases(edges: Seq<(u64, u64)>, start: u64, stack: Seq<u64>, visited: Seq<u64>) {
    if bfs_state_ok(edges, start, stack, visited) && stack.len() > 0 && !visited.contains(stack.last()) {
        lemma_bfs_room(edges, start, stack, stack.len() - 1, visited);
    }
}

/// A depth-first step that visits a new node keeps the walk's state sound.
proof fn lemma_dfs_step_ok(edges: Seq<(u64, u64)>, start: u64, stack: Seq<u64>, visited: Seq<u64>)
    requires
        bfs_state_ok(edges, start, stack, visited),
        stack.len() > 0,
        !visited.contains(stack.last()),
    ensures
        bfs_state_ok(edges, start, stack.drop_last() + succ(edges, stack.last()).reverse(), visited.push(stack.last())),
{
    let v = stack.last();
    let n = stack.len() - 1;
    lemma_bfs_step_ok(edges, start, stack, n, visited);
    let q2 = stack + succ(edges, v);
    let kids = succ(edges, v);
    let s2 = stack.drop_last() + kids.reverse();
    let u = walk_universe(edges, start);
    assert forall|j: int| 0 <= j < s2.len() implies u.contains(#[trigger] s2[j]) by {
        if j < n {
            assert(s2[j] == q2[j]);
        } else {
            let t = j - n;
            assert(s2[j] == kids[kids.len() - 1 - t]);
            assert(q2[stack.len() + kids.len() - 1 - t] == kids[kids.len() - 1 - t]);
        }
    }
}

/// The depth-first order of the nodes reachable from `start`.
pub open spec fn dfs_order(edges: Seq<(u64, u64)>, start: u64) -> Seq<u64> {
    dfs_run(edges, start, seq![start], Seq::empty())
}

/// Whether `v` occurs in `items` (a linear scan).
pub fn contains_id(items: &Vec<u64>, v: u64) -> (r: bool)
    ensures
        r == items@.contains(v),
{
    let mut i: usize = 0;
    while i < items.len()
        invariant
            i <= items.len(),
            forall|j: int| 0 <= j < i ==> items@[j] != v,
        decreases items.len() - i,
    {
        if items[i] == v {
            return true;
        }
        i = i + 1;
    }
    false
}

/// Every node reachable from `start` along `edges`, without duplicates.
///
/// The walk is a depth-first search with an explicit stack: a popped node that
/// was already visited is skipped, otherwise it is marked and every target of
/// an edge leaving it is pushed.
pub fn reachable_from(edges: &Vec<(u64, u64)>, start: u64) -> (r: Vec<u64>)
    ensures
        r@.no_duplicates(),
        r@.contains(start),
        r@[0] == start,
        forall|v: u64| r@.contains(v) <==> reachable(edges@, start, v),
{
    let ghost es = edges@;
    let ghost u = walk_universe(es, start);
    let mut visited: Vec<u64> = Vec::new();
    let mut stack: Vec<u64> = Vec::new();
    stack.push(start);
    proof {
        lemma_reachable_refl(es, start);
        assert(u[0] == start);
    }
    while stack.len() > 0
        invariant
            es == edges@,
            u == walk_universe(es, start),
            visited@.no_duplicates(),
            visited@.contains(start) || stack@.contains(start),
            visited@.len() == 0 ==> stack@ == seq![start],
            visited@.len() > 0 ==> visited@[0] == start,
            forall|x: u64| #[trigger] visited@.contains(x) ==> reachable(es, start, x),
            forall|x: u64| #[trigger] stack@.contains(x) ==> reachable(es, start, x),
            forall|x: u64| #[trigger] visited@.contains(x) ==> u.contains(x),
            forall|x: u64| #[trigger] stack@.contains(x) ==> u.contains(x),
            forall|x: u64, y: u64|
                visited@.contains(x) && #[trigger] has_edge(es, x, y) ==> visited@.contains(y)
                    || stack@.contains(y),
        decreases u.len() - visited@.len(), stack@.len(),
    {
        proof {
            lemma_unique_within_len(visited@, u);
        }
        let ghost full = stack@;
        let v = stack.pop().unwrap();
        assert(full == stack@.push(v));
        assert(full.contains(v)) by {
            assert(full[full.len() - 1] == v);
        }
        assert forall|y: u64| #[trigger] stack@.contains(y) implies full.contains(y) by {
            let idx = choose|idx: int| 0 <= idx < stack@.len() && stack@[idx] == y;
            assert(full[idx] == y);
        }
        assert forall|y: u64| #[trigger] full.contains(y) && y != v implies stack@.contains(y) by {
            let idx = choose|idx: int| 0 <= idx < full.len() && full[idx] == y;
            assert(stack@[idx] == y);
        }
        if contains_id(&visited, v) {
            assert(visited@.contains(start) || stack@.contains(start));
        } else {
            let ghost before = visited@;
            proof {
                if before.len() == 0 {
                    assert(full == seq![start]);
                    assert(v == full[0]);
                }
            }
            visited.push(v);
            assert(visited@ == before.push(v));
            assert(visited@[0] == start);
            assert(visited@[visited@.len() - 1] == v);
            assert(visited@.no_duplicates()) by {
                assert forall|i: int, j: int|
                    0 <= i < visited@.len() && 0 <= j < visited@.len() && i != j implies visited@[i]
                    != visited@[j] by {
                    if i == before.len() as int {
                        assert(before.contains(visited@[j]));
                    } else if j == before.len() as int {
                        assert(before.contains(visited@[i]));
                    }
                }
            }
            let mut k: usize = 0;
            while k < edges.len()
                invariant
                    es == edges@,
                    u == walk_universe(es, start),
                    0 <= k <= edges.len(),
                    visited@.contains(v),
                    visited@.len() > 0 && visited@[0] == start,
                    reachable(es, start, v),
                    forall|x: u64| #[trigger] stack@.contains(x) ==> reachable(es, start, x),
                    forall|x: u64| #[trigger] stack@.contains(x) ==> u.contains(x),
                    forall|j: int|
                        0 <= j < k && (#[trigger] es[j]).0 == v ==> stack@.contains(es[j].1),
                    forall|x: u64| full.contains(x) && x != v ==> #[trigger] stack@.contains(x),
                decreases edges.len() - k,
            {
                let e = edges[k];
                if e.0 == v {
                    let ghost sb = stack@;
                    stack.push(e.1);
                    proof {
                        assert(es[k as int] == e);
                        assert(has_edge(es, v, e.1));
                        lemma_reachable_step(es, start, v, e.1);
                        let m = es.map_values(|e: (u64, u64)| e.1);
                        assert(m[k as int] == e.1);
                        assert(u[k + 1] == e.1);
                        assert forall|x: u64| #[trigger] stack@.contains(x) implies reachable(
                            es,
                            start,
                            x,
                        ) && u.contains(x) by {
                            if x != e.1 {
                                let idx = choose|idx: int| 0 <= idx < stack@.len() && stack@[idx] == x;
                                assert(sb[idx] == x);
                                assert(sb.contains(x));
                            }
                        }
                        assert forall|x: u64| full.contains(x) && x != v implies #[trigger] stack@.contains(
                            x,
                        ) by {
                            assert(sb.contains(x));
                            let idx = choose|idx: int| 0 <= idx < sb.len() && sb[idx] == x;
                            assert(stack@[idx] == x);
                        }
                        assert forall|j: int| 0 <= j < k + 1 && (#[trigger] es[j]).0 == v implies stack@.contains(
                            es[j].1,
                        ) by {
                            if j < k {
                                assert(sb.contains(es[j].1));
                                let idx = choose|idx: int| 0 <= idx < sb.len() && sb[idx] == es[j].1;
                                assert(stack@[idx] == es[j].1);
                            } else {
                                assert(stack@[stack@.len() - 1] == e.1);
                            }
                        }
                    }
                }
                k = k + 1;
            }
            proof {
                assert forall|x: u64, y: u64|
                    visited@.contains(x) && #[trigger] has_edge(es, x, y) implies visited@.contains(y)
                    || stack@.contains(y) by {
                    if x == v {
                        let j = choose|j: int| 0 <= j < es.len() && es[j] == (x, y);
                        assert(es[j].0 == v);
                    } else {
                        let ix = choose|ix: int| 0 <= ix < visited@.len() && visited@[ix] == x;
                        assert(before[ix] == x);
                        assert(before.contains(x));
                        if before.contains(y) {
                            let iy = choose|iy: int| 0 <= iy < before.len() && before[iy] == y;
                            assert(visited@[iy] == y);
                        } else if y == v {
                        } else {
                            assert(full.contains(y));
                        }
                    }
                }
                assert(u.contains(v));
                assert forall|x: u64| #[trigger] visited@.contains(x) implies reachable(es, start, x)
                    && u.contains(x) by {
                    if x != v {
                        let ix = choose|ix: int| 0 <= ix < visited@.len() && visited@[ix] == x;
                        assert(before[ix] == x);
                        assert(before.contains(x));
                    }
                }
                lemma_unique_within_len(visited@, u);
                if before.contains(start) {
                    let is = choose|is: int| 0 <= is < before.len() && before[is] == start;
                    assert(visited@[is] == start);
                }
            }
        }
    }
    proof {
        assert forall|x: u64| reachable(es, start, x) implies visited@.contains(x) by {
            lemma_closed_contains_reachable(es, visited@.to_set(), start, x);
        }
    }
    visited
}

/// `p` is a non-empty walk along a relation.
pub open spec fn is_rel_path(rel: spec_fn(u64, u64) -> bool, p: Seq<u64>) -> bool {
    &&& p.len() >= 1
    &&& forall|i: int| 0 <= i < p.len() - 1 ==> #[trigger] rel(p[i], p[i + 1])
}

/// `b` can be reached from `a` by following the relation zero or more times.
pub open spec fn rel_reachable(rel: spec_fn(u64, u64) -> bool, a: u64, b: u64) -> bool {
    exists|p: Seq<u64>| #[trigger] is_rel_path(rel, p) && p[0] == a && p.last() == b
}

/// Reachability along an edge list only depends on which edges it holds.
pub proof fn lemma_reachable_rel(edges: Seq<(u64, u64)>, rel: spec_fn(u64, u64) -> bool, a: u64, b: u64)
    requires
        forall|x: u64, y: u64| #[trigger] has_edge(edges, x, y) <==> rel(x, y),
    ensures
        reachable(edges, a, b) <==> rel_reachable(rel, a, b),
{
    if reachable(edges, a, b) {
        let p = choose|p: Seq<u64>| #[trigger] is_path(edges, p) && p[0] == a && p.last() == b;
        assert forall|i: int| 0 <= i < p.len() - 1 implies #[trigger] rel(p[i], p[i + 1]) by {
            assert(has_edge(edges, p[i], p[i + 1]));
        }
        assert(is_rel_path(rel, p));
    }
    if rel_reachable(rel, a, b) {
        let p = choose|p: Seq<u64>| #[trigger] is_rel_path(rel, p) && p[0] == a && p.last() == b;
        assert forall|i: int| 0 <= i < p.len() - 1 implies #[trigger] has_edge(edges, p[i], p[i + 1]) by {
            assert(rel(p[i], p[i + 1]));
        }
        assert(is_path(edges, p));
    }
}

/// Every node reachable from `start` along `edges`, without duplicates, in
/// the order a breadth-first search first takes them off its queue: the
/// queue starts with `start`; a node taken off it that was already visited
/// is skipped, otherwise it is visited and the target of every edge leaving
/// it (in edge order) is queued.
pub fn breadth_first_order(edges: &Vec<(u64, u64)>, start: u64) -> (r: Vec<u64>)
    ensures
        r@ == bfs_order(edges@, start),
        r@.no_duplicates(),
        r@.len() >= 1,
        r@[0] == start,
        forall|v: u64| r@.contains(v) <==> reachable(edges@, start, v),
{
    let ghost es = edges@;
    let ghost u = walk_universe(es, start);
    let mut visited: Vec<u64> = Vec::new();
    let mut queue: Vec<u64> = Vec::new();
    let mut head: usize = 0;
    queue.push(start);
    proof {
        lemma_reachable_refl(es, start);
        assert(u[0] == start);
    }
    proof {
        assert(bfs_state_ok(es, start, queue@, visited@));
        assert(queue@ =~= seq![start]);
        assert(visited@ =~= Seq::<u64>::empty());
    }
    while head < queue.len()
        invariant
            es == edges@,
            u == walk_universe(es, start),
            bfs_run(es, start, queue@, head as int, visited@) == bfs_order(es, start),
            head <= queue@.len(),
            queue@.len() >= 1,
            queue@[0] == start,
            visited@.no_duplicates(),
            visited@.len() > 0 ==> visited@[0] == start,
            visited@.len() == 0 ==> head == 0,
            visited@.contains(start) || head == 0,
            forall|x: u64| #[trigger] visited@.contains(x) ==> reachable(es, start, x),
            forall|j: int| 0 <= j < queue@.len() ==> reachable(es, start, #[trigger] queue@[j]),
            forall|x: u64| #[trigger] visited@.contains(x) ==> u.contains(x),
            forall|j: int| 0 <= j < queue@.len() ==> u.contains(#[trigger] queue@[j]),
            forall|j: int| 0 <= j < head ==> visited@.contains(#[trigger] queue@[j]),
            forall|x: u64, y: u64|
                visited@.contains(x) && #[trigger] has_edge(es, x, y) ==> visited@.contains(y)
                    || exists|j: int| head <= j < queue@.len() && queue@[j] == y,
        decreases u.len() - visited@.len(), queue@.len() - head,
    {
        proof {
            lemma_unique_within_len(visited@, u);
        }
        let v = queue[head];
        let ghost qb = queue@;
        let ghost hb = head;
        let ghost vb = visited@;
        proof {
            assert(bfs_state_ok(es, start, qb, vb));
        }
        head = head + 1;
        if contains_id(&visited, v) {
            assert(bfs_run(es, start, qb, hb as int, vb) == bfs_run(es, start, qb, hb + 1, vb));
            assert forall|x: u64, y: u64|
                visited@.contains(x) && #[trigger] has_edge(es, x, y) implies visited@.contains(y)
                || exists|j: int| head <= j < queue@.len() && queue@[j] == y by {
                if !visited@.contains(y) {
                    let j = choose|j: int| hb <= j < qb.len() && qb[j] == y;
                    assert(j != hb);
                }
            }
        } else {
            let ghost before = visited@;
            visited.push(v);
            assert(visited@ == before.push(v));
            assert(visited@[visited@.len() - 1] == v);
            assert(visited@.no_duplicates()) by {
                assert forall|i: int, j: int|
                    0 <= i < visited@.len() && 0 <= j < visited@.len() && i != j implies visited@[i]
                    != visited@[j] by {
                    if i == before.len() as int {
                        assert(before.contains(visited@[j]));
                    } else if j == before.len() as int {
                        assert(before.contains(visited@[i]));
                    }
                }
            }
            proof {
                if before.len() == 0 {
                    assert(hb == 0);
                    assert(v == start);
                } else {
                    assert(visited@[0] == before[0]);
                }
            }
            let mut k: usize = 0;
            while k < edges.len()
                invariant
                    es == edges@,
                    u == walk_universe(es, start),
                    0 <= k <= edges.len(),
                    head <= qb.len(),
                    qb.len() <= queue@.len(),
                    forall|j: int| 0 <= j < qb.len() ==> queue@[j] == qb[j],
                    reachable(es, start, v),
                    forall|j: int| 0 <= j < queue@.len() ==> reachable(es, start, #[trigger] queue@[j]),
                    forall|j: int| 0 <= j < queue@.len() ==> u.contains(#[trigger] queue@[j]),
                    forall|j: int|
                        0 <= j < k && (#[trigger] es[j]).0 == v ==> exists|t: int| qb.len() <= t < queue@.len() && queue@[t] == es[j].1,
                    queue@ == qb + targets(es.take(k as int).filter(leaves(v))),
                decreases edges.len() - k,
            {
                proof {
                    crate::library::lemma_filter_take_step(es, leaves(v), k as int);
                }
                let e = edges[k];
                if e.0 == v {
                    let ghost sb = queue@;
                    queue.push(e.1);
                    proof {
                        assert(es[k as int] == e);
                        assert(has_edge(es, v, e.1));
                        lemma_reachable_step(es, start, v, e.1);
                        let m = es.map_values(|e: (u64, u64)| e.1);
                        assert(m[k as int] == e.1);
                        assert(u[k + 1] == e.1);
                        assert forall|j: int| 0 <= j < k + 1 && (#[trigger] es[j]).0 == v implies exists|t: int|
                            qb.len() <= t < queue@.len() && queue@[t] == es[j].1 by {
                            if j < k {
                                let t = choose|t: int| qb.len() <= t < sb.len() && sb[t] == es[j].1;
                                assert(queue@[t] == sb[t]);
                            } else {
                                assert(queue@[queue@.len() - 1] == e.1);
                            }
                        }
                        assert(targets(es.take(k + 1).filter(leaves(v))) =~= targets(es.take(k as int).filter(leaves(v))).push(e.1));
                        assert(queue@ =~= qb + targets(es.take(k + 1).filter(leaves(v))));
                    }
                } else {
                    assert(queue@ =~= qb + targets(es.take(k + 1).filter(leaves(v))));
                }
                k = k + 1;
            }
            proof {
                crate::library::lemma_filter_take_all(es, leaves(v));
                assert(queue@ == qb + succ(es, v));
                assert(!vb.contains(v));
                assert(hb < qb.len());
                assert(qb[hb as int] == v);
                assert(bfs_state_ok(es, start, qb, vb));
                lemma_bfs_room(es, start, qb, hb as int, vb);
                lemma_bfs_step_ok(es, start, qb, hb as int, vb);
                assert(bfs_run(es, start, qb, hb as int, vb) == bfs_run(es, start, qb + succ(es, v), hb + 1, vb.push(v)));
            }
            proof {
                assert forall|x: u64, y: u64|
                    visited@.contains(x) && #[trigger] has_edge(es, x, y) implies visited@.contains(y)
                    || exists|j: int| head <= j < queue@.len() && queue@[j] == y by {
                    if x == v {
                        let j = choose|j: int| 0 <= j < es.len() && es[j] == (x, y);
                        assert(es[j].0 == v);
                        let t = choose|t: int| qb.len() <= t < queue@.len() && queue@[t] == es[j].1;
                    } else {
                        let ix = choose|ix: int| 0 <= ix < visited@.len() && visited@[ix] == x;
                        assert(before[ix] == x);
                        assert(before.contains(x));
                        if before.contains(y) {
                            let iy = choose|iy: int| 0 <= iy < before.len() && before[iy] == y;
                            assert(visited@[iy] == y);
                        } else if y == v {
                        } else {
                            let j = choose|j: int| hb <= j < qb.len() && qb[j] == y;
                            assert(j != hb);
                            assert(queue@[j] == y);
                        }
                    }
                }
                assert(u.contains(v));
                assert forall|x: u64| #[trigger] visited@.contains(x) implies reachable(es, start, x)
                    && u.contains(x) by {
                    if x != v {
                        let ix = choose|ix: int| 0 <= ix < visited@.len() && visited@[ix] == x;
                        assert(before[ix] == x);
                        assert(before.contains(x));
                    }
                }
                assert forall|j: int| 0 <= j < head implies visited@.contains(#[trigger] queue@[j]) by {
                    assert(queue@[j] == qb[j]);
                    if j < hb {
                        assert(before.contains(qb[j]));
                        let ix = choose|ix: int| 0 <= ix < before.len() && before[ix] == qb[j];
                        assert(visited@[ix] == qb[j]);
                    }
                }
                lemma_unique_within_len(visited@, u);
            }
        }
    }
    proof {
        assert(bfs_state_ok(es, start, queue@, visited@));
        assert(bfs_run(es, start, queue@, head as int, visited@) == visited@);
        assert(visited@.contains(start)) by {
            assert(head > 0);
            assert(visited@.contains(queue@[0]));
        }
        assert forall|x: u64, y: u64| visited@.contains(x) && #[trigger] has_edge(es, x, y) implies visited@.contains(y) by {
        }
        assert forall|x: u64| reachable(es, start, x) implies visited@.contains(x) by {
            lemma_closed_contains_reachable(es, visited@.to_set(), start, x);
        }
    }
    visited
}

/// The nodes reachable from `start`, in depth-first order: a node taken
/// off the stack that was already visited is skipped, otherwise it is
/// visited and the targets of the edges leaving it are stacked, so that
/// the first edge's target is walked first.
pub fn depth_first_order(edges: &Vec<(u64, u64)>, start: u64) -> (r: Vec<u64>)
    ensures
        r@ == dfs_order(edges@, start),
        r@.no_duplicates(),
        r@.len() >= 1,
        r@[0] == start,
        forall|v: u64| r@.contains(v) <==> reachable(edges@, start, v),
{
    let ghost es = edges@;
    let ghost u = walk_universe(es, start);
    let mut visited: Vec<u64> = Vec::new();
    let mut stack: Vec<u64> = Vec::new();
    stack.push(start);
    proof {
        lemma_reachable_refl(es, start);
        assert(u[0] == start);
        assert(stack@ =~= seq![start]);
        assert(visited@ =~= Seq::<u64>::empty());
        assert(bfs_state_ok(es, start, stack@, visited@));
    }
    while stack.len() > 0
        invariant
            es == edges@,
            u == walk_universe(es, start),
            bfs_state_ok(es, start, stack@, visited@),
            dfs_run(es, start, stack@, visited@) == dfs_order(es, start),
            visited@.len() == 0 ==> stack@ == seq![start],
            visited@.len() > 0 ==> visited@[0] == start,
            visited@.contains(start) || stack@.contains(start),
            forall|x: u64| #[trigger] visited@.contains(x) ==> reachable(es, start, x),
            forall|j: int| 0 <= j < stack@.len() ==> reachable(es, start, #[trigger] stack@[j]),
            forall|x: u64, y: u64|
                visited@.contains(x) && #[trigger] has_edge(es, x, y) ==> visited@.contains(y)
                    || stack@.contains(y),
        decreases u.len() - visited@.len(), stack@.len(),
    {
        proof {
            lemma_unique_within_len(visited@, u);
        }
        let ghost sb = stack@;
        let ghost vb = visited@;
        let v = stack.pop().unwrap();
        proof {
            assert(stack@ == sb.drop_last());
            assert(v == sb.last());
            assert(reachable(es, start, sb[sb.len() - 1]));
        }
        if contains_id(&visited, v) {
            proof {
                assert(dfs_run(es, start, sb, vb) == dfs_run(es, start, sb.drop_last(), vb));
                assert(bfs_state_ok(es, start, stack@, visited@)) by {
                    assert forall|j: int| 0 <= j < stack@.len() implies u.contains(#[trigger] stack@[j]) by {
                        assert(stack@[j] == sb[j]);
                    }
                }
                assert forall|j: int| 0 <= j < stack@.len() implies reachable(es, start, #[trigger] stack@[j]) by {
                    assert(stack@[j] == sb[j]);
                }
                assert forall|y: u64| #[trigger] sb.contains(y) && y != v implies stack@.contains(y) by {
                    let idx = choose|idx: int| 0 <= idx < sb.len() && sb[idx] == y;
                    assert(idx != sb.len() - 1);
                    assert(stack@[idx] == y);
                }
                if !visited@.contains(start) {
                    assert(sb.contains(start));
                    assert(start != v);
                }
            }
        } else {
            proof {
                lemma_bfs_room(es, start, sb, sb.len() - 1, vb);
                lemma_dfs_step_ok(es, start, sb, vb);
                assert(dfs_run(es, start, sb, vb) == dfs_run(es, start, sb.drop_last() + succ(es, v).reverse(), vb.push(v)));
            }
            visited.push(v);
            proof {
                if vb.len() == 0 {
                    assert(sb == seq![start]);
                }
                assert(visited@[0] == start);
            }
            let mut kids: Vec<u64> = Vec::new();
            let mut k: usize = 0;
            while k < edges.len()
                invariant
                    es == edges@,
                    0 <= k <= edges.len(),
                    reachable(es, start, v),
                    kids@ == targets(es.take(k as int).filter(leaves(v))),
                    forall|t: int| 0 <= t < kids@.len() ==> reachable(es, start, #[trigger] kids@[t]),
                    forall|j: int| 0 <= j < k && (#[trigger] es[j]).0 == v ==> kids@.contains(es[j].1),
                decreases edges.len() - k,
            {
                proof {
                    crate::library::lemma_filter_take_step(es, leaves(v), k as int);
                }
                let e = edges[k];
                if e.0 == v {
                    let ghost kb = kids@;
                    kids.push(e.1);
                    proof {
                        assert(es[k as int] == e);
                        assert(has_edge(es, v, e.1));
                        lemma_reachable_step(es, start, v, e.1);
                        assert forall|j: int| 0 <= j < k + 1 && (#[trigger] es[j]).0 == v implies kids@.contains(es[j].1) by {
                            if j < k {
                                let t = choose|t: int| 0 <= t < kb.len() && kb[t] == es[j].1;
                                assert(kids@[t] == kb[t]);
                            } else {
                                assert(kids@[kids@.len() - 1] == e.1);
                            }
                        }
                        assert forall|t: int| 0 <= t < kids@.len() implies reachable(es, start, #[trigger] kids@[t]) by {
                            if t < kb.len() {
                                assert(kids@[t] == kb[t]);
                            }
                        }
                        assert(targets(es.take(k + 1).filter(leaves(v))) =~= targets(es.take(k as int).filter(leaves(v))).push(e.1));
                    }
                } else {
                    assert(targets(es.take(k + 1).filter(leaves(v))) =~= targets(es.take(k as int).filter(leaves(v))));
                }
                k = k + 1;
            }
            proof {
                crate::library::lemma_filter_take_all(es, leaves(v));
                assert(kids@ == succ(es, v));
            }
            let ghost rest = stack@;
            let mut j: usize = kids.len();
            while j > 0
                invariant
                    j <= kids@.len(),
                    stack@ == rest + kids@.subrange(j as int, kids@.len() as int).reverse(),
                decreases j,
            {
                j = j - 1;
                let ghost before = stack@;
                stack.push(kids[j]);
                proof {
                    let a = kids@.subrange(j + 1, kids@.len() as int);
                    let b = kids@.subrange(j as int, kids@.len() as int);
                    assert(b.reverse() =~= a.reverse().push(kids@[j as int]));
                }
            }
            proof {
                assert(kids@.subrange(0, kids@.len() as int) =~= kids@);
                let kr = kids@.reverse();
                assert(stack@ == rest + kr);
                assert forall|t: int| 0 <= t < kids@.len() implies stack@.contains(#[trigger] kids@[t]) by {
                    let i = rest.len() + kids@.len() - 1 - t;
                    assert(stack@[i] == kr[kids@.len() - 1 - t]);
                }
                assert forall|i: int| 0 <= i < stack@.len() implies reachable(es, start, #[trigger] stack@[i]) by {
                    if i < rest.len() {
                        assert(stack@[i] == sb[i]);
                    } else {
                        assert(stack@[i] == kids@[kids@.len() - 1 - (i - rest.len())]);
                    }
                }
                assert forall|y: u64| #[trigger] sb.contains(y) && y != v implies stack@.contains(y) by {
                    let idx = choose|idx: int| 0 <= idx < sb.len() && sb[idx] == y;
                    assert(idx != sb.len() - 1);
                    assert(stack@[idx] == y);
                }
                assert forall|x: u64, y: u64|
                    visited@.contains(x) && #[trigger] has_edge(es, x, y) implies visited@.contains(y)
                    || stack@.contains(y) by {
                    if x == v {
                        let jj = choose|jj: int| 0 <= jj < es.len() && es[jj] == (x, y);
                        assert(es[jj].0 == v);
                        assert(kids@.contains(y));
                        let t = choose|t: int| 0 <= t < kids@.len() && kids@[t] == y;
                        assert(stack@.contains(kids@[t]));
                    } else {
                        let ix = choose|ix: int| 0 <= ix < visited@.len() && visited@[ix] == x;
                        assert(vb[ix] == x);
                        assert(vb.contains(x));
                        if vb.contains(y) {
                            let iy = choose|iy: int| 0 <= iy < vb.len() && vb[iy] == y;
                            assert(visited@[iy] == y);
                        } else if y == v {
                            assert(visited@[visited@.len() - 1] == v);
                        } else {
                            assert(sb.contains(y));
                        }
                    }
                }
                assert forall|x: u64| #[trigger] visited@.contains(x) implies reachable(es, start, x) by {
                    if x != v {
                        let ix = choose|ix: int| 0 <= ix < visited@.len() && visited@[ix] == x;
                        assert(vb[ix] == x);
                        assert(vb.contains(x));
                    }
                }
                if vb.contains(start) {
                    let is = choose|is: int| 0 <= is < vb.len() && vb[is] == start;
                    assert(visited@[is] == start);
                }
                assert(visited@ == vb.push(v));
            }
        }
    }
    proof {
        assert(dfs_run(es, start, stack@, visited@) == visited@);
        assert forall|x: u64, y: u64| visited@.contains(x) && #[trigger] has_edge(es, x, y) implies visited@.contains(y) by {
        }
        assert forall|x: u64| reachable(es, start, x) implies visited@.contains(x) by {
            lemma_closed_contains_reachable(es, visited@.to_set(), start, x);
        }
        if visited@.len() == 0 {
            assert(stack@ == seq![start]);
        }
    }
    visited
}

} // verus!
