//! What the cycle search guarantees: the cycles it reports are closed walks
//! along the edges, and it reports none only where the edges form none.

use vstd::prelude::*;
use crate::search::{
    adjacency_wf, all_cycles, cycle_from, enter, first_position, frame_nodes, frame_wf,
    fresh_search, lemma_enter, lemma_first_position_bounds, lemma_step, pending, search_roots,
    search_run, search_step, search_wf, white_count, Color, Frame, Search,
};

verus! {

/// What holds of a state and survives every move holds at the end of the run.
pub proof fn lemma_run_keeps(adj: Seq<Seq<usize>>, s: Search, holds: spec_fn(Search) -> bool)
    requires
        search_wf(adj, s),
        holds(s),
        forall|x: Search|
            search_wf(adj, x) && x.frames.len() > 0 && holds(x) ==> holds(
                #[trigger] search_step(adj, x),
            ),
    ensures
        holds(search_run(adj, s)),
        search_wf(adj, search_run(adj, s)),
        search_run(adj, s).frames.len() == 0,
    decreases white_count(s.colors), pending(adj, s.frames),
{
    if s.frames.len() > 0 {
        lemma_step(adj, s);
        lemma_run_keeps(adj, search_step(adj, s), holds);
    }
}

/// What holds before any node is reached, and survives every move and every
/// entry into a white root, holds after the search from the first `n` nodes.
pub proof fn lemma_roots_keep(adj: Seq<Seq<usize>>, n: nat, holds: spec_fn(Search) -> bool)
    requires
        adjacency_wf(adj),
        n <= adj.len(),
        holds(fresh_search(adj.len())),
        forall|x: Search|
            search_wf(adj, x) && x.frames.len() > 0 && holds(x) ==> holds(
                #[trigger] search_step(adj, x),
            ),
        forall|x: Search, root: usize|
            search_wf(adj, x) && x.frames.len() == 0 && holds(x) && root < adj.len()
                && x.colors[root as int] == Color::White ==> holds(#[trigger] enter(x, root)),
    ensures
        holds(search_roots(adj, n)),
        search_wf(adj, search_roots(adj, n)),
        search_roots(adj, n).frames.len() == 0,
    decreases n,
{
    if n == 0 {
        assert(frame_nodes(fresh_search(adj.len()).frames) == Seq::<usize>::empty());
    } else {
        lemma_roots_keep(adj, (n - 1) as nat, holds);
        let before = search_roots(adj, (n - 1) as nat);
        let root = (n - 1) as usize;
        if before.colors[root as int] == Color::White {
            lemma_enter(adj, before, root);
            lemma_run_keeps(adj, enter(before, root), holds);
        }
    }
}

/// Whether `adj` has an edge from `u` to `v`.
pub open spec fn has_edge(adj: Seq<Seq<usize>>, u: usize, v: usize) -> bool {
    u < adj.len() && adj[u as int].contains(v)
}

/// Whether `walk` goes along an edge from its position `k` to the next.
pub open spec fn walk_step(adj: Seq<Seq<usize>>, walk: Seq<usize>, k: int) -> bool {
    has_edge(adj, walk[k], walk[k + 1])
}

/// A walk along the edges of `adj` that ends where it began.
pub open spec fn closed_walk(adj: Seq<Seq<usize>>, walk: Seq<usize>) -> bool {
    &&& walk.len() >= 2
    &&& walk[0] == walk.last()
    &&& forall|k: int| 0 <= k < walk.len() - 1 ==> #[trigger] walk_step(adj, walk, k)
}

/// Whether the frame at `p` was left for the successor that the frame above it holds.
pub open spec fn linked_at(adj: Seq<Seq<usize>>, frames: Seq<Frame>, p: int) -> bool {
    &&& frames[p].next >= 1
    &&& adj[frames[p].node as int][frames[p].next - 1] == frames[p + 1].node
}

/// Each frame but the top was left for the successor that the frame above it holds.
pub open spec fn path_linked(adj: Seq<Seq<usize>>, frames: Seq<Frame>) -> bool {
    forall|p: int| 0 <= p < frames.len() - 1 ==> #[trigger] linked_at(adj, frames, p)
}

/// The path is linked by edges, and every cycle reported so far is a closed walk.
pub open spec fn reports_sound(adj: Seq<Seq<usize>>, s: Search) -> bool {
    &&& path_linked(adj, s.frames)
    &&& forall|c: int| 0 <= c < s.cycles.len() ==> closed_walk(adj, #[trigger] s.cycles[c])
}

/// The cycle that a back edge closes is a closed walk.
proof fn lemma_back_edge_walk(adj: Seq<Seq<usize>>, s: Search, v: usize)
    requires
        search_wf(adj, s),
        s.frames.len() > 0,
        path_linked(adj, s.frames),
        s.frames.last().next < adj[s.frames.last().node as int].len(),
        v == adj[s.frames.last().node as int][s.frames.last().next as int],
        s.colors[v as int] == Color::Gray,
    ensures
        closed_walk(adj, cycle_from(s.frames, v)),
{
    let last = s.frames.len() - 1;
    let top = s.frames.last();
    let path = frame_nodes(s.frames);
    let found = cycle_from(s.frames, v);
    let at = first_position(path, v);
    assert(frame_wf(adj, s.colors, s.frames[last]));
    assert(v < adj.len());
    lemma_first_position_bounds(path, v);
    assert(path.contains(v));
    if at == path.len() {
        let i = choose|i: int| 0 <= i < path.len() && path[i] == v;
        assert(path[i] != v);
    }
    assert(found.len() == path.len() - at + 1);
    assert(found[0] == path[at]);
    assert(found.last() == v);
    assert forall|k: int| 0 <= k < found.len() - 1 implies #[trigger] walk_step(adj, found, k) by {
        let p = at + k;
        assert(found[k] == path[p]);
        assert(frame_wf(adj, s.colors, s.frames[p]));
        if p < last {
            assert(found[k + 1] == path[p + 1]);
            assert(linked_at(adj, s.frames, p));
            assert(adj[found[k] as int][s.frames[p].next - 1] == found[k + 1]);
        } else {
            assert(found[k + 1] == v);
            assert(adj[found[k] as int][top.next as int] == v);
        }
    }
}

/// A move keeps the path linked.
proof fn lemma_step_keeps_links(adj: Seq<Seq<usize>>, s: Search)
    requires
        search_wf(adj, s),
        s.frames.len() > 0,
        path_linked(adj, s.frames),
    ensures
        path_linked(adj, search_step(adj, s).frames),
{
    let t = search_step(adj, s);
    let last = s.frames.len() - 1;
    let top = s.frames.last();
    let row = adj[top.node as int];
    assert(frame_wf(adj, s.colors, s.frames[last]));
    assert forall|p: int| 0 <= p < t.frames.len() - 1 implies #[trigger] linked_at(
        adj,
        t.frames,
        p,
    ) by {
        if p < last {
            assert(linked_at(adj, s.frames, p));
        }
    }
}

/// A move keeps the reports sound.
proof fn lemma_step_keeps_sound(adj: Seq<Seq<usize>>, s: Search)
    requires
        search_wf(adj, s),
        s.frames.len() > 0,
        reports_sound(adj, s),
    ensures
        reports_sound(adj, search_step(adj, s)),
{
    let t = search_step(adj, s);
    let top = s.frames.last();
    let row = adj[top.node as int];
    lemma_step_keeps_links(adj, s);
    if top.next < row.len() && s.colors[row[top.next as int] as int] == Color::Gray {
        lemma_back_edge_walk(adj, s, row[top.next as int]);
    }
    assert forall|c: int| 0 <= c < t.cycles.len() implies closed_walk(adj, #[trigger] t.cycles[c]) by {
        if c < s.cycles.len() {
            assert(closed_walk(adj, s.cycles[c]));
        }
    }
}

/// Every cycle that the search reports is a closed walk along the edges.
pub proof fn lemma_cycles_are_walks(adj: Seq<Seq<usize>>)
    requires
        adjacency_wf(adj),
    ensures
        forall|c: int|
            0 <= c < all_cycles(adj).len() ==> closed_walk(adj, #[trigger] all_cycles(adj)[c]),
{
    let holds = |x: Search| reports_sound(adj, x);
    assert forall|x: Search| search_wf(adj, x) && x.frames.len() > 0 && holds(x) implies holds(
        #[trigger] search_step(adj, x),
    ) by {
        lemma_step_keeps_sound(adj, x);
    }
    lemma_roots_keep(adj, adj.len(), holds);
}

/// Every cycle reported so far passes through no node twice, but for the
/// node that opens and closes it.
pub open spec fn reports_simple(s: Search) -> bool {
    forall|c: int| 0 <= c < s.cycles.len() ==> (#[trigger] s.cycles[c]).drop_last().no_duplicates()
}

/// A move keeps the reported cycles simple.
proof fn lemma_step_keeps_simple(adj: Seq<Seq<usize>>, s: Search)
    requires
        search_wf(adj, s),
        s.frames.len() > 0,
        reports_simple(s),
    ensures
        reports_simple(search_step(adj, s)),
{
    let t = search_step(adj, s);
    let top = s.frames.last();
    let row = adj[top.node as int];
    assert forall|c: int| 0 <= c < t.cycles.len() implies (#[trigger] t.cycles[c]).drop_last().no_duplicates() by {
        if c < s.cycles.len() {
            assert(s.cycles[c].drop_last().no_duplicates());
        } else {
            let v = row[top.next as int];
            let path = frame_nodes(s.frames);
            let at = first_position(path, v);
            lemma_first_position_bounds(path, v);
            assert(t.cycles[c] == cycle_from(s.frames, v));
            assert(cycle_from(s.frames, v).drop_last() =~= path.skip(at));
            assert forall|a: int, b: int|
                0 <= a < path.skip(at).len() && 0 <= b < path.skip(at).len() && a != b implies path.skip(
                at,
            )[a] != path.skip(at)[b] by {
                assert(path[at + a] != path[at + b]);
            }
        }
    }
}

/// Every cycle that the search reports passes through no node twice, but
/// for the node that opens and closes it.
pub proof fn lemma_cycles_are_simple(adj: Seq<Seq<usize>>)
    requires
        adjacency_wf(adj),
    ensures
        forall|c: int|
            0 <= c < all_cycles(adj).len() ==> (#[trigger] all_cycles(adj)[c]).drop_last().no_duplicates(),
{
    let holds = |x: Search| reports_simple(x);
    assert forall|x: Search| search_wf(adj, x) && x.frames.len() > 0 && holds(x) implies holds(
        #[trigger] search_step(adj, x),
    ) by {
        lemma_step_keeps_simple(adj, x);
    }
    lemma_roots_keep(adj, adj.len(), holds);
}

/// Whether the `k`th successor of the `i`th finished node was finished before it.
pub open spec fn successor_settled(adj: Seq<Seq<usize>>, finished: Seq<usize>, i: int, k: int) -> bool {
    finished.take(i).contains(adj[finished[i] as int][k])
}

/// Whether the `k`th successor of the frame at `p`, already explored, is
/// finished or is the node of the frame above.
pub open spec fn explored_ok(adj: Seq<Seq<usize>>, s: Search, p: int, k: int) -> bool {
    let f = s.frames[p];
    let v = adj[f.node as int][k];
    s.colors[v as int] == Color::Black || (k == f.next - 1 && p + 1 < s.frames.len()
        && s.frames[p + 1].node == v)
}

/// The finished nodes are the black ones, each once.
pub open spec fn finished_black(adj: Seq<Seq<usize>>, s: Search) -> bool {
    &&& s.finished.no_duplicates()
    &&& forall|i: int|
        0 <= i < s.finished.len() ==> (#[trigger] s.finished[i]) < adj.len()
            && s.colors[s.finished[i] as int] == Color::Black
    &&& forall|u: int|
        0 <= u < adj.len() && #[trigger] s.colors[u] == Color::Black ==> s.finished.contains(
            u as usize,
        )
}

/// While no cycle was reported, every successor of a finished node was
/// finished before it, and every explored successor of a node on the path
/// is finished or next on the path.
pub open spec fn order_kept(adj: Seq<Seq<usize>>, s: Search) -> bool {
    &&& finished_black(adj, s)
    &&& s.cycles.len() == 0 ==> forall|i: int, k: int|
        0 <= i < s.finished.len() && 0 <= k < adj[s.finished[i] as int].len()
            ==> #[trigger] successor_settled(adj, s.finished, i, k)
    &&& s.cycles.len() == 0 ==> forall|p: int, k: int|
        0 <= p < s.frames.len() && 0 <= k < s.frames[p].next ==> #[trigger] explored_ok(
            adj,
            s,
            p,
            k,
        )
}

/// Finishing the node on top of the path keeps the order of finishing.
proof fn lemma_finish_keeps_order(adj: Seq<Seq<usize>>, s: Search)
    requires
        search_wf(adj, s),
        s.frames.len() > 0,
        order_kept(adj, s),
        s.frames.last().next >= adj[s.frames.last().node as int].len(),
    ensures
        order_kept(adj, search_step(adj, s)),
{
    let t = search_step(adj, s);
    let last = s.frames.len() - 1;
    let top = s.frames.last();
    let u = top.node;
    assert(frame_wf(adj, s.colors, s.frames[last]));
    assert(t.finished == s.finished.push(u));
    assert(t.frames == s.frames.drop_last());
    assert(t.colors == s.colors.update(u as int, Color::Black));
    assert(!s.finished.contains(u)) by {
        if s.finished.contains(u) {
            let i = choose|i: int| 0 <= i < s.finished.len() && s.finished[i] == u;
            assert(s.colors[s.finished[i] as int] == Color::Black);
        }
    }
    assert(t.finished.no_duplicates()) by {
        assert forall|a: int, b: int|
            0 <= a < t.finished.len() && 0 <= b < t.finished.len() && a != b implies t.finished[a]
            != t.finished[b] by {
            if a < s.finished.len() {
                assert(s.finished.contains(t.finished[a]));
            }
            if b < s.finished.len() {
                assert(s.finished.contains(t.finished[b]));
            }
        }
    }
    assert forall|i: int| 0 <= i < t.finished.len() implies (#[trigger] t.finished[i]) < adj.len()
        && t.colors[t.finished[i] as int] == Color::Black by {
        if i < s.finished.len() {
            assert(s.finished[i] < adj.len());
        }
    }
    assert forall|w: int|
        0 <= w < adj.len() && #[trigger] t.colors[w] == Color::Black implies t.finished.contains(
        w as usize,
    ) by {
        if w == u {
            assert(t.finished[s.finished.len() as int] == u);
        } else {
            assert(s.colors[w] == Color::Black);
            let i = choose|i: int| 0 <= i < s.finished.len() && s.finished[i] == w as usize;
            assert(t.finished[i] == w as usize);
        }
    }
    if t.cycles.len() == 0 {
        assert forall|i: int, k: int|
            0 <= i < t.finished.len() && 0 <= k < adj[t.finished[i] as int].len()
            implies #[trigger] successor_settled(adj, t.finished, i, k) by {
            if i < s.finished.len() {
                assert(successor_settled(adj, s.finished, i, k));
                assert(t.finished.take(i) == s.finished.take(i));
            } else {
                assert(explored_ok(adj, s, last, k));
                let v = adj[u as int][k];
                assert(v < adj.len());
                assert(s.colors[v as int] == Color::Black);
                assert(t.finished.take(i) == s.finished);
            }
        }
        assert forall|p: int, k: int|
            0 <= p < t.frames.len() && 0 <= k < t.frames[p].next implies #[trigger] explored_ok(
            adj,
            t,
            p,
            k,
        ) by {
            assert(explored_ok(adj, s, p, k));
        }
    }
}

/// Exploring the next successor of the top of the path keeps the order of finishing.
proof fn lemma_explore_keeps_order(adj: Seq<Seq<usize>>, s: Search)
    requires
        search_wf(adj, s),
        s.frames.len() > 0,
        order_kept(adj, s),
        s.frames.last().next < adj[s.frames.last().node as int].len(),
    ensures
        order_kept(adj, search_step(adj, s)),
{
    let t = search_step(adj, s);
    let last = s.frames.len() - 1;
    let top = s.frames.last();
    let v = adj[top.node as int][top.next as int];
    assert(frame_wf(adj, s.colors, s.frames[last]));
    assert(v < adj.len());
    assert(t.finished == s.finished);
    assert forall|i: int| 0 <= i < t.finished.len() implies (#[trigger] t.finished[i]) < adj.len()
        && t.colors[t.finished[i] as int] == Color::Black by {
        assert(s.finished[i] < adj.len());
    }
    assert forall|w: int|
        0 <= w < adj.len() && #[trigger] t.colors[w] == Color::Black implies t.finished.contains(
        w as usize,
    ) by {
        assert(s.colors[w] == Color::Black);
    }
    if t.cycles.len() == 0 {
        assert(s.cycles.len() == 0);
        assert forall|i: int, k: int|
            0 <= i < t.finished.len() && 0 <= k < adj[t.finished[i] as int].len()
            implies #[trigger] successor_settled(adj, t.finished, i, k) by {
            assert(successor_settled(adj, s.finished, i, k));
        }
        assert forall|p: int, k: int|
            0 <= p < t.frames.len() && 0 <= k < t.frames[p].next implies #[trigger] explored_ok(
            adj,
            t,
            p,
            k,
        ) by {
            if p < last {
                assert(explored_ok(adj, s, p, k));
            } else if p == last && k < top.next {
                assert(explored_ok(adj, s, p, k));
            }
        }
    }
}

/// A move keeps the order of finishing.
proof fn lemma_step_keeps_order(adj: Seq<Seq<usize>>, s: Search)
    requires
        search_wf(adj, s),
        s.frames.len() > 0,
        order_kept(adj, s),
    ensures
        order_kept(adj, search_step(adj, s)),
{
    if s.frames.last().next < adj[s.frames.last().node as int].len() {
        lemma_explore_keeps_order(adj, s);
    } else {
        lemma_finish_keeps_order(adj, s);
    }
}

/// Entering a white root keeps the order of finishing.
proof fn lemma_enter_keeps_order(adj: Seq<Seq<usize>>, s: Search, root: usize)
    requires
        search_wf(adj, s),
        s.frames.len() == 0,
        order_kept(adj, s),
        root < adj.len(),
        s.colors[root as int] == Color::White,
    ensures
        order_kept(adj, enter(s, root)),
{
    let t = enter(s, root);
    assert forall|i: int| 0 <= i < t.finished.len() implies (#[trigger] t.finished[i]) < adj.len()
        && t.colors[t.finished[i] as int] == Color::Black by {
        assert(s.finished[i] < adj.len());
    }
    assert forall|w: int|
        0 <= w < adj.len() && #[trigger] t.colors[w] == Color::Black implies t.finished.contains(
        w as usize,
    ) by {
        assert(s.colors[w] == Color::Black);
    }
    if t.cycles.len() == 0 {
        assert forall|i: int, k: int|
            0 <= i < t.finished.len() && 0 <= k < adj[t.finished[i] as int].len()
            implies #[trigger] successor_settled(adj, t.finished, i, k) by {
            assert(successor_settled(adj, s.finished, i, k));
        }
    }
}

/// After the search from the first `n` nodes, the order of finishing is kept.
pub proof fn lemma_order_kept(adj: Seq<Seq<usize>>, n: nat)
    requires
        adjacency_wf(adj),
        n <= adj.len(),
    ensures
        order_kept(adj, search_roots(adj, n)),
        search_wf(adj, search_roots(adj, n)),
        search_roots(adj, n).frames.len() == 0,
{
    let holds = |x: Search| order_kept(adj, x);
    assert forall|x: Search| search_wf(adj, x) && x.frames.len() > 0 && holds(x) implies holds(
        #[trigger] search_step(adj, x),
    ) by {
        lemma_step_keeps_order(adj, x);
    }
    assert forall|x: Search, root: usize|
        search_wf(adj, x) && x.frames.len() == 0 && holds(x) && root < adj.len()
            && x.colors[root as int] == Color::White implies holds(#[trigger] enter(x, root)) by {
        lemma_enter_keeps_order(adj, x, root);
    }
    lemma_roots_keep(adj, n, holds);
}

/// None of the first `m` nodes is white.
pub open spec fn reached_below(m: int, s: Search) -> bool {
    forall|u: int| 0 <= u < m && u < s.colors.len() ==> #[trigger] s.colors[u] != Color::White
}

/// The search from the first `n` nodes leaves none of them white.
pub proof fn lemma_roots_reached(adj: Seq<Seq<usize>>, n: nat)
    requires
        adjacency_wf(adj),
        n <= adj.len(),
    ensures
        reached_below(n as int, search_roots(adj, n)),
    decreases n,
{
    if n > 0 {
        lemma_roots_reached(adj, (n - 1) as nat);
        lemma_order_kept(adj, (n - 1) as nat);
        let before = search_roots(adj, (n - 1) as nat);
        let root = (n - 1) as usize;
        if before.colors[root as int] == Color::White {
            let holds = |x: Search| reached_below(n as int, x);
            lemma_enter(adj, before, root);
            assert(holds(enter(before, root)));
            assert forall|x: Search|
                search_wf(adj, x) && x.frames.len() > 0 && holds(x) implies holds(
                #[trigger] search_step(adj, x),
            ) by {
                let y = search_step(adj, x);
                lemma_step(adj, x);
                assert forall|u: int| 0 <= u < n && u < y.colors.len() implies #[trigger] y.colors[u]
                    != Color::White by {
                    assert(x.colors[u] != Color::White);
                }
            }
            lemma_run_keeps(adj, enter(before, root), holds);
        } else {
            let after = search_roots(adj, n);
            assert forall|u: int| 0 <= u < n && u < after.colors.len() implies #[trigger] after.colors[u]
                != Color::White by {
                if u < n - 1 {
                    assert(before.colors[u] != Color::White);
                }
            }
        }
    }
}

/// The position of `u` among the finished nodes.
pub open spec fn rank(finished: Seq<usize>, u: usize) -> int {
    choose|i: int| 0 <= i < finished.len() && finished[i] == u
}

/// Along a walk, while no cycle was reported, each node was finished before the first.
proof fn lemma_rank_falls(adj: Seq<Seq<usize>>, walk: Seq<usize>, k: int)
    requires
        adjacency_wf(adj),
        all_cycles(adj).len() == 0,
        walk.len() >= 2,
        forall|j: int| 0 <= j < walk.len() - 1 ==> #[trigger] walk_step(adj, walk, j),
        1 <= k < walk.len(),
    ensures
        rank(search_roots(adj, adj.len()).finished, walk[k]) < rank(
            search_roots(adj, adj.len()).finished,
            walk[0],
        ),
        walk[k] < adj.len(),
    decreases k,
{
    let end = search_roots(adj, adj.len());
    let done = end.finished;
    lemma_order_kept(adj, adj.len());
    lemma_roots_reached(adj, adj.len());
    assert(walk_step(adj, walk, k - 1));
    let u = walk[k - 1];
    let v = walk[k];
    let j = choose|j: int| 0 <= j < adj[u as int].len() && adj[u as int][j] == v;
    assert(adj[u as int][j] < adj.len());
    assert(end.colors[u as int] != Color::White);
    if end.colors[u as int] == Color::Gray {
        assert(frame_nodes(end.frames).contains(u));
        let p = choose|p: int| 0 <= p < frame_nodes(end.frames).len() && frame_nodes(end.frames)[p] == u;
        assert(false);
    }
    assert(end.colors[u as int] == Color::Black);
    assert(done.contains(u));
    let i = rank(done, u);
    assert(successor_settled(adj, done, i, j));
    let before = choose|b: int| 0 <= b < done.take(i).len() && done.take(i)[b] == v;
    assert(done[before] == v);
    assert(rank(done, v) == before) by {
        let r = rank(done, v);
        if r != before {
            assert(done[r] != done[before]);
        }
    }
    if k > 1 {
        lemma_rank_falls(adj, walk, k - 1);
    }
}

/// Where the search reports no cycle, the edges form none: no walk along
/// them ends where it began.
pub proof fn lemma_silent_means_acyclic(adj: Seq<Seq<usize>>, walk: Seq<usize>)
    requires
        adjacency_wf(adj),
        all_cycles(adj).len() == 0,
    ensures
        !closed_walk(adj, walk),
{
    if closed_walk(adj, walk) {
        lemma_rank_falls(adj, walk, walk.len() - 1);
    }
}

/// Whether the search has gone past the `k`th successor of `u`.
pub open spec fn gone_past(s: Search, u: int, k: int) -> bool {
    s.colors[u] == Color::Black || exists|p: int|
        0 <= p < s.frames.len() && (#[trigger] s.frames[p]).node == u && s.frames[p].next > k
}

/// Whether the edge from `u` to itself at position `k`, once explored, was reported.
pub open spec fn loop_reported(adj: Seq<Seq<usize>>, s: Search, u: int, k: int) -> bool {
    adj[u][k] == u && gone_past(s, u, k) ==> s.cycles.contains(seq![u as usize, u as usize])
}

/// Every edge from a node to itself that the search has gone past was reported.
pub open spec fn loops_reported(adj: Seq<Seq<usize>>, s: Search) -> bool {
    forall|u: int, k: int|
        0 <= u < adj.len() && 0 <= k < adj[u].len() ==> #[trigger] loop_reported(adj, s, u, k)
}

/// A back edge from the top of the path to itself closes the cycle of that node alone.
proof fn lemma_self_cycle(adj: Seq<Seq<usize>>, s: Search)
    requires
        search_wf(adj, s),
        s.frames.len() > 0,
    ensures
        cycle_from(s.frames, s.frames.last().node) == seq![
            s.frames.last().node,
            s.frames.last().node,
        ],
{
    let u = s.frames.last().node;
    let path = frame_nodes(s.frames);
    let last = s.frames.len() - 1;
    lemma_first_position_bounds(path, u);
    let at = first_position(path, u);
    assert(path[last] == u);
    if at < last {
        assert(path[at] == path[last]);
    }
    assert(at == last);
    assert(path.skip(at).push(u) == seq![u, u]);
}

/// A move keeps every explored edge from a node to itself reported.
proof fn lemma_step_keeps_loops(adj: Seq<Seq<usize>>, s: Search)
    requires
        search_wf(adj, s),
        s.frames.len() > 0,
        loops_reported(adj, s),
    ensures
        loops_reported(adj, search_step(adj, s)),
{
    let t = search_step(adj, s);
    let last = s.frames.len() - 1;
    let top = s.frames.last();
    assert(frame_wf(adj, s.colors, s.frames[last]));
    lemma_self_cycle(adj, s);
    assert forall|u: int, k: int|
        0 <= u < adj.len() && 0 <= k < adj[u].len() implies #[trigger] loop_reported(
        adj,
        t,
        u,
        k,
    ) by {
        assert(loop_reported(adj, s, u, k));
        if adj[u][k] == u && gone_past(t, u, k) {
            if top.next < adj[top.node as int].len() {
                let v = adj[top.node as int][top.next as int];
                if u == top.node && k == top.next {
                    assert(s.colors[v as int] == Color::Gray);
                    assert(t.cycles == s.cycles.push(seq![u as usize, u as usize]));
                    assert(t.cycles[s.cycles.len() as int] == seq![u as usize, u as usize]);
                } else {
                    if t.colors[u] != Color::Black {
                        let p = choose|p: int|
                            0 <= p < t.frames.len() && (#[trigger] t.frames[p]).node == u
                                && t.frames[p].next > k;
                        assert(p <= last);
                        if p < last {
                            assert(s.frames[p].node == u && s.frames[p].next > k);
                        } else {
                            assert(s.frames[last].node == u && s.frames[last].next > k);
                        }
                    }
                    assert(gone_past(s, u, k));
                    let c = choose|c: int|
                        0 <= c < s.cycles.len() && s.cycles[c] == seq![u as usize, u as usize];
                    assert(t.cycles[c] == seq![u as usize, u as usize]);
                }
            } else {
                if u == top.node {
                    assert(s.frames[last].node == u && s.frames[last].next > k);
                } else if t.colors[u] != Color::Black {
                    let p = choose|p: int|
                        0 <= p < t.frames.len() && (#[trigger] t.frames[p]).node == u
                            && t.frames[p].next > k;
                    assert(s.frames[p].node == u && s.frames[p].next > k);
                }
                assert(gone_past(s, u, k));
            }
        }
    }
}

/// Every edge from a node to itself is reported as the cycle of that node alone.
pub proof fn lemma_self_loop_reported(adj: Seq<Seq<usize>>, u: usize)
    requires
        adjacency_wf(adj),
        has_edge(adj, u, u),
    ensures
        all_cycles(adj).contains(seq![u, u]),
{
    let holds = |x: Search| loops_reported(adj, x);
    assert forall|x: Search| search_wf(adj, x) && x.frames.len() > 0 && holds(x) implies holds(
        #[trigger] search_step(adj, x),
    ) by {
        lemma_step_keeps_loops(adj, x);
    }
    assert forall|x: Search, root: usize|
        search_wf(adj, x) && x.frames.len() == 0 && holds(x) && root < adj.len()
            && x.colors[root as int] == Color::White implies holds(#[trigger] enter(x, root)) by {
        let y = enter(x, root);
        assert forall|w: int, k: int|
            0 <= w < adj.len() && 0 <= k < adj[w].len() implies #[trigger] loop_reported(
            adj,
            y,
            w,
            k,
        ) by {
            assert(loop_reported(adj, x, w, k));
        }
    }
    lemma_roots_keep(adj, adj.len(), holds);
    lemma_roots_reached(adj, adj.len());
    let end = search_roots(adj, adj.len());
    let k = choose|k: int| 0 <= k < adj[u as int].len() && adj[u as int][k] == u;
    assert(loop_reported(adj, end, u as int, k));
    assert(end.colors[u as int] != Color::White);
    if end.colors[u as int] == Color::Gray {
        assert(frame_nodes(end.frames).contains(u));
        let p = choose|p: int| 0 <= p < frame_nodes(end.frames).len() && frame_nodes(end.frames)[p] == u;
        assert(false);
    }
}

} // verus!
