//! Depth-first search for cycles over an adjacency list indexed by node position.
//!
//! The search is a small machine: a colour per node, a stack of frames (a
//! node and the position of its next unexplored successor), the cycles
//! found so far, and the nodes in the order in which they were finished.

use vstd::prelude::*;

verus! {

/// The state of a node during the search.
#[derive(Clone, Copy, PartialEq, Eq, Structural, Debug)]
pub enum Color {
    /// Not yet reached.
    White,
    /// On the current path.
    Gray,
    /// Fully explored.
    Black,
}

/// A node on the current path and the position of its next successor to explore.
#[derive(Clone, Copy, Debug)]
pub struct Frame {
    pub node: usize,
    pub next: usize,
}

/// The whole state of a search.
pub struct Search {
    pub colors: Seq<Color>,
    pub frames: Seq<Frame>,
    pub cycles: Seq<Seq<usize>>,
    pub finished: Seq<usize>,
}

/// The rows of an adjacency list as sequences.
pub open spec fn rows(lists: Seq<Vec<usize>>) -> Seq<Seq<usize>> {
    lists.map_values(|r: Vec<usize>| r@)
}

/// The nodes of a stack of frames, bottom first.
pub open spec fn frame_nodes(frames: Seq<Frame>) -> Seq<usize> {
    frames.map_values(|f: Frame| f.node)
}

/// The position of the first element of `items` equal to `key`, or the
/// length of `items` where there is none.
pub open spec fn first_position(items: Seq<usize>, key: usize) -> int
    decreases items.len(),
{
    if items.len() == 0 {
        0
    } else if items[0] == key {
        0
    } else {
        1 + first_position(items.drop_first(), key)
    }
}

/// `first_position` reports a position within the sequence, or its length.
pub proof fn lemma_first_position_bounds(items: Seq<usize>, key: usize)
    ensures
        0 <= first_position(items, key) <= items.len(),
        first_position(items, key) < items.len() ==> items[first_position(items, key)] == key,
        forall|i: int| 0 <= i < first_position(items, key) ==> items[i] != key,
    decreases items.len(),
{
    if items.len() > 0 && items[0] != key {
        lemma_first_position_bounds(items.drop_first(), key);
        let rest = first_position(items.drop_first(), key);
        assert forall|i: int| 0 <= i < 1 + rest implies items[i] != key by {
            if i > 0 {
                assert(items.drop_first()[i - 1] == items[i]);
            }
        }
    }
}

/// The cycle that a back edge to `v` closes: the path from `v` to its top, then `v` again.
pub open spec fn cycle_from(frames: Seq<Frame>, v: usize) -> Seq<usize> {
    let path = frame_nodes(frames);
    path.skip(first_position(path, v)).push(v)
}

/// Every successor in `adj` is a node of `adj`, and positions fit the machine's integers.
pub open spec fn adjacency_wf(adj: Seq<Seq<usize>>) -> bool {
    &&& adj.len() <= usize::MAX
    &&& forall|u: int| 0 <= u < adj.len() ==> (#[trigger] adj[u]).len() <= usize::MAX
    &&& forall|u: int, j: int|
        0 <= u < adj.len() && 0 <= j < adj[u].len() ==> (#[trigger] adj[u][j]) < adj.len()
}

/// A frame names a gray node and a position within its successors.
pub open spec fn frame_wf(adj: Seq<Seq<usize>>, colors: Seq<Color>, f: Frame) -> bool {
    &&& f.node < adj.len()
    &&& f.next <= adj[f.node as int].len()
    &&& colors[f.node as int] == Color::Gray
}

/// The stack holds exactly the gray nodes, each once.
pub open spec fn search_wf(adj: Seq<Seq<usize>>, s: Search) -> bool {
    &&& adjacency_wf(adj)
    &&& s.colors.len() == adj.len()
    &&& forall|p: int| 0 <= p < s.frames.len() ==> frame_wf(adj, s.colors, #[trigger] s.frames[p])
    &&& forall|u: int|
        0 <= u < s.colors.len() && #[trigger] s.colors[u] == Color::Gray ==> frame_nodes(
            s.frames,
        ).contains(u as usize)
    &&& frame_nodes(s.frames).no_duplicates()
    &&& forall|c: int, k: int|
        0 <= c < s.cycles.len() && 0 <= k < s.cycles[c].len() ==> (#[trigger] s.cycles[c][k])
            < adj.len()
}

/// One move of the search, on a state whose stack is not empty: explore the
/// next successor of the top frame, or finish its node.
pub open spec fn search_step(adj: Seq<Seq<usize>>, s: Search) -> Search {
    let top = s.frames.last();
    let row = adj[top.node as int];
    if top.next < row.len() {
        let v = row[top.next as int];
        let advanced = s.frames.update(
            s.frames.len() - 1,
            Frame { node: top.node, next: (top.next + 1) as usize },
        );
        match s.colors[v as int] {
            Color::White => Search {
                colors: s.colors.update(v as int, Color::Gray),
                frames: advanced.push(Frame { node: v, next: 0 }),
                cycles: s.cycles,
                finished: s.finished,
            },
            Color::Gray => Search {
                colors: s.colors,
                frames: advanced,
                cycles: s.cycles.push(cycle_from(s.frames, v)),
                finished: s.finished,
            },
            Color::Black => Search {
                colors: s.colors,
                frames: advanced,
                cycles: s.cycles,
                finished: s.finished,
            },
        }
    } else {
        Search {
            colors: s.colors.update(top.node as int, Color::Black),
            frames: s.frames.drop_last(),
            cycles: s.cycles,
            finished: s.finished.push(top.node),
        }
    }
}

/// The number of white nodes.
pub open spec fn white_count(colors: Seq<Color>) -> nat
    decreases colors.len(),
{
    if colors.len() == 0 {
        0
    } else {
        white_count(colors.drop_last()) + if colors.last() == Color::White {
            1nat
        } else {
            0nat
        }
    }
}

/// The moves that the frames of a stack still owe: one per unexplored
/// successor, and one to finish each node.
pub open spec fn pending(adj: Seq<Seq<usize>>, frames: Seq<Frame>) -> nat
    decreases frames.len(),
{
    if frames.len() == 0 {
        0
    } else {
        let f = frames.last();
        pending(adj, frames.drop_last()) + (adj[f.node as int].len() - f.next + 1) as nat
    }
}

/// Recolouring one node changes the number of white nodes by what that node contributes.
pub proof fn lemma_white_count_update(colors: Seq<Color>, i: int, c: Color)
    requires
        0 <= i < colors.len(),
    ensures
        white_count(colors.update(i, c)) + (if colors[i] == Color::White { 1nat } else { 0nat })
            == white_count(colors) + (if c == Color::White { 1nat } else { 0nat }),
    decreases colors.len(),
{
    let updated = colors.update(i, c);
    if i == colors.len() - 1 {
        assert(updated.drop_last() == colors.drop_last());
    } else {
        assert(updated.drop_last() == colors.drop_last().update(i, c));
        lemma_white_count_update(colors.drop_last(), i, c);
    }
}

/// A move keeps the state well formed and brings the search nearer its end.
pub proof fn lemma_step(adj: Seq<Seq<usize>>, s: Search)
    requires
        search_wf(adj, s),
        s.frames.len() > 0,
    ensures
        search_wf(adj, search_step(adj, s)),
        white_count(search_step(adj, s).colors) < white_count(s.colors) || (white_count(
            search_step(adj, s).colors,
        ) == white_count(s.colors) && pending(adj, search_step(adj, s).frames) < pending(
            adj,
            s.frames,
        )),
{
    let t = search_step(adj, s);
    let last = s.frames.len() - 1;
    let top = s.frames.last();
    let row = adj[top.node as int];
    assert(frame_wf(adj, s.colors, s.frames[last]));
    if top.next < row.len() {
        let v = row[top.next as int];
        assert(v < adj.len());
        let moved = Frame { node: top.node, next: (top.next + 1) as usize };
        let advanced = s.frames.update(last, moved);
        assert(advanced.drop_last() == s.frames.drop_last());
        assert(frame_nodes(advanced) == frame_nodes(s.frames));
        assert forall|p: int| 0 <= p < advanced.len() implies frame_wf(
            adj,
            s.colors,
            #[trigger] advanced[p],
        ) by {
            assert(frame_wf(adj, s.colors, s.frames[p]));
        }
        if s.colors[v as int] == Color::White {
            lemma_white_count_update(s.colors, v as int, Color::Gray);
            let pushed = advanced.push(Frame { node: v, next: 0 });
            assert(frame_nodes(pushed) == frame_nodes(advanced).push(v));
            assert forall|p: int| 0 <= p < pushed.len() implies frame_wf(
                adj,
                t.colors,
                #[trigger] pushed[p],
            ) by {
                if p < advanced.len() {
                    assert(frame_wf(adj, s.colors, advanced[p]));
                }
            }
            assert forall|u: int|
                0 <= u < t.colors.len() && #[trigger] t.colors[u] == Color::Gray implies frame_nodes(
                pushed,
            ).contains(u as usize) by {
                if u == v {
                    assert(frame_nodes(pushed)[advanced.len() as int] == v);
                } else {
                    assert(s.colors[u] == Color::Gray);
                    let p = choose|p: int|
                        0 <= p < frame_nodes(s.frames).len() && frame_nodes(s.frames)[p]
                            == u as usize;
                    assert(frame_nodes(pushed)[p] == u as usize);
                }
            }
            assert(frame_nodes(pushed).no_duplicates()) by {
                assert forall|a: int, b: int|
                    0 <= a < pushed.len() && 0 <= b < pushed.len() && a != b implies frame_nodes(
                    pushed,
                )[a] != frame_nodes(pushed)[b] by {
                    if a < advanced.len() {
                        assert(frame_wf(adj, s.colors, advanced[a]));
                    }
                    if b < advanced.len() {
                        assert(frame_wf(adj, s.colors, advanced[b]));
                    }
                }
            }
        } else {
            assert(t.frames == advanced);
            assert(advanced.last() == moved);
            assert(pending(adj, advanced) < pending(adj, s.frames));
            if s.colors[v as int] == Color::Gray {
                let path = frame_nodes(s.frames);
                let found = cycle_from(s.frames, v);
                lemma_first_position_bounds(path, v);
                assert forall|k: int| 0 <= k < found.len() implies found[k] < adj.len() by {
                    if k < found.len() - 1 {
                        let p = first_position(path, v) + k;
                        assert(found[k] == path[p]);
                        assert(frame_wf(adj, s.colors, s.frames[p]));
                    }
                }
            }
        }
    } else {
        lemma_white_count_update(s.colors, top.node as int, Color::Black);
        let rest = s.frames.drop_last();
        assert(frame_nodes(rest) == frame_nodes(s.frames).drop_last());
        assert forall|p: int| 0 <= p < rest.len() implies frame_wf(adj, t.colors, #[trigger] rest[p]) by {
            assert(frame_wf(adj, s.colors, s.frames[p]));
            assert(frame_nodes(s.frames)[p] != frame_nodes(s.frames)[last]);
        }
        assert forall|u: int|
            0 <= u < t.colors.len() && #[trigger] t.colors[u] == Color::Gray implies frame_nodes(
            rest,
        ).contains(u as usize) by {
            assert(s.colors[u] == Color::Gray);
            let p = choose|p: int|
                0 <= p < frame_nodes(s.frames).len() && frame_nodes(s.frames)[p] == u as usize;
            assert(frame_nodes(s.frames)[last] == top.node);
            assert(frame_nodes(rest)[p] == u as usize);
        }
    }
}

/// The search run to its end from a well-formed state.
pub open spec fn search_run(adj: Seq<Seq<usize>>, s: Search) -> Search
    decreases white_count(s.colors), pending(adj, s.frames),
    when search_wf(adj, s)
    via search_run_terminates
{
    if s.frames.len() == 0 {
        s
    } else {
        search_run(adj, search_step(adj, s))
    }
}

/// Every move brings the search nearer its end.
#[via_fn]
proof fn search_run_terminates(adj: Seq<Seq<usize>>, s: Search) {
    if s.frames.len() != 0 {
        lemma_step(adj, s);
    }
}

/// The state before any node was reached.
pub open spec fn fresh_search(n: nat) -> Search {
    Search {
        colors: Seq::new(n, |i: int| Color::White),
        frames: Seq::empty(),
        cycles: Seq::empty(),
        finished: Seq::empty(),
    }
}

/// The state in which `root` has just been reached from outside the search.
pub open spec fn enter(s: Search, root: usize) -> Search {
    Search {
        colors: s.colors.update(root as int, Color::Gray),
        frames: seq![Frame { node: root, next: 0 }],
        cycles: s.cycles,
        finished: s.finished,
    }
}

/// The search from `root`, where it is still white, run to its end.
pub open spec fn search_from(adj: Seq<Seq<usize>>, s: Search, root: usize) -> Search {
    if s.colors[root as int] == Color::White {
        search_run(adj, enter(s, root))
    } else {
        s
    }
}

/// The search from each of the first `n` nodes in turn.
pub open spec fn search_roots(adj: Seq<Seq<usize>>, n: nat) -> Search
    decreases n,
{
    if n == 0 {
        fresh_search(adj.len())
    } else {
        search_from(adj, search_roots(adj, (n - 1) as nat), (n - 1) as usize)
    }
}

/// Every cycle that the search reports, in the order in which it meets them:
/// one for each edge that leads back to a node on the current path.
pub open spec fn all_cycles(adj: Seq<Seq<usize>>) -> Seq<Seq<usize>> {
    search_roots(adj, adj.len()).cycles
}

/// Entering a white root from a state at rest gives a well-formed state.
pub proof fn lemma_enter(adj: Seq<Seq<usize>>, s: Search, root: usize)
    requires
        search_wf(adj, s),
        s.frames.len() == 0,
        root < adj.len(),
        s.colors[root as int] == Color::White,
    ensures
        search_wf(adj, enter(s, root)),
{
    let t = enter(s, root);
    assert(frame_nodes(t.frames) == seq![root]);
    assert forall|u: int|
        0 <= u < t.colors.len() && #[trigger] t.colors[u] == Color::Gray implies frame_nodes(
        t.frames,
    ).contains(u as usize) by {
        if u != root {
            assert(s.colors[u] == Color::Gray);
            assert(frame_nodes(s.frames).contains(u as usize));
        } else {
            assert(frame_nodes(t.frames)[0] == root);
        }
    }
}

/// The search state that the executable search holds.
pub open spec fn state_of(
    colors: Seq<Color>,
    frames: Seq<Frame>,
    cycles: Seq<Vec<usize>>,
    finished: Seq<usize>,
) -> Search {
    Search { colors, frames, cycles: rows(cycles), finished }
}

/// The cycle that a back edge to `v` closes, read off the stack.
fn cycle_through(frames: &Vec<Frame>, v: usize) -> (cycle: Vec<usize>)
    ensures
        cycle@ == cycle_from(frames@, v),
{
    let ghost path = frame_nodes(frames@);
    let mut p: usize = 0;
    assert(path.skip(0) == path);
    while p < frames.len() && frames[p].node != v
        invariant
            p <= frames.len(),
            path == frame_nodes(frames@),
            first_position(path, v) == p + first_position(path.skip(p as int), v),
        decreases frames.len() - p,
    {
        proof {
            assert(path.skip(p as int)[0] == frames@[p as int].node);
            assert(path.skip(p as int).drop_first() == path.skip(p + 1));
        }
        p = p + 1;
    }
    proof {
        if p < frames.len() {
            assert(path.skip(p as int)[0] == frames@[p as int].node);
        }
        assert(first_position(path, v) == p);
    }
    let mut cycle: Vec<usize> = Vec::new();
    let mut q: usize = p;
    while q < frames.len()
        invariant
            p <= q <= frames.len(),
            path == frame_nodes(frames@),
            cycle@ == path.subrange(p as int, q as int),
        decreases frames.len() - q,
    {
        cycle.push(frames[q].node);
        proof {
            assert(path.subrange(p as int, q + 1) == path.subrange(p as int, q as int).push(
                path[q as int],
            ));
        }
        q = q + 1;
    }
    assert(path.subrange(p as int, frames.len() as int) == path.skip(p as int));
    cycle.push(v);
    cycle
}

/// Searches the whole graph depth first, from each node in turn, and returns
/// the cycles found: for each edge that leads back to a node on the current
/// path, the path from that node on, closed by the node itself.
pub(crate) fn find_cycles(adj: &Vec<Vec<usize>>) -> (cycles: Vec<Vec<usize>>)
    requires
        adjacency_wf(rows(adj@)),
    ensures
        rows(cycles@) == all_cycles(rows(adj@)),
        forall|c: int, k: int|
            0 <= c < cycles@.len() && 0 <= k < cycles@[c]@.len() ==> (#[trigger] cycles@[c]@[k])
                < adj@.len(),
{
    let n = adj.len();
    let ghost a = rows(adj@);
    let mut colors: Vec<Color> = Vec::new();
    let mut i: usize = 0;
    while i < n
        invariant
            i <= n,
            colors@ == Seq::new(i as nat, |k: int| Color::White),
        decreases n - i,
    {
        colors.push(Color::White);
        i = i + 1;
        assert(colors@ == Seq::new(i as nat, |k: int| Color::White));
    }
    let mut frames: Vec<Frame> = Vec::new();
    let mut cycles: Vec<Vec<usize>> = Vec::new();
    let ghost mut finished: Seq<usize> = Seq::empty();
    assert(rows(cycles@) == Seq::<Seq<usize>>::empty());
    assert(state_of(colors@, frames@, cycles@, finished) == fresh_search(a.len()));
    assert(frame_nodes(frames@) == Seq::<usize>::empty());
    let mut root: usize = 0;
    while root < n
        invariant
            root <= n,
            n == adj@.len(),
            a == rows(adj@),
            frames@.len() == 0,
            search_wf(a, state_of(colors@, frames@, cycles@, finished)),
            state_of(colors@, frames@, cycles@, finished) == search_roots(a, root as nat),
        decreases n - root,
    {
        let ghost rest = state_of(colors@, frames@, cycles@, finished);
        if colors[root] == Color::White {
            colors[root] = Color::Gray;
            frames.push(Frame { node: root, next: 0 });
            let ghost start = state_of(colors@, frames@, cycles@, finished);
            proof {
                assert(frames@ == seq![Frame { node: root, next: 0 }]);
                assert(start == enter(rest, root));
                lemma_enter(a, rest, root);
            }
            while frames.len() > 0
                invariant
                    n == adj@.len(),
                    a == rows(adj@),
                    search_wf(a, state_of(colors@, frames@, cycles@, finished)),
                    search_wf(a, start),
                    search_run(a, state_of(colors@, frames@, cycles@, finished)) == search_run(
                        a,
                        start,
                    ),
                decreases white_count(colors@), pending(a, frames@),
            {
                let ghost cur = state_of(colors@, frames@, cycles@, finished);
                proof {
                    lemma_step(a, cur);
                }
                let last = frames.len() - 1;
                let top = frames[last];
                assert(frame_wf(a, cur.colors, cur.frames[last as int]));
                assert(a[top.node as int] == adj@[top.node as int]@);
                if top.next < adj[top.node].len() {
                    let v = adj[top.node][top.next];
                    assert(v == a[top.node as int][top.next as int]);
                    frames[last] = Frame { node: top.node, next: top.next + 1 };
                    assert(frame_nodes(frames@) == frame_nodes(cur.frames));
                    if colors[v] == Color::White {
                        colors[v] = Color::Gray;
                        frames.push(Frame { node: v, next: 0 });
                    } else if colors[v] == Color::Gray {
                        let cycle = cycle_through(&frames, v);
                        cycles.push(cycle);
                        assert(rows(cycles@) == cur.cycles.push(cycle_from(cur.frames, v)));
                    }
                } else {
                    colors[top.node] = Color::Black;
                    frames.pop();
                    proof {
                        finished = finished.push(top.node);
                    }
                }
                assert(state_of(colors@, frames@, cycles@, finished) == search_step(a, cur));
            }
        }
        root = root + 1;
    }
    proof {
        let end = search_roots(a, n as nat);
        assert forall|c: int, k: int|
            0 <= c < cycles@.len() && 0 <= k < cycles@[c]@.len() implies (#[trigger] cycles@[c]@[k])
            < adj@.len() by {
            assert(end.cycles[c][k] < a.len());
        }
    }
    cycles
}

} // verus!
