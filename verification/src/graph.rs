//! Reachability in a directed graph given by adjacency lists.
//!
//! Node `a` of a graph `g` has the successors `g[a]`. A successor that is not
//! the index of a node is no edge.

use vstd::prelude::*;

verus! {

/// There is an edge from `a` to `b`.
pub open spec fn has_edge(g: Seq<Seq<usize>>, a: int, b: int) -> bool {
    &&& 0 <= a < g.len()
    &&& 0 <= b < g.len()
    &&& exists|k: int| 0 <= k < g[a].len() && #[trigger] g[a][k] == b
}

/// `path` is a non-empty walk along edges of `g`, starting at a node of `g`.
pub open spec fn is_walk(g: Seq<Seq<usize>>, path: Seq<int>) -> bool {
    &&& path.len() > 0
    &&& 0 <= path[0] < g.len()
    &&& forall|i: int| 0 <= i < path.len() - 1 ==> has_edge(g, #[trigger] path[i], path[i + 1])
}

/// Node `b` can be reached from node `a` along zero or more edges.
pub open spec fn reaches(g: Seq<Seq<usize>>, a: int, b: int) -> bool {
    exists|path: Seq<int>| #[trigger] is_walk(g, path) && path.first() == a && path.last() == b
}

/// Node `b` can be reached from one of the sources.
pub open spec fn reaches_from_any(g: Seq<Seq<usize>>, sources: Seq<usize>, b: int) -> bool {
    exists|i: int| 0 <= i < sources.len() && reaches(g, #[trigger] sources[i] as int, b)
}

/// Every node reaches itself.
pub proof fn lemma_reaches_self(g: Seq<Seq<usize>>, a: int)
    requires
        0 <= a < g.len(),
    ensures
        reaches(g, a, a),
{
    let path = seq![a];
    assert(is_walk(g, path));
    assert(path.first() == a && path.last() == a);
}

/// A walk can be extended by an edge.
pub proof fn lemma_reaches_step(g: Seq<Seq<usize>>, a: int, b: int, c: int)
    requires
        reaches(g, a, b),
        has_edge(g, b, c),
    ensures
        reaches(g, a, c),
{
    let path = choose|path: Seq<int>| #[trigger]
        is_walk(g, path) && path.first() == a && path.last() == b;
    let longer = path.push(c);
    assert forall|i: int| 0 <= i < longer.len() - 1 implies has_edge(
        g,
        #[trigger] longer[i],
        longer[i + 1],
    ) by {
        if i < path.len() - 1 {
            assert(has_edge(g, path[i], path[i + 1]));
        }
    }
    assert(is_walk(g, longer));
    assert(longer.first() == a && longer.last() == c);
}

/// From any node on a walk, the end of the walk is reached.
pub proof fn lemma_walk_suffix(g: Seq<Seq<usize>>, path: Seq<int>, i: int)
    requires
        is_walk(g, path),
        0 <= i < path.len(),
    ensures
        reaches(g, path[i], path.last()),
{
    let rest = path.subrange(i, path.len() as int);
    lemma_walk_in_range(g, path, i);
    assert forall|j: int| 0 <= j < rest.len() - 1 implies has_edge(
        g,
        #[trigger] rest[j],
        rest[j + 1],
    ) by {
        assert(has_edge(g, path[i + j], path[i + j + 1]));
    }
    assert(is_walk(g, rest));
    assert(rest.first() == path[i] && rest.last() == path.last());
}

/// Every node on a walk is a node of the graph.
pub proof fn lemma_walk_in_range(g: Seq<Seq<usize>>, path: Seq<int>, i: int)
    requires
        is_walk(g, path),
        0 <= i < path.len(),
    ensures
        0 <= path[i] < g.len(),
{
    if i > 0 {
        assert(has_edge(g, path[i - 1], path[i - 1 + 1]));
    }
}

/// All successors of `a` that are nodes are marked.
spec fn closed_at(g: Seq<Seq<usize>>, seen: Seq<bool>, a: int) -> bool {
    forall|k: int| 0 <= k < g[a].len() && #[trigger] g[a][k] < g.len() ==> seen[g[a][k] as int]
}

/// Node `x` waits on the stack.
spec fn pending(stack: Seq<usize>, x: int) -> bool {
    exists|j: int| 0 <= j < stack.len() && #[trigger] stack[j] == x
}

/// Every marked node is reached from a source.
#[verifier::opaque]
spec fn sound(g: Seq<Seq<usize>>, sources: Seq<usize>, seen: Seq<bool>) -> bool {
    forall|b: int| 0 <= b < g.len() && #[trigger] seen[b] ==> reaches_from_any(g, sources, b)
}

/// Every marked node, but for the pending ones and `skip`, has its successors marked.
#[verifier::opaque]
spec fn settled(g: Seq<Seq<usize>>, seen: Seq<bool>, stack: Seq<usize>, skip: int) -> bool {
    forall|x: int|
        0 <= x < g.len() && x != skip && #[trigger] seen[x] && !pending(stack, x) ==> closed_at(
            g,
            seen,
            x,
        )
}

/// The number of unmarked positions.
spec fn unmarked(seen: Seq<bool>) -> nat
    decreases seen.len(),
{
    if seen.len() == 0 {
        0
    } else {
        unmarked(seen.drop_last()) + if seen.last() {
            0nat
        } else {
            1nat
        }
    }
}

proof fn lemma_mark(seen: Seq<bool>, i: int)
    requires
        0 <= i < seen.len(),
        !seen[i],
    ensures
        unmarked(seen.update(i, true)) + 1 == unmarked(seen),
    decreases seen.len(),
{
    let marked = seen.update(i, true);
    if i == seen.len() - 1 {
        assert(marked.drop_last() =~= seen.drop_last());
    } else {
        assert(marked.drop_last() =~= seen.drop_last().update(i, true));
        lemma_mark(seen.drop_last(), i);
    }
}

proof fn lemma_pending_push(stack: Seq<usize>, b: usize, x: int)
    ensures
        pending(stack.push(b), x) <==> pending(stack, x) || x == b,
{
    let longer = stack.push(b);
    if pending(stack, x) {
        let j = choose|j: int| 0 <= j < stack.len() && #[trigger] stack[j] == x;
        assert(longer[j] == x);
    }
    if x == b {
        assert(longer[stack.len() as int] == x);
    }
    if pending(longer, x) {
        let j = choose|j: int| 0 <= j < longer.len() && #[trigger] longer[j] == x;
        if j < stack.len() {
            assert(stack[j] == x);
        }
    }
}

/// Marking an unmarked source keeps the marking sound.
proof fn lemma_sound_source(g: Seq<Seq<usize>>, sources: Seq<usize>, seen: Seq<bool>, i: int)
    requires
        seen.len() == g.len(),
        sound(g, sources, seen),
        0 <= i < sources.len(),
        sources[i] < g.len(),
    ensures
        sound(g, sources, seen.update(sources[i] as int, true)),
{
    reveal(sound);
    lemma_reaches_self(g, sources[i] as int);
}

/// Marking a successor of a marked node keeps the marking sound.
proof fn lemma_sound_successor(
    g: Seq<Seq<usize>>,
    sources: Seq<usize>,
    seen: Seq<bool>,
    a: int,
    k: int,
)
    requires
        seen.len() == g.len(),
        sound(g, sources, seen),
        0 <= a < g.len(),
        seen[a],
        0 <= k < g[a].len(),
        g[a][k] < g.len(),
    ensures
        sound(g, sources, seen.update(g[a][k] as int, true)),
{
    reveal(sound);
    let b = g[a][k] as int;
    assert(has_edge(g, a, b));
    let i = choose|i: int| 0 <= i < sources.len() && reaches(g, #[trigger] sources[i] as int, a);
    lemma_reaches_step(g, sources[i] as int, a, b);
}

/// Taking the top node off the stack: it becomes the node being worked on.
proof fn lemma_settled_pop(g: Seq<Seq<usize>>, seen: Seq<bool>, full: Seq<usize>)
    requires
        settled(g, seen, full, -1),
        full.len() > 0,
    ensures
        settled(g, seen, full.drop_last(), full.last() as int),
{
    reveal(settled);
    assert(full =~= full.drop_last().push(full.last()));
    assert forall|x: int|
        0 <= x < g.len() && x != full.last() as int && #[trigger] seen[x] && !pending(
            full.drop_last(),
            x,
        ) implies closed_at(g, seen, x) by {
        lemma_pending_push(full.drop_last(), full.last(), x);
    }
}

/// Marking a node and pushing it keeps the rest settled.
proof fn lemma_settled_push(
    g: Seq<Seq<usize>>,
    seen: Seq<bool>,
    stack: Seq<usize>,
    skip: int,
    b: usize,
)
    requires
        seen.len() == g.len(),
        settled(g, seen, stack, skip),
        b < g.len(),
    ensures
        settled(g, seen.update(b as int, true), stack.push(b), skip),
{
    reveal(settled);
    let marked = seen.update(b as int, true);
    assert forall|x: int|
        0 <= x < g.len() && x != skip && #[trigger] marked[x] && !pending(
            stack.push(b),
            x,
        ) implies closed_at(g, marked, x) by {
        lemma_pending_push(stack, b, x);
        assert(seen[x]);
        assert(closed_at(g, seen, x));
    }
}

/// Once the successors of the node being worked on are marked, all is settled.
proof fn lemma_settled_done(g: Seq<Seq<usize>>, seen: Seq<bool>, stack: Seq<usize>, a: int)
    requires
        settled(g, seen, stack, a),
        0 <= a < g.len(),
        forall|k: int| 0 <= k < g[a].len() && #[trigger] g[a][k] < g.len() ==> seen[g[a][k] as int],
    ensures
        settled(g, seen, stack, -1),
{
    reveal(settled);
}

/// In a marking that is closed under edges, a walk that starts at a marked
/// node ends at one.
proof fn lemma_closed_walk(g: Seq<Seq<usize>>, seen: Seq<bool>, path: Seq<int>)
    requires
        seen.len() == g.len(),
        forall|a: int| 0 <= a < g.len() && seen[a] ==> closed_at(g, seen, a),
        is_walk(g, path),
        seen[path.first()],
    ensures
        seen[path.last()],
    decreases path.len(),
{
    if path.len() > 1 {
        let shorter = path.drop_last();
        assert forall|i: int| 0 <= i < shorter.len() - 1 implies has_edge(
            g,
            #[trigger] shorter[i],
            shorter[i + 1],
        ) by {
            assert(has_edge(g, path[i], path[i + 1]));
        }
        lemma_closed_walk(g, seen, shorter);
        let a = path[path.len() - 2];
        let b = path.last();
        assert(has_edge(g, path[path.len() - 2], path[path.len() - 2 + 1]));
        let k = choose|k: int| 0 <= k < g[a].len() && #[trigger] g[a][k] == b;
        assert(closed_at(g, seen, a));
        assert(g[a][k] < g.len());
    }
}

/// With nothing pending, a sound and settled marking is exactly reachability.
proof fn lemma_marking_complete(g: Seq<Seq<usize>>, sources: Seq<usize>, seen: Seq<bool>)
    requires
        seen.len() == g.len(),
        sound(g, sources, seen),
        settled(g, seen, Seq::<usize>::empty(), -1),
        forall|j: int| 0 <= j < sources.len() && sources[j] < g.len() ==> seen[sources[j] as int],
    ensures
        forall|b: int| 0 <= b < g.len() ==> seen[b] == reaches_from_any(g, sources, b),
{
    reveal(sound);
    reveal(settled);
    assert forall|b: int| 0 <= b < g.len() implies seen[b] == reaches_from_any(g, sources, b) by {
        if reaches_from_any(g, sources, b) {
            let i = choose|i: int|
                0 <= i < sources.len() && reaches(g, #[trigger] sources[i] as int, b);
            let path = choose|path: Seq<int>| #[trigger]
                is_walk(g, path) && path.first() == sources[i] as int && path.last() == b;
            assert forall|a: int| 0 <= a < g.len() && seen[a] implies closed_at(g, seen, a) by {
                assert(!pending(Seq::<usize>::empty(), a));
            }
            lemma_closed_walk(g, seen, path);
        }
    }
}

/// Marks every node that can be reached from one of the sources.
///
/// A source that is not a node of the graph reaches nothing.
pub fn reachable_from(g: &Vec<Vec<usize>>, sources: &Vec<usize>) -> (seen: Vec<bool>)
    ensures
        seen.len() == g.len(),
        forall|b: int|
            0 <= b < g.len() ==> seen[b] == reaches_from_any(g.deep_view(), sources@, b),
{
    let n = g.len();
    let ghost graph = g.deep_view();
    let mut seen: Vec<bool> = Vec::new();
    while seen.len() < n
        invariant
            seen.len() <= n,
            forall|b: int| 0 <= b < seen.len() ==> !seen[b],
        decreases n - seen.len(),
    {
        seen.push(false);
    }
    let mut stack: Vec<usize> = Vec::new();
    proof {
        reveal(sound);
        reveal(settled);
    }
    let mut s: usize = 0;
    while s < sources.len()
        invariant
            s <= sources.len(),
            n == g.len(),
            graph == g.deep_view(),
            seen.len() == n,
            forall|j: int| 0 <= j < stack.len() ==> stack[j] < n && seen[stack[j] as int],
            sound(graph, sources@, seen@),
            settled(graph, seen@, stack@, -1),
            forall|j: int| 0 <= j < s && sources[j] < n ==> seen[sources[j] as int],
        decreases sources.len() - s,
    {
        let v = sources[s];
        if v < n && !seen[v] {
            proof {
                lemma_sound_source(graph, sources@, seen@, s as int);
                lemma_settled_push(graph, seen@, stack@, -1, v);
            }
            seen.set(v, true);
            stack.push(v);
        }
        s += 1;
    }
    while stack.len() > 0
        invariant
            n == g.len(),
            graph == g.deep_view(),
            seen.len() == n,
            forall|j: int| 0 <= j < stack.len() ==> stack[j] < n && seen[stack[j] as int],
            sound(graph, sources@, seen@),
            settled(graph, seen@, stack@, -1),
            forall|j: int| 0 <= j < sources.len() && sources[j] < n ==> seen[sources[j] as int],
        decreases 2 * unmarked(seen@) + stack.len(),
    {
        let ghost before = 2 * unmarked(seen@) + stack.len();
        proof {
            lemma_settled_pop(graph, seen@, stack@);
        }
        let a = stack.pop().unwrap();
        let succ = &g[a];
        assert(graph[a as int] == succ@);
        let mut k: usize = 0;
        while k < succ.len()
            invariant
                k <= succ.len(),
                n == g.len(),
                a < n,
                graph == g.deep_view(),
                graph[a as int] == succ@,
                seen.len() == n,
                seen[a as int],
                2 * unmarked(seen@) + stack.len() < before,
                forall|j: int| 0 <= j < stack.len() ==> stack[j] < n && seen[stack[j] as int],
                sound(graph, sources@, seen@),
                settled(graph, seen@, stack@, a as int),
                forall|j: int|
                    0 <= j < sources.len() && sources[j] < n ==> seen[sources[j] as int],
                forall|j: int| 0 <= j < k && #[trigger] succ[j] < n ==> seen[succ[j] as int],
            decreases succ.len() - k,
        {
            let b = succ[k];
            if b < n && !seen[b] {
                proof {
                    lemma_mark(seen@, b as int);
                    lemma_sound_successor(graph, sources@, seen@, a as int, k as int);
                    lemma_settled_push(graph, seen@, stack@, a as int, b);
                }
                seen.set(b, true);
                stack.push(b);
            }
            k += 1;
        }
        proof {
            lemma_settled_done(graph, seen@, stack@, a as int);
        }
    }
    proof {
        assert(stack@ =~= Seq::<usize>::empty());
        lemma_marking_complete(graph, sources@, seen@);
    }
    seen
}

/// Marks every node that can be reached from node `from`; a node reaches itself.
pub fn reach_row(g: &Vec<Vec<usize>>, from: usize) -> (row: Vec<bool>)
    ensures
        row.len() == g.len(),
        forall|b: int| 0 <= b < g.len() ==> row[b] == reaches(g.deep_view(), from as int, b),
{
    let mut sources: Vec<usize> = Vec::new();
    sources.push(from);
    let row = reachable_from(g, &sources);
    proof {
        assert forall|b: int| 0 <= b < g.len() implies row[b] == reaches(
            g.deep_view(),
            from as int,
            b,
        ) by {
            if reaches_from_any(g.deep_view(), sources@, b) {
                let i = choose|i: int|
                    0 <= i < sources.len() && reaches(
                        g.deep_view(),
                        #[trigger] sources@[i] as int,
                        b,
                    );
                assert(sources@[i] == from);
            } else if reaches(g.deep_view(), from as int, b) {
                assert(reaches(g.deep_view(), sources@[0] as int, b));
            }
        }
    }
    row
}

/// Nothing outside the graph is reached.
pub proof fn lemma_unreachable_outside(g: Seq<Seq<usize>>, a: int, b: int)
    requires
        !(0 <= b < g.len()),
    ensures
        !reaches(g, a, b),
{
    if reaches(g, a, b) {
        let path = choose|path: Seq<int>| #[trigger]
            is_walk(g, path) && path.first() == a && path.last() == b;
        lemma_walk_in_range(g, path, path.len() - 1);
    }
}

/// Reachability in one graph, remembered row by row: what a node reaches is
/// worked out when it is first asked for and looked up from then on.
pub struct Reachability<'a> {
    graph: &'a Vec<Vec<usize>>,
    rows: Vec<Option<Vec<bool>>>,
}

/// A remembered row says what node `a` reaches.
spec fn row_holds(g: Seq<Seq<usize>>, a: int, row: Option<Vec<bool>>) -> bool {
    row matches Some(marks) ==> {
        &&& marks.len() == g.len()
        &&& forall|b: int| 0 <= b < g.len() ==> marks[b] == reaches(g, a, b)
    }
}

impl<'a> Reachability<'a> {
    /// The graph that is asked about.
    pub closed spec fn graph(&self) -> Seq<Seq<usize>> {
        self.graph.deep_view()
    }

    /// Every remembered row is right.
    pub closed spec fn well_formed(&self) -> bool {
        &&& self.rows.len() == self.graph.len()
        &&& forall|a: int|
            0 <= a < self.rows.len() ==> row_holds(
                self.graph.deep_view(),
                a,
                #[trigger] self.rows[a],
            )
    }

    /// Starts with nothing remembered.
    pub fn new(graph: &'a Vec<Vec<usize>>) -> (reach: Self)
        ensures
            reach.well_formed(),
            reach.graph() == graph.deep_view(),
    {
        let mut rows: Vec<Option<Vec<bool>>> = Vec::new();
        while rows.len() < graph.len()
            invariant
                rows.len() <= graph.len(),
                forall|a: int| 0 <= a < rows.len() ==> (#[trigger] rows[a]) is None,
            decreases graph.len() - rows.len(),
        {
            rows.push(None);
        }
        Reachability { graph, rows }
    }

    /// Whether node `to` can be reached from node `from` along zero or more edges.
    pub fn reaches(&mut self, from: usize, to: usize) -> (found: bool)
        requires
            old(self).well_formed(),
        ensures
            final(self).well_formed(),
            final(self).graph() == old(self).graph(),
            found == reaches(old(self).graph(), from as int, to as int),
    {
        if from >= self.rows.len() || to >= self.rows.len() {
            proof {
                if from >= self.rows.len() {
                    if reaches(self.graph(), from as int, to as int) {
                        let path = choose|path: Seq<int>| #[trigger]
                            is_walk(self.graph(), path) && path.first() == from as int
                                && path.last() == to as int;
                        assert(false);
                    }
                } else {
                    lemma_unreachable_outside(self.graph(), from as int, to as int);
                }
            }
            return false;
        }
        if self.rows[from].is_none() {
            let row = reach_row(self.graph, from);
            self.rows.set(from, Some(row));
        }
        assert(row_holds(self.graph.deep_view(), from as int, self.rows[from as int]));
        match &self.rows[from] {
            Some(marks) => marks[to],
            None => false,
        }
    }
}

} // verus!
