//! Workspace dependency graph and publish order.
//!
//! Members are identified by their index in the workspace member list. An
//! edge is kept only when the dependency has at least one non-development
//! kind and its target is itself a workspace member; edges that are
//! development-only in every resolved occurrence are dropped, which breaks
//! the cycles that test-only dependencies commonly introduce.

use vstd::prelude::*;

verus! {

/// The kind of one resolved occurrence of a dependency.
#[derive(Clone, Copy, PartialEq, Eq, Structural, Debug)]
pub enum DepKind {
    Normal,
    Development,
    Build,
}

/// One resolved dependency of a workspace member: the index of the target
/// package and the kinds under which the edge occurs.
pub struct ResolvedDep {
    pub pkg: usize,
    pub kinds: Vec<DepKind>,
}

/// A workspace member, described only by its resolved dependencies.
pub struct Member {
    pub deps: Vec<ResolvedDep>,
}

/// The workspace: members in the caller-supplied iteration order.
pub struct Workspace {
    pub members: Vec<Member>,
}

/// A dependency is development-only when every resolved kind is `Development`.
pub open spec fn spec_dev_only(kinds: Seq<DepKind>) -> bool {
    forall|k: int| 0 <= k < kinds.len() ==> kinds[k] == DepKind::Development
}

/// The adjacency row built for one member: targets of its dependencies that
/// are workspace members and not development-only, in input order.
pub open spec fn graph_row(deps: Seq<ResolvedDep>, n: nat) -> Seq<usize>
    decreases deps.len(),
{
    if deps.len() == 0 {
        Seq::empty()
    } else {
        let rest = graph_row(deps.drop_last(), n);
        let d = deps.last();
        if d.pkg < n && !spec_dev_only(d.kinds@) {
            rest.push(d.pkg)
        } else {
            rest
        }
    }
}

/// Every target in every row is a member index.
pub open spec fn wf_graph(g: Seq<Seq<usize>>) -> bool {
    forall|i: int, k: int|
        0 <= i < g.len() && 0 <= k < g[i].len() ==> #[trigger] g[i][k] < g.len()
}

/// There is an edge from `u` to `v` in the built graph.
pub open spec fn edge(g: Seq<Seq<usize>>, u: int, v: usize) -> bool {
    0 <= u < g.len() && g[u].contains(v)
}

/// A ranking that witnesses acyclicity: every edge strictly decreases it.
pub open spec fn rank_ok(g: Seq<Seq<usize>>, r: Map<int, nat>) -> bool {
    forall|u: int, v: usize| edge(g, u, v) ==> r[v as int] < r[u]
}

/// The graph is acyclic: some ranking decreases along every edge.
pub open spec fn is_dag(g: Seq<Seq<usize>>) -> bool {
    exists|r: Map<int, nat>| rank_ok(g, r)
}

/// `ord` places every dependency before every dependent that references it.
pub open spec fn topo_ok(g: Seq<Seq<usize>>, ord: Seq<usize>) -> bool {
    forall|i: int, v: usize|
        0 <= i < ord.len() && edge(g, ord[i] as int, v) ==> ord.take(i).contains(v)
}

/// The view of an adjacency list as a sequence of rows.
pub open spec fn gview(g: Seq<Vec<usize>>) -> Seq<Seq<usize>> {
    g.map(|i: int, row: Vec<usize>| row@)
}

/// How many entries of `v` are still false.
pub closed spec fn count_unvisited(v: Seq<bool>) -> nat
    decreases v.len(),
{
    if v.len() == 0 {
        0
    } else {
        count_unvisited(v.drop_last()) + if v.last() {
            0nat
        } else {
            1nat
        }
    }
}

proof fn lemma_count_update(v: Seq<bool>, i: int)
    requires
        0 <= i < v.len(),
        !v[i],
    ensures
        count_unvisited(v.update(i, true)) + 1 == count_unvisited(v),
    decreases v.len(),
{
    let w = v.update(i, true);
    if i == v.len() - 1 {
        assert(w.drop_last() =~= v.drop_last());
    } else {
        assert(w.drop_last() =~= v.drop_last().update(i, true));
        lemma_count_update(v.drop_last(), i);
    }
}

proof fn lemma_count_pointwise(a: Seq<bool>, b: Seq<bool>)
    requires
        a.len() == b.len(),
        forall|i: int| 0 <= i < a.len() && a[i] ==> b[i],
    ensures
        count_unvisited(b) <= count_unvisited(a),
    decreases a.len(),
{
    if a.len() > 0 {
        lemma_count_pointwise(a.drop_last(), b.drop_last());
    }
}

/// Along a chain of edges, a ranking strictly decreases from head to tail.
proof fn lemma_chain_rank(g: Seq<Seq<usize>>, r: Map<int, nat>, chain: Seq<usize>)
    requires
        rank_ok(g, r),
        chain.len() >= 2,
        forall|k: int| 0 <= k < chain.len() - 1 ==> edge(g, (#[trigger] chain[k]) as int, chain[k + 1]),
    ensures
        r[chain.last() as int] < r[chain[0] as int],
    decreases chain.len(),
{
    if chain.len() == 2 {
        assert(edge(g, chain[0] as int, chain[1]));
    } else {
        let sub = chain.drop_first();
        assert(forall|k: int|
            0 <= k < sub.len() - 1 ==> edge(g, (#[trigger] sub[k]) as int, sub[k + 1])) by {
            assert(forall|k: int|
                0 <= k < sub.len() - 1 ==> #[trigger] sub[k] == chain[k + 1] && sub[k + 1]
                    == chain[k + 2]);
        }
        lemma_chain_rank(g, r, sub);
        assert(edge(g, chain[0] as int, chain[1]));
        assert(sub.last() == chain.last());
    }
}

/// The invariant the traversal maintains between calls.
///
/// `anc` is the chain of in-progress ancestors. A member is visited exactly
/// when it is finished (in `sorted`) or in progress (in `anc`); consecutive
/// ancestors are linked by edges; and, whenever the graph is acyclic, every
/// finished member has all its dependencies finished before it.
pub open spec fn visit_inv(
    g: Seq<Seq<usize>>,
    visited: Seq<bool>,
    sorted: Seq<usize>,
    anc: Seq<usize>,
    rank: Map<int, nat>,
) -> bool {
    &&& visited.len() == g.len()
    &&& forall|k: int| 0 <= k < sorted.len() ==> #[trigger] sorted[k] < g.len()
    &&& forall|k: int| 0 <= k < anc.len() ==> #[trigger] anc[k] < g.len()
    &&& forall|i: usize|
        i < g.len() ==> (#[trigger] visited[i as int] <==> sorted.contains(i) || anc.contains(i))
    &&& sorted.no_duplicates()
    &&& forall|i: usize| sorted.contains(i) ==> !anc.contains(i)
    &&& forall|k: int| 0 <= k < anc.len() - 1 ==> edge(g, (#[trigger] anc[k]) as int, anc[k + 1])
    &&& (rank_ok(g, rank) ==> forall|k: int, v: usize|
        0 <= k < sorted.len() && edge(g, sorted[k] as int, v) ==> sorted.take(k).contains(v))
}

/// Membership in a pushed sequence.
proof fn lemma_push_contains<A>(s: Seq<A>, e: A)
    ensures
        forall|x: A| #[trigger] s.push(e).contains(x) <==> s.contains(x) || x == e,
{
    assert forall|x: A| #[trigger] s.push(e).contains(x) implies s.contains(x) || x == e by {
        let k = choose|k: int| 0 <= k < s.push(e).len() && s.push(e)[k] == x;
        if k < s.len() {
            assert(s[k] == x);
        }
    }
    assert forall|x: A| s.contains(x) || x == e implies #[trigger] s.push(e).contains(x) by {
        if s.contains(x) {
            let k = choose|k: int| 0 <= k < s.len() && s[k] == x;
            assert(s.push(e)[k] == x);
        } else {
            assert(s.push(e)[s.len() as int] == x);
        }
    }
}

/// Depth-first visit of `x`: a no-op when `x` is already visited, otherwise
/// finishes every dependency of `x` and then appends `x` to `sorted`.
#[verifier::rlimit(100)]
fn visit(
    g: &Vec<Vec<usize>>,
    x: usize,
    visited: &mut Vec<bool>,
    sorted: &mut Vec<usize>,
    Ghost(anc): Ghost<Seq<usize>>,
    Ghost(rank): Ghost<Map<int, nat>>,
)
    requires
        wf_graph(gview(g@)),
        x < g@.len(),
        visit_inv(gview(g@), old(visited)@, old(sorted)@, anc, rank),
        anc.len() > 0 ==> edge(gview(g@), anc.last() as int, x),
        anc.len() > 0 ==> old(visited)@[anc.last() as int],
    ensures
        visit_inv(gview(g@), final(visited)@, final(sorted)@, anc, rank),
        final(visited)@.len() == old(visited)@.len(),
        final(sorted)@.len() >= old(sorted)@.len(),
        forall|k: int|
            0 <= k < old(sorted)@.len() ==> #[trigger] final(sorted)@[k] == old(sorted)@[k],
        forall|i: int|
            0 <= i < old(visited)@.len() && old(visited)@[i] ==> #[trigger] final(visited)@[i],
        final(visited)@[x as int],
        final(sorted)@.contains(x) || anc.contains(x),
    decreases count_unvisited(old(visited)@),
{
    let ghost g_s = gview(g@);
    if visited[x] {
        proof {
            assert(sorted@.contains(x) || anc.contains(x));
        }
        return ;
    }
    let ghost pre_count = count_unvisited(visited@);
    visited.set(x, true);
    proof {
        lemma_count_update(old(visited)@, x as int);
        assert(count_unvisited(visited@) < pre_count);
    }
    let ghost anc2 = anc.push(x);
    proof {
        lemma_push_contains(anc, x);
        // the invariant holds for the extended ancestor chain
        assert(anc2.contains(x));
        assert(!sorted@.contains(x));
        assert forall|i: usize|
            i < g_s.len() implies (#[trigger] visited@[i as int] <==> sorted@.contains(i)
                || anc2.contains(i)) by {
            assert(old(visited)@[i as int] <==> sorted@.contains(i) || anc.contains(i));
        }
        assert forall|k: int|
            0 <= k < anc2.len() - 1 implies edge(g_s, (#[trigger] anc2[k]) as int, anc2[k + 1]) by {
            if k < anc.len() - 1 {
                assert(anc2[k] == anc[k] && anc2[k + 1] == anc[k + 1]);
                assert(edge(g_s, anc[k] as int, anc[k + 1]));
            } else {
                assert(anc2[k] == anc.last() && anc2[k + 1] == x);
            }
        }
    }
    let ghost visited0 = old(visited)@;
    let ghost sorted0 = old(sorted)@;
    let row_len = g[x].len();
    let mut j: usize = 0;
    while j < row_len
        invariant
            wf_graph(g_s),
            g_s == gview(g@),
            x < g_s.len(),
            row_len == g_s[x as int].len(),
            j <= row_len,
            visited@.len() == g_s.len(),
            visit_inv(g_s, visited@, sorted@, anc2, rank),
            visited@[x as int],
            anc2 == anc.push(x),
            visited0 == old(visited)@,
            sorted0 == old(sorted)@,
            visited0.len() == g_s.len(),
            pre_count == count_unvisited(visited0),
            count_unvisited(visited@) < pre_count,
            sorted@.len() >= sorted0.len(),
            forall|k: int| 0 <= k < sorted0.len() ==> #[trigger] sorted@[k] == sorted0[k],
            forall|i: int| 0 <= i < visited0.len() && visited0[i] ==> #[trigger] visited@[i],
            forall|k: int|
                0 <= k < j ==> sorted@.contains(#[trigger] g_s[x as int][k]) || anc2.contains(
                    g_s[x as int][k]),
        decreases row_len - j,
    {
        let d = g[x][j];
        proof {
            assert(edge(g_s, x as int, d)) by {
                assert(g_s[x as int][j as int] == d);
            }
            assert(anc2.last() == x);
        }
        let ghost visited_before = visited@;
        let ghost sorted_before = sorted@;
        visit(g, d, visited, sorted, Ghost(anc2), Ghost(rank));
        proof {
            lemma_count_pointwise(visited_before, visited@);
            assert forall|i: int|
                0 <= i < visited0.len() && visited0[i] implies #[trigger] visited@[i] by {
                assert(visited_before[i]);
            }
            assert forall|k: int| 0 <= k < sorted0.len() implies #[trigger] sorted@[k]
                == sorted0[k] by {
                assert(sorted@[k] == sorted_before[k]);
            }
            // targets of earlier iterations stay finished or in progress
            assert forall|k: int|
                0 <= k < j + 1 implies sorted@.contains(#[trigger] g_s[x as int][k])
                    || anc2.contains(g_s[x as int][k]) by {
                let v = g_s[x as int][k];
                if k < j && sorted_before.contains(v) {
                    let t = choose|t: int| 0 <= t < sorted_before.len() && sorted_before[t] == v;
                    assert(sorted@[t] == v);
                }
            }
        }
        j = j + 1;
    }
    // every dependency of x is finished or an ancestor; under a ranking the
    // ancestor case would close a cycle, so every dependency is finished
    proof {
        if rank_ok(g_s, rank) {
            assert forall|v: usize| edge(g_s, x as int, v) implies sorted@.contains(v) by {
                let k = choose|k: int| 0 <= k < g_s[x as int].len() && g_s[x as int][k] == v;
                assert(sorted@.contains(v) || anc2.contains(v));
                if !sorted@.contains(v) {
                    let i = choose|i: int| 0 <= i < anc2.len() && anc2[i] == v;
                    let chain = anc2.skip(i).push(v);
                    assert forall|k2: int|
                        0 <= k2 < chain.len() - 1 implies edge(
                            g_s,
                            (#[trigger] chain[k2]) as int,
                            chain[k2 + 1],
                        ) by {
                        if k2 < anc2.len() - i - 1 {
                            assert(chain[k2] == anc2[i + k2]);
                            assert(chain[k2 + 1] == anc2[i + k2 + 1]);
                            assert(edge(g_s, anc2[i + k2] as int, anc2[i + k2 + 1]));
                        } else {
                            assert(chain[k2] == anc2.last());
                            assert(chain[k2 + 1] == v);
                            assert(anc2.last() == x);
                            assert(edge(g_s, x as int, v)) by {
                                assert(g_s[x as int][k] == v);
                            }
                        }
                    }
                    assert(chain[0] == v);
                    assert(chain.last() == v);
                    lemma_chain_rank(g_s, rank, chain);
                    assert(false);
                }
            }
        }
    }
    let ghost sorted_pre_push = sorted@;
    sorted.push(x);
    proof {
        lemma_push_contains(sorted_pre_push, x);
        lemma_push_contains(anc, x);
        assert(sorted@ == sorted_pre_push.push(x));
        assert(sorted@.contains(x));
        assert(!anc.contains(x)) by {
            assert(!old(visited)@[x as int]);
        }
        assert(!sorted_pre_push.contains(x)) by {
            assert(anc2.contains(x));
        }
        assert forall|i: usize|
            i < g_s.len() implies (#[trigger] visited@[i as int] <==> sorted@.contains(i)
                || anc.contains(i)) by {
            assert(visited@[i as int] <==> sorted_pre_push.contains(i) || anc2.contains(i));
        }
        assert(sorted@.no_duplicates()) by {
            assert(forall|k: int|
                0 <= k < sorted_pre_push.len() ==> #[trigger] sorted@[k] == sorted_pre_push[k]);
            assert(sorted@[sorted@.len() - 1] == x);
        }
        assert forall|i: usize| #[trigger] sorted@.contains(i) implies !anc.contains(i) by {
            if sorted_pre_push.contains(i) {
                assert(!anc2.contains(i));
            }
        }
        if rank_ok(g_s, rank) {
            assert forall|k: int, v: usize|
                0 <= k < sorted@.len() && edge(g_s, sorted@[k] as int, v) implies sorted@.take(
                k,
            ).contains(v) by {
                if k < sorted_pre_push.len() {
                    assert(sorted@[k] == sorted_pre_push[k]);
                    assert(sorted_pre_push.take(k).contains(v));
                    assert(sorted@.take(k) =~= sorted_pre_push.take(k));
                } else {
                    assert(sorted@[k] == x);
                    assert(sorted_pre_push.contains(v));
                    assert(sorted@.take(k) =~= sorted_pre_push);
                }
            }
        }
    }
}

/// Publish order over the built graph: a depth-first traversal from each
/// member in order. The result always lists every member exactly once, and
/// whenever the graph is acyclic it places every dependency before every
/// dependent that references it.
pub fn order(g: &Vec<Vec<usize>>) -> (r: Vec<usize>)
    requires
        wf_graph(gview(g@)),
    ensures
        r@.len() == g@.len(),
        r@.no_duplicates(),
        forall|i: usize| i < g@.len() ==> r@.contains(i),
        forall|k: int| 0 <= k < r@.len() ==> #[trigger] r@[k] < g@.len(),
        is_dag(gview(g@)) ==> topo_ok(gview(g@), r@),
{
    let ghost g_s = gview(g@);
    let ghost rank: Map<int, nat> = if is_dag(g_s) {
        choose|r: Map<int, nat>| rank_ok(g_s, r)
    } else {
        Map::empty()
    };
    let n = g.len();
    let mut visited: Vec<bool> = Vec::new();
    let mut k: usize = 0;
    while k < n
        invariant
            visited@.len() == k,
            k <= n,
            forall|i: int| 0 <= i < k ==> !visited@[i],
        decreases n - k,
    {
        visited.push(false);
        k = k + 1;
    }
    let mut sorted: Vec<usize> = Vec::new();
    let ghost anc: Seq<usize> = Seq::empty();
    let mut m: usize = 0;
    while m < n
        invariant
            n == g_s.len(),
            g_s == gview(g@),
            wf_graph(g_s),
            m <= n,
            visited@.len() == n,
            visit_inv(g_s, visited@, sorted@, anc, rank),
            anc.len() == 0,
            forall|i: usize| i < m ==> visited@[i as int],
        decreases n - m,
    {
        visit(g, m, &mut visited, &mut sorted, Ghost(anc), Ghost(rank));
        m = m + 1;
    }
    proof {
        assert forall|i: usize| i < n implies #[trigger] sorted@.contains(i) by {
            assert(visited@[i as int]);
            assert(!anc.contains(i));
        }
        assert(sorted@.len() == n) by {
            let ids = Seq::new(n as nat, |i: int| i as usize);
            assert forall|v: usize| #[trigger] ids.to_set().contains(v) implies sorted@.to_set()
                .contains(v) by {
                let k2 = choose|k2: int| 0 <= k2 < ids.len() && ids[k2] == v;
                assert(v < n);
                assert(sorted@.contains(v));
            }
            assert forall|v: usize| #[trigger] sorted@.to_set().contains(v) implies ids.to_set()
                .contains(v) by {
                assert(sorted@.contains(v));
                let k2 = choose|k2: int| 0 <= k2 < sorted@.len() && sorted@[k2] == v;
                assert(v < n);
                assert(ids[v as int] == v);
                assert(ids.contains(v));
            }
            assert(ids.to_set() =~= sorted@.to_set());
            sorted@.unique_seq_to_set();
            assert(ids.no_duplicates()) by {
                assert(forall|a: int, b: int|
                    0 <= a < ids.len() && 0 <= b < ids.len() && a != b ==> ids[a] != ids[b]);
            }
            ids.unique_seq_to_set();
        }
        if is_dag(g_s) {
            assert(rank_ok(g_s, rank));
            assert(topo_ok(g_s, sorted@));
        }
    }
    sorted
}

/// Build the adjacency list: one row per member, holding the targets of its
/// dependencies that are workspace members and not development-only.
pub fn build_graph(ws: &Workspace) -> (g: Vec<Vec<usize>>)
    ensures
        g@.len() == ws.members@.len(),
        forall|i: int|
            0 <= i < g@.len() ==> #[trigger] g@[i]@ == graph_row(
                ws.members@[i].deps@,
                ws.members@.len() as nat,
            ),
        wf_graph(gview(g@)),
{
    let n = ws.members.len();
    let mut g: Vec<Vec<usize>> = Vec::new();
    let mut i: usize = 0;
    while i < n
        invariant
            n == ws.members@.len(),
            i <= n,
            g@.len() == i,
            forall|k: int|
                0 <= k < i ==> #[trigger] g@[k]@ == graph_row(ws.members@[k].deps@, n as nat),
            forall|k: int, t: int|
                0 <= k < i && 0 <= t < g@[k]@.len() ==> #[trigger] g@[k]@[t] < n,
        decreases n - i,
    {
        let deps = &ws.members[i].deps;
        let mut row: Vec<usize> = Vec::new();
        let mut j: usize = 0;
        while j < deps.len()
            invariant
                j <= deps@.len(),
                n == ws.members@.len(),
                row@ == graph_row(deps@.take(j as int), n as nat),
                forall|t: int| 0 <= t < row@.len() ==> #[trigger] row@[t] < n,
            decreases deps@.len() - j,
        {
            let d = &deps[j];
            let keep = d.pkg < n && !dev_only(d);
            proof {
                assert(deps@.take(j + 1).drop_last() =~= deps@.take(j as int));
                assert(deps@.take(j + 1).last() == deps@[j as int]);
            }
            if keep {
                row.push(d.pkg);
            }
            j = j + 1;
        }
        proof {
            assert(deps@.take(deps@.len() as int) =~= deps@);
        }
        g.push(row);
        i = i + 1;
    }
    proof {
        assert(wf_graph(gview(g@))) by {
            assert(forall|k: int|
                0 <= k < g@.len() ==> #[trigger] gview(g@)[k] == g@[k]@);
        }
    }
    g
}

/// Whether every kind of this dependency is `Development`.
pub fn dev_only(d: &ResolvedDep) -> (r: bool)
    ensures
        r == spec_dev_only(d.kinds@),
{
    let mut k: usize = 0;
    while k < d.kinds.len()
        invariant
            k <= d.kinds@.len(),
            forall|t: int| 0 <= t < k ==> d.kinds@[t] == DepKind::Development,
        decreases d.kinds@.len() - k,
    {
        if !matches!(d.kinds[k], DepKind::Development) {
            return false;
        }
        k = k + 1;
    }
    true
}

/// Publish order for a workspace: build the graph, then order it.
pub fn sort_workspace(ws: &Workspace) -> (r: Vec<usize>)
    ensures
        r@.len() == ws.members@.len(),
        r@.no_duplicates(),
        forall|i: usize| i < ws.members@.len() ==> r@.contains(i),
        is_dag(workspace_graph(*ws)) ==> topo_ok(workspace_graph(*ws), r@),
{
    let g = build_graph(ws);
    proof {
        assert(gview(g@) =~= workspace_graph(*ws));
    }
    order(&g)
}

/// The graph a workspace builds: one row per member.
pub open spec fn workspace_graph(ws: Workspace) -> Seq<Seq<usize>> {
    Seq::new(
        ws.members@.len() as nat,
        |i: int| graph_row(ws.members@[i].deps@, ws.members@.len() as nat),
    )
}

/// A target appears in a member's row exactly when some resolved dependency
/// names it, is a workspace member, and is not development-only: the ordering
/// constraint never comes from a development-only edge.
pub proof fn lemma_row_membership(deps: Seq<ResolvedDep>, n: nat, v: usize)
    ensures
        graph_row(deps, n).contains(v) <==> exists|k: int|
            0 <= k < deps.len() && (#[trigger] deps[k]).pkg == v && deps[k].pkg < n
                && !spec_dev_only(deps[k].kinds@),
    decreases deps.len(),
{
    if deps.len() > 0 {
        lemma_row_membership(deps.drop_last(), n, v);
        let rest = graph_row(deps.drop_last(), n);
        let d = deps.last();
        if d.pkg < n && !spec_dev_only(d.kinds@) {
            assert(graph_row(deps, n) == rest.push(d.pkg));
            assert(forall|x: usize|
                rest.push(d.pkg).contains(x) <==> rest.contains(x) || x == d.pkg) by {
                assert(forall|k: int| 0 <= k < rest.len() ==> rest.push(d.pkg)[k] == rest[k]);
                assert(rest.push(d.pkg)[rest.len() as int] == d.pkg);
            }
        }
        assert(forall|k: int|
            0 <= k < deps.len() - 1 ==> deps.drop_last()[k] == deps[k]);
        assert(deps[deps.len() - 1] == d);
    }
}

} // verus!
