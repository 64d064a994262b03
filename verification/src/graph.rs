//! The dependency graph: depth-first topological ordering with cycle
//! detection.
//!
//! The stack model hands in an association list from service name to
//! dependency names.  The sort first resolves names to indices, then
//! orders the index graph depth first, and finally maps the order
//! back to names.  On success every node stands after all of its
//! dependencies; on failure the named node lies on a dependency
//! cycle, so an acyclic graph is always ordered.

use vstd::prelude::*;
use vstd::set_lib::set_int_range;
use vstd::set_lib::lemma_int_range;
use vstd::set_lib::lemma_len_subset;

verus! {

/// A dependency cycle, reported by the node where it closed.
#[derive(Debug)]
pub struct CycleError {
    pub node: String,
}

// ------------------------------------------------------------------
// Name-level specification
// ------------------------------------------------------------------

pub type DepList = Vec<(String, Vec<String>)>;

pub open spec fn unique_keys(g: Seq<(String, Vec<String>)>) -> bool {
    forall|i: int, j: int| 0 <= i < j < g.len() ==> (#[trigger] g[i]).0@ != (#[trigger] g[j]).0@
}

pub open spec fn is_key(g: Seq<(String, Vec<String>)>, name: Seq<char>) -> bool {
    exists|i: int| 0 <= i < g.len() && (#[trigger] g[i]).0@ == name
}

/// Every dependency names a key of the graph.
pub open spec fn deps_resolve(g: Seq<(String, Vec<String>)>) -> bool {
    forall|i: int, j: int|
        0 <= i < g.len() && 0 <= j < g[i].1@.len() ==> is_key(g, (#[trigger] g[i].1@[j])@)
}

/// `a` depends directly on `b`.
pub open spec fn name_edge(g: Seq<(String, Vec<String>)>, a: Seq<char>, b: Seq<char>) -> bool {
    exists|i: int, j: int|
        0 <= i < g.len() && (#[trigger] g[i]).0@ == a && 0 <= j < g[i].1@.len() && (
        #[trigger] g[i].1@[j])@ == b
}

pub open spec fn name_path(g: Seq<(String, Vec<String>)>, p: Seq<Seq<char>>) -> bool {
    p.len() >= 1 && forall|i: int| 0 <= i < p.len() - 1 ==> name_edge(g, #[trigger] p[i], p[i + 1])
}

/// Some dependency chain leads from `x` back to `x`.
pub open spec fn name_cycle_through(g: Seq<(String, Vec<String>)>, x: Seq<char>) -> bool {
    exists|p: Seq<Seq<char>>|
        #[trigger] name_path(g, p) && p.len() >= 2 && p[0] == x && p.last() == x
}

// ------------------------------------------------------------------
// Index-level specification
// ------------------------------------------------------------------

pub open spec fn adj_wf(adjv: Seq<Seq<usize>>) -> bool {
    forall|i: int, j: int|
        0 <= i < adjv.len() && 0 <= j < adjv[i].len() ==> (#[trigger] adjv[i][j]) < adjv.len()
}

pub open spec fn iedge(adjv: Seq<Seq<usize>>, a: int, b: int) -> bool {
    0 <= a < adjv.len() && exists|j: int| 0 <= j < adjv[a].len() && (#[trigger] adjv[a][j]) == b
}

pub open spec fn ipath(adjv: Seq<Seq<usize>>, p: Seq<int>) -> bool {
    p.len() >= 1 && forall|i: int| 0 <= i < p.len() - 1 ==> iedge(adjv, #[trigger] p[i], p[i + 1])
}

pub open spec fn icycle_through(adjv: Seq<Seq<usize>>, x: int) -> bool {
    exists|p: Seq<int>| #[trigger] ipath(adjv, p) && p.len() >= 2 && p[0] == x && p.last() == x
}

/// Every element of `r` stands after all of its dependencies.
/// `x` stands somewhere before position `k` of `r`.
pub open spec fn appears_before(r: Seq<usize>, k: int, x: usize) -> bool {
    exists|m: int| 0 <= m < k && (#[trigger] r[m]) == x
}

pub open spec fn iclosed(adjv: Seq<Seq<usize>>, r: Seq<usize>) -> bool {
    forall|k: int, j: int|
        #![trigger adjv[r[k] as int][j]]
        0 <= k < r.len() && 0 <= j < adjv[r[k] as int].len() ==> appears_before(
            r,
            k,
            adjv[r[k] as int][j],
        )
}

pub open spec fn all_below(r: Seq<usize>, n: int) -> bool {
    forall|i: int| 0 <= i < r.len() ==> (#[trigger] r[i]) < n
}

pub open spec fn disjoint_seqs(a: Seq<usize>, b: Seq<usize>) -> bool {
    forall|x: usize| #[trigger] a.contains(x) ==> !b.contains(x)
}

/// Consecutive path entries are edges, and the node under visit hangs
/// off the end of the path.
pub open spec fn path_chain(adjv: Seq<Seq<usize>>, p: Seq<usize>, node: usize) -> bool {
    &&& forall|i: int|
        0 <= i < p.len() - 1 ==> iedge(adjv, (#[trigger] p[i]) as int, p[i + 1] as int)
    &&& p.len() > 0 ==> iedge(adjv, p.last() as int, node as int)
}

// ------------------------------------------------------------------
// Helper lemmas and scans
// ------------------------------------------------------------------

/// A duplicate-free sequence of indices below `n` has at most `n`
/// elements.
proof fn lemma_distinct_bounded(p: Seq<usize>, n: int)
    requires
        p.no_duplicates(),
        all_below(p, n),
        n >= 0,
    ensures
        p.len() <= n,
{
    let si = p.map_values(|x: usize| x as int);
    assert(si.no_duplicates());
    si.unique_seq_to_set();
    lemma_int_range(0, n);
    assert(si.to_set().subset_of(set_int_range(0, n))) by {
        assert forall|x: int| si.to_set().contains(x) implies set_int_range(0, n).contains(x) by {
            let i = choose|i: int| 0 <= i < si.len() && si[i] == x;
            assert(p[i] < n);
        }
    }
    lemma_len_subset(si.to_set(), set_int_range(0, n));
}

/// A prefix's elements stand unchanged in the longer sequence.
proof fn lemma_prefix_index(a: Seq<usize>, b: Seq<usize>)
    requires
        a.is_prefix_of(b),
    ensures
        forall|i: int| 0 <= i < a.len() ==> a[i] == #[trigger] b[i],
{
    assert forall|i: int| 0 <= i < a.len() implies a[i] == #[trigger] b[i] by {
        assert(a[i] == b.subrange(0, a.len() as int)[i]);
    }
}

/// Prefix order is transitive.
proof fn lemma_prefix_trans(a: Seq<usize>, b: Seq<usize>, c: Seq<usize>)
    requires
        a.is_prefix_of(b),
        b.is_prefix_of(c),
    ensures
        a.is_prefix_of(c),
{
    lemma_prefix_index(a, b);
    lemma_prefix_index(b, c);
    assert(a =~= c.subrange(0, a.len() as int));
}

/// Linear membership scan.
fn idx_find(v: &Vec<usize>, x: usize) -> (r: Option<usize>)
    ensures
        r matches Some(i) ==> i < v@.len() && v@[i as int] == x,
        r is None ==> !v@.contains(x),
{
    let n = v.len();
    let mut i: usize = 0;
    while i < n
        invariant
            0 <= i <= n,
            n == v@.len(),
            forall|j: int| 0 <= j < i ==> v@[j] != x,
        decreases n - i,
    {
        if v[i] == x {
            return Some(i);
        }
        i = i + 1;
    }
    proof {
        assert forall|j: int| 0 <= j < v@.len() implies v@[j] != x by {}
    }
    None
}

// ------------------------------------------------------------------
// Index-level depth-first visit
// ------------------------------------------------------------------

/// Re-meeting a node that is still on the walk's path closes a
/// dependency cycle through it.
proof fn lemma_found_cycle(adjv: Seq<Seq<usize>>, path: Seq<usize>, node: usize, j: int)
    requires
        path_chain(adjv, path, node),
        0 <= j < path.len(),
        path[j] == node,
    ensures
        icycle_through(adjv, node as int),
{
    let pv = path.map_values(|u: usize| u as int);
    let cyc = pv.subrange(j, pv.len() as int).push(node as int);
    assert(ipath(adjv, cyc)) by {
        assert forall|i: int| 0 <= i < cyc.len() - 1 implies iedge(
            adjv,
            #[trigger] cyc[i],
            cyc[i + 1],
        ) by {
            if i < cyc.len() - 2 {
                assert(cyc[i] == path[j + i] as int);
                assert(cyc[i + 1] == path[j + i + 1] as int);
            } else {
                assert(cyc[i] == path[path.len() - 1] as int);
                assert(cyc[i + 1] == node as int);
            }
        }
    }
    assert(cyc.len() >= 2);
    assert(cyc[0] == node as int);
    assert(cyc.last() == node as int);
}

/// Extending the path by the node under visit keeps it a chain when
/// the next step is one of that node's dependencies.
proof fn lemma_path_chain_push(adjv: Seq<Seq<usize>>, old_path: Seq<usize>, node: usize, dep: usize)
    requires
        path_chain(adjv, old_path, node),
        iedge(adjv, node as int, dep as int),
    ensures
        path_chain(adjv, old_path.push(node), dep),
{
    let p = old_path.push(node);
    assert forall|i: int| 0 <= i < p.len() - 1 implies iedge(
        adjv,
        (#[trigger] p[i]) as int,
        p[i + 1] as int,
    ) by {
        if i < p.len() - 2 {
            assert(p[i] == old_path[i]);
            assert(p[i + 1] == old_path[i + 1]);
        } else {
            assert(p[i] == old_path.last());
            assert(p[i + 1] == node);
        }
    }
    assert(p.last() == node);
}

/// Appending a node whose dependencies are already ordered keeps the
/// order dependency-closed, duplicate-free and disjoint from the
/// walk's path.
#[verifier::rlimit(60)]
proof fn lemma_push_result(
    adjv: Seq<Seq<usize>>,
    n: int,
    result_pre: Seq<usize>,
    node: usize,
    entry_result: Seq<usize>,
    old_path: Seq<usize>,
)
    requires
        n == adjv.len(),
        (node as int) < n,
        result_pre.no_duplicates(),
        all_below(result_pre, n),
        iclosed(adjv, result_pre),
        !result_pre.contains(node),
        forall|jj: int|
            0 <= jj < adjv[node as int].len() ==> result_pre.contains(
                #[trigger] adjv[node as int][jj],
            ),
        entry_result.is_prefix_of(result_pre),
        disjoint_seqs(old_path.push(node), result_pre),
        !old_path.contains(node),
    ensures
        result_pre.push(node).no_duplicates(),
        all_below(result_pre.push(node), n),
        iclosed(adjv, result_pre.push(node)),
        result_pre.push(node).contains(node),
        entry_result.is_prefix_of(result_pre.push(node)),
        disjoint_seqs(old_path, result_pre.push(node)),
{
    let r2 = result_pre.push(node);
    assert(r2.no_duplicates()) by {
        assert forall|a: int, b: int| 0 <= a < b < r2.len() implies r2[a] != r2[b] by {
            if b < r2.len() - 1 {
                assert(r2[a] == result_pre[a] && r2[b] == result_pre[b]);
            } else {
                assert(r2[b] == node);
                assert(r2[a] == result_pre[a]);
                if result_pre[a] == node {
                    assert(result_pre.contains(node));
                    assert(false);
                }
            }
        }
    }
    assert forall|k: int, jj: int|
        #![trigger adjv[r2[k] as int][jj]]
        0 <= k < r2.len() && 0 <= jj < adjv[r2[k] as int].len() implies appears_before(
        r2,
        k,
        adjv[r2[k] as int][jj],
    ) by {
        if k < r2.len() - 1 {
            assert(r2[k] == result_pre[k]);
            let t = adjv[result_pre[k] as int][jj];
            assert(appears_before(result_pre, k, t));
            let m = choose|m: int| 0 <= m < k && result_pre[m] == t;
            assert(r2[m] == adjv[r2[k] as int][jj]);
        } else {
            assert(r2[k] == node);
            assert(adjv[r2[k] as int] == adjv[node as int]);
            let t = adjv[node as int][jj];
            assert(result_pre.contains(t));
            let m = choose|m: int| 0 <= m < result_pre.len() && result_pre[m] == t;
            assert(r2[m] == adjv[r2[k] as int][jj]);
        }
    }
    assert(iclosed(adjv, r2));
    assert(r2.contains(node)) by {
        assert(r2[r2.len() - 1] == node);
    }
    assert(entry_result.is_prefix_of(r2)) by {
        lemma_prefix_index(entry_result, result_pre);
        assert(entry_result =~= r2.subrange(0, entry_result.len() as int));
    }
    assert(disjoint_seqs(old_path, r2)) by {
        assert forall|x: usize| old_path.contains(x) implies !r2.contains(x) by {
            assert(old_path.push(node).contains(x)) by {
                let m = choose|m: int| 0 <= m < old_path.len() && old_path[m] == x;
                assert(old_path.push(node)[m] == x);
            }
            if r2.contains(x) {
                let m = choose|m: int| 0 <= m < r2.len() && r2[m] == x;
                if m < r2.len() - 1 {
                    assert(result_pre[m] == x);
                    assert(result_pre.contains(x));
                    assert(false);
                } else {
                    assert(x == node);
                    assert(old_path.contains(node));
                    assert(false);
                }
            }
        }
    }
}

/// Visit one node: order all nodes reachable from it, or report an
/// index on a cycle.
#[verifier::rlimit(100)]
fn visit(adj: &Vec<Vec<usize>>, node: usize, result: &mut Vec<usize>, path: &mut Vec<usize>) -> (r:
    Result<(), usize>)
    requires
        adj_wf(adj.deep_view()),
        node < adj@.len(),
        old(result)@.no_duplicates(),
        old(path)@.no_duplicates(),
        all_below(old(result)@, adj@.len() as int),
        all_below(old(path)@, adj@.len() as int),
        disjoint_seqs(old(path)@, old(result)@),
        iclosed(adj.deep_view(), old(result)@),
        path_chain(adj.deep_view(), old(path)@, node),
    ensures
        final(path)@ == old(path)@,
        old(result)@.is_prefix_of(final(result)@),
        final(result)@.no_duplicates(),
        all_below(final(result)@, adj@.len() as int),
        disjoint_seqs(old(path)@, final(result)@),
        iclosed(adj.deep_view(), final(result)@),
        r is Ok ==> final(result)@.contains(node),
        r matches Err(c) ==> c < adj@.len() && icycle_through(adj.deep_view(), c as int),
    decreases adj@.len() - old(path)@.len(),
{
    let ghost adjv = adj.deep_view();
    let ghost n = adj@.len() as int;
    proof {
        lemma_distinct_bounded(old(path)@, n);
    }
    if let Some(_) = idx_find(result, node) {
        proof {
            assert(old(result)@.is_prefix_of(result@)) by {
                assert(old(result)@ =~= result@.subrange(0, old(result)@.len() as int));
            }
        }
        return Ok(());
    }
    if let Some(j) = idx_find(path, node) {
        proof {
            lemma_found_cycle(adjv, path@, node, j as int);
            assert(old(result)@.is_prefix_of(result@)) by {
                assert(old(result)@ =~= result@.subrange(0, old(result)@.len() as int));
            }
        }
        return Err(node);
    }
    // node is new: walk its dependencies with node on the path
    path.push(node);
    proof {
        assert forall|x: usize| path@.contains(x) implies !result@.contains(x) by {
            let m = choose|m: int| 0 <= m < path@.len() && path@[m] == x;
            if m < path@.len() - 1 {
                assert(old(path)@[m] == x);
                assert(old(path)@.contains(x));
            } else {
                assert(x == node);
            }
        }
    }
    let deps_len = adj[node].len();
    let mut j: usize = 0;
    let ghost entry_result = result@;
    while j < deps_len
        invariant
            adj_wf(adjv),
            adjv == adj.deep_view(),
            n == adj@.len() as int,
            node < n,
            deps_len == adjv[node as int].len(),
            0 <= j <= deps_len,
            path@ == old(path)@.push(node),
            path@.no_duplicates(),
            all_below(path@, n),
            result@.no_duplicates(),
            all_below(result@, n),
            disjoint_seqs(path@, result@),
            iclosed(adjv, result@),
            entry_result == old(result)@,
            entry_result.is_prefix_of(result@),
            forall|jj: int| 0 <= jj < j ==> result@.contains(#[trigger] adjv[node as int][jj]),
            path_chain(adjv, old(path)@, node),
        decreases deps_len - j,
    {
        let dep = adj[node][j];
        proof {
            assert(adjv[node as int][j as int] == dep);
            assert(iedge(adjv, node as int, dep as int));
            lemma_path_chain_push(adjv, old(path)@, node, dep);
        }
        let ghost result_before = result@;
        proof {
            lemma_distinct_bounded(path@, n);
        }
        match visit(adj, dep, result, path) {
            Ok(()) => {
                proof {
                    lemma_prefix_index(result_before, result@);
                    assert forall|jj: int|
                        0 <= jj < j + 1 implies result@.contains(
                        #[trigger] adjv[node as int][jj],
                    ) by {
                        if jj < j {
                            assert(result_before.contains(adjv[node as int][jj]));
                            let m = choose|m: int|
                                0 <= m < result_before.len() && result_before[m] == adjv[node as int][jj];
                            assert(result@[m] == adjv[node as int][jj]);
                        }
                    }
                    lemma_prefix_trans(entry_result, result_before, result@);
                }
                j = j + 1;
            },
            Err(c) => {
                let ghost pushed = path@;
                let popped = path.pop();
                proof {
                    assert(path@ =~= old(path)@);
                    lemma_prefix_trans(entry_result, result_before, result@);
                    assert forall|x: usize| old(path)@.contains(x) implies !result@.contains(
                        x,
                    ) by {
                        let m = choose|m: int| 0 <= m < old(path)@.len() && old(path)@[m] == x;
                        assert(pushed[m] == x);
                        assert(pushed.contains(x));
                    }
                }
                return Err(c);
            },
        }
    }
    let popped = path.pop();
    proof {
        assert(path@ =~= old(path)@);
        assert(!result@.contains(node)) by {
            assert(old(path)@.push(node).contains(node));
        }
    }
    let ghost result_pre = result@;
    result.push(node);
    proof {
        lemma_push_result(adjv, n, result_pre, node, entry_result, old(path)@);
    }
    Ok(())
}

// ------------------------------------------------------------------
// Index-level driver
// ------------------------------------------------------------------

/// Order the whole index graph, or report an index on a cycle.
fn topo_sort_idx(adj: &Vec<Vec<usize>>) -> (r: Result<Vec<usize>, usize>)
    requires
        adj_wf(adj.deep_view()),
    ensures
        r matches Ok(order) ==> {
            &&& order@.len() == adj@.len()
            &&& order@.no_duplicates()
            &&& all_below(order@, adj@.len() as int)
            &&& forall|i: int| 0 <= i < adj@.len() ==> #[trigger] order@.contains(i as usize)
            &&& iclosed(adj.deep_view(), order@)
        },
        r matches Err(c) ==> c < adj@.len() && icycle_through(adj.deep_view(), c as int),
{
    let ghost adjv = adj.deep_view();
    let n = adj.len();
    let mut result: Vec<usize> = Vec::new();
    let mut path: Vec<usize> = Vec::new();
    let mut i: usize = 0;
    while i < n
        invariant
            adj_wf(adjv),
            adjv == adj.deep_view(),
            n == adj@.len(),
            0 <= i <= n,
            path@ == Seq::<usize>::empty(),
            result@.no_duplicates(),
            all_below(result@, n as int),
            iclosed(adjv, result@),
            forall|k: int| 0 <= k < i ==> #[trigger] result@.contains(k as usize),
        decreases n - i,
    {
        let ghost result_before = result@;
        match visit(adj, i, &mut result, &mut path) {
            Ok(()) => {
                proof {
                    lemma_prefix_index(result_before, result@);
                    assert forall|k: int| 0 <= k < i + 1 implies #[trigger] result@.contains(
                        k as usize,
                    ) by {
                        if k < i {
                            assert(result_before.contains(k as usize));
                            let m = choose|m: int|
                                0 <= m < result_before.len() && result_before[m] == k as usize;
                            assert(result@[m] == k as usize);
                        }
                    }
                }
                i = i + 1;
            },
            Err(c) => {
                return Err(c);
            },
        }
    }
    proof {
        lemma_distinct_bounded(result@, n as int);
        assert(result@.len() == n) by {
            let si = result@.map_values(|x: usize| x as int);
            assert(si.no_duplicates());
            si.unique_seq_to_set();
            lemma_int_range(0, n as int);
            assert(si.to_set() =~= set_int_range(0, n as int)) by {
                assert forall|x: int| si.to_set().contains(x) implies set_int_range(
                    0,
                    n as int,
                ).contains(x) by {
                    let ii = choose|ii: int| 0 <= ii < si.len() && si[ii] == x;
                    assert(result@[ii] < n);
                }
                assert forall|x: int| set_int_range(0, n as int).contains(x) implies si.to_set()
                    .contains(x) by {
                    assert(result@.contains(x as usize));
                    let m = choose|m: int| 0 <= m < result@.len() && result@[m] == x as usize;
                    assert(si[m] == x);
                }
            }
        }
    }
    Ok(result)
}

// ------------------------------------------------------------------
// Name resolution
// ------------------------------------------------------------------

/// Find the entry whose key is `name`.
pub fn key_index_of(deps: &DepList, name: &String) -> (r: Option<usize>)
    ensures
        r matches Some(i) ==> i < deps@.len() && deps@[i as int].0@ == name@,
        r is None ==> !is_key(deps@, name@),
{
    let n = deps.len();
    let mut i: usize = 0;
    while i < n
        invariant
            0 <= i <= n,
            n == deps@.len(),
            forall|j: int| 0 <= j < i ==> (#[trigger] deps@[j]).0@ != name@,
        decreases n - i,
    {
        let eq = deps[i].0.eq(name);
        if eq {
            return Some(i);
        }
        i = i + 1;
    }
    None
}

/// The index graph mirrors the name graph entry by entry.
pub open spec fn adj_matches(g: Seq<(String, Vec<String>)>, adjv: Seq<Seq<usize>>) -> bool {
    &&& adjv.len() == g.len()
    &&& forall|i: int| 0 <= i < g.len() ==> (#[trigger] adjv[i]).len() == g[i].1@.len()
    &&& forall|i: int, j: int|
        0 <= i < g.len() && 0 <= j < g[i].1@.len() ==> ((#[trigger] adjv[i][j]) as int) < g.len()
            && g[adjv[i][j] as int].0@ == g[i].1@[j]@
}

/// Resolve every dependency name to the index of its entry.
fn build_adj(deps: &DepList) -> (adj: Vec<Vec<usize>>)
    requires
        unique_keys(deps@),
        deps_resolve(deps@),
    ensures
        adj_matches(deps@, adj.deep_view()),
        adj_wf(adj.deep_view()),
{
    let n = deps.len();
    let mut adj: Vec<Vec<usize>> = Vec::new();
    let mut i: usize = 0;
    while i < n
        invariant
            0 <= i <= n,
            n == deps@.len(),
            unique_keys(deps@),
            deps_resolve(deps@),
            adj.deep_view().len() == i,
            forall|k: int| 0 <= k < i ==> (#[trigger] adj.deep_view()[k]).len() == deps@[k].1@.len(),
            forall|k: int, j: int|
                0 <= k < i && 0 <= j < deps@[k].1@.len() ==> ((#[trigger] adj.deep_view()[k][j])
                    as int) < n && deps@[adj.deep_view()[k][j] as int].0@ == deps@[k].1@[j]@,
        decreases n - i,
    {
        let m = deps[i].1.len();
        let mut row: Vec<usize> = Vec::new();
        let mut j: usize = 0;
        while j < m
            invariant
                0 <= j <= m,
                0 <= i < n,
                n == deps@.len(),
                unique_keys(deps@),
                deps_resolve(deps@),
                m == deps@[i as int].1@.len(),
                row@.len() == j,
                forall|jj: int|
                    0 <= jj < j ==> ((#[trigger] row@[jj]) as int) < n && deps@[row@[jj] as int].0@
                        == deps@[i as int].1@[jj]@,
            decreases m - j,
        {
            let name = &deps[i].1[j];
            match key_index_of(deps, name) {
                Some(t) => {
                    row.push(t);
                },
                None => {
                    proof {
                        assert(is_key(deps@, deps@[i as int].1@[j as int]@));
                        assert(false);
                    }
                    row.push(0);
                },
            }
            j = j + 1;
        }
        let ghost adj_pre = adj.deep_view();
        adj.push(row);
        proof {
            assert(adj.deep_view().len() == i + 1);
            assert(adj.deep_view()[i as int] =~= row@);
            assert(forall|k: int| 0 <= k < i ==> #[trigger] adj.deep_view()[k] == adj_pre[k]);
        }
        i = i + 1;
    }
    adj
}

// ------------------------------------------------------------------
// The public sort
// ------------------------------------------------------------------

/// Order the services so that every service stands after all of its
/// dependencies.
///
/// On `Ok` the order lists each key exactly once, dependencies first.
/// On `Err` the named node lies on a dependency cycle, so an acyclic
/// graph always sorts.
#[verifier::rlimit(60)]
pub fn topological_sort(deps: &DepList) -> (r: Result<Vec<String>, CycleError>)
    requires
        unique_keys(deps@),
        deps_resolve(deps@),
    ensures
        r matches Ok(order) ==> {
            &&& order@.len() == deps@.len()
            &&& forall|a: int, b: int|
                0 <= a < b < order@.len() ==> (#[trigger] order@[a])@ != (#[trigger] order@[b])@
            &&& forall|i: int|
                0 <= i < deps@.len() ==> name_in(order@, (#[trigger] deps@[i]).0@)
            &&& forall|k: int| 0 <= k < order@.len() ==> is_key(deps@, (#[trigger] order@[k])@)
            &&& forall|k: int, i: int, j: int|
                #![trigger order@[k], deps@[i].1@[j]]
                0 <= k < order@.len() && 0 <= i < deps@.len() && deps@[i].0@ == order@[k]@ && 0 <= j
                    < g_dep_len(deps@, i) ==> name_before(order@, k, deps@[i].1@[j]@)
        },
        r matches Err(e) ==> name_cycle_through(deps@, e.node@) && is_key(deps@, e.node@),
{
    let adj = build_adj(deps);
    let ghost adjv = adj.deep_view();
    let ghost g = deps@;
    match topo_sort_idx(&adj) {
        Ok(iorder) => {
            let n = iorder.len();
            let mut out: Vec<String> = Vec::new();
            let mut k: usize = 0;
            while k < n
                invariant
                    0 <= k <= n,
                    n == iorder@.len(),
                    n == deps@.len(),
                    all_below(iorder@, n as int),
                    out@.len() == k,
                    forall|m: int|
                        0 <= m < k ==> (#[trigger] out@[m])@ == deps@[iorder@[m] as int].0@,
                decreases n - k,
            {
                let idx = iorder[k];
                out.push(deps[idx].0.clone());
                k = k + 1;
            }
            proof {
                assert(g.len() <= usize::MAX as int) by {
                    assert(n == iorder@.len());
                }
                lemma_name_order(g, adjv, iorder@, out@);
            }
            Ok(out)
        },
        Err(c) => {
            let node = deps[c].0.clone();
            proof {
                lemma_name_cycle(g, adjv, c as int);
            }
            Err(CycleError { node })
        },
    }
}

/// The number of dependencies of entry `i`; a named form so the
/// ordering clause can quantify over it.
pub open spec fn g_dep_len(g: Seq<(String, Vec<String>)>, i: int) -> int {
    g[i].1@.len() as int
}

/// `name` occurs somewhere in the order.
pub open spec fn name_in(out: Seq<String>, name: Seq<char>) -> bool {
    exists|k: int| 0 <= k < out.len() && (#[trigger] out[k])@ == name
}

/// `name` occurs before position `k` of the order.
pub open spec fn name_before(out: Seq<String>, k: int, name: Seq<char>) -> bool {
    exists|m: int| 0 <= m < k && (#[trigger] out[m])@ == name
}

/// Carry the index-level ordering guarantees over to names.
#[verifier::rlimit(60)]
proof fn lemma_name_order(
    g: Seq<(String, Vec<String>)>,
    adjv: Seq<Seq<usize>>,
    iorder: Seq<usize>,
    out: Seq<String>,
)
    requires
        g.len() <= usize::MAX as int,
        unique_keys(g),
        adj_matches(g, adjv),
        iorder.len() == g.len(),
        iorder.no_duplicates(),
        all_below(iorder, g.len() as int),
        forall|i: int| 0 <= i < g.len() ==> #[trigger] iorder.contains(i as usize),
        iclosed(adjv, iorder),
        out.len() == iorder.len(),
        forall|m: int| 0 <= m < out.len() ==> (#[trigger] out[m])@ == g[iorder[m] as int].0@,
    ensures
        forall|a: int, b: int|
            0 <= a < b < out.len() ==> (#[trigger] out[a])@ != (#[trigger] out[b])@,
        forall|i: int| 0 <= i < g.len() ==> name_in(out, (#[trigger] g[i]).0@),
        forall|k: int| 0 <= k < out.len() ==> is_key(g, (#[trigger] out[k])@),
        forall|k: int, i: int, j: int|
            #![trigger out[k], g[i].1@[j]]
            0 <= k < out.len() && 0 <= i < g.len() && g[i].0@ == out[k]@ && 0 <= j < g_dep_len(
                g,
                i,
            ) ==> name_before(out, k, g[i].1@[j]@),
{
    assert forall|a: int, b: int|
        0 <= a < b < out.len() implies (#[trigger] out[a])@ != (#[trigger] out[b])@ by {
        assert(out[a]@ == g[iorder[a] as int].0@);
        assert(out[b]@ == g[iorder[b] as int].0@);
        assert(iorder[a] != iorder[b]);
        if (iorder[a] as int) < (iorder[b] as int) {
            assert(g[iorder[a] as int].0@ != g[iorder[b] as int].0@);
        } else {
            assert(g[iorder[b] as int].0@ != g[iorder[a] as int].0@);
        }
    }
    assert forall|i: int| 0 <= i < g.len() implies name_in(out, (#[trigger] g[i]).0@) by {
        assert(iorder.contains(i as usize));
        let k = choose|k: int| 0 <= k < iorder.len() && iorder[k] == i as usize;
        assert(out[k]@ == g[iorder[k] as int].0@);
        assert(iorder[k] as int == i);
        assert(out[k]@ == g[i].0@);
    }
    assert forall|k: int| 0 <= k < out.len() implies is_key(g, (#[trigger] out[k])@) by {
        assert(g[iorder[k] as int].0@ == out[k]@);
    }
    assert forall|k: int, i: int, j: int|
        #![trigger out[k], g[i].1@[j]]
        0 <= k < out.len() && 0 <= i < g.len() && g[i].0@ == out[k]@ && 0 <= j < g_dep_len(
            g,
            i,
        ) implies name_before(out, k, g[i].1@[j]@) by {
        let ik = iorder[k] as int;
        assert(g[ik].0@ == out[k]@);
        assert(ik == i) by {
            if ik < i {
                assert(g[ik].0@ != g[i].0@);
            } else if ik > i {
                assert(g[i].0@ != g[ik].0@);
            }
        }
        assert(adjv[ik].len() == g[i].1@.len());
        assert(adjv[iorder[k] as int][j] == adjv[ik][j]);
        assert(appears_before(iorder, k, adjv[iorder[k] as int][j]));
        let m = choose|m: int| 0 <= m < k && iorder[m] == adjv[iorder[k] as int][j];
        assert(out[m]@ == g[adjv[ik][j] as int].0@);
        assert(g[adjv[ik][j] as int].0@ == g[i].1@[j]@);
    }
}

/// Carry an index-level cycle over to names.
proof fn lemma_name_cycle(g: Seq<(String, Vec<String>)>, adjv: Seq<Seq<usize>>, c: int)
    requires
        adj_matches(g, adjv),
        0 <= c < g.len(),
        icycle_through(adjv, c),
    ensures
        name_cycle_through(g, g[c].0@),
        is_key(g, g[c].0@),
{
    let p = choose|p: Seq<int>| ipath(adjv, p) && p.len() >= 2 && p[0] == c && p.last() == c;
    assert forall|i: int| 0 <= i < p.len() implies 0 <= #[trigger] p[i] < g.len() by {
        if i < p.len() - 1 {
            assert(iedge(adjv, p[i], p[i + 1]));
        } else {
            assert(p[i] == c);
        }
    }
    let np = Seq::new(p.len(), |k: int| g[p[k]].0@);
    assert(name_path(g, np)) by {
        assert forall|i: int| 0 <= i < np.len() - 1 implies name_edge(
            g,
            #[trigger] np[i],
            np[i + 1],
        ) by {
            assert(iedge(adjv, p[i], p[i + 1]));
            let j = choose|j: int| 0 <= j < adjv[p[i]].len() && (adjv[p[i]][j]) as int == p[i + 1];
            assert(g[p[i]].1@[j]@ == g[p[i + 1]].0@);
            assert(g[p[i]].0@ == np[i] && g[p[i]].1@[j]@ == np[i + 1]);
        }
    }
    assert(np.len() >= 2 && np[0] == g[c].0@ && np.last() == g[c].0@);
}

} // verus!
