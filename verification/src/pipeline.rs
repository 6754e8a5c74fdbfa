//! The pipeline engine.
//!
//! Construction derives the dependency graph from each node's declared
//! sources: every source that is not a base identifier must be produced by
//! exactly one node, and the graph must be acyclic; otherwise construction
//! refuses with a configuration error.  Nodes live in a flat array and
//! edges are index pairs, so the graph is trivially shareable.
//!
//! Evaluation walks a topological order persisted at construction: each
//! node queries the store for its sources at the trigger time, computes,
//! and writes its output back, so a consumer always observes its
//! producers' writes at that trigger.

use vstd::prelude::*;

use crate::config::{ConfigError, PipelineConfig, QueryType};
use crate::features::{
    cfg_id, cfg_sources, node_calc, node_id, node_matches, node_requests, node_sources,
    resp_model, FeatureDataRequest, FeatureDataResponse, FeatureFactory, FeatureType,
};
use crate::models::{ikey, FeatureEvent, IKey, Instrument};
use crate::num::{val_wf, Value};
use crate::store::{
    feats_add, is_base_id, read_series_spec, FKey, State, StateM,
};
use vstd::set_lib::{lemma_len_subset, lemma_subset_equality, set_int_range, lemma_int_range};

verus! {

// ---------------------------------------------------------------------------
// The dependency graph, node level
// ---------------------------------------------------------------------------

/// No two nodes declare the same identifier.
pub open spec fn nodes_unique(ns: Seq<FeatureType>) -> bool {
    forall|i: int, j: int| 0 <= i < j < ns.len() ==> node_id(ns[i]) != node_id(ns[j])
}

/// There is an edge from producer `u` to consumer `v`: some non-base source
/// of `v` is `u`'s identifier.
pub open spec fn node_edge(ns: Seq<FeatureType>, u: int, v: int) -> bool {
    &&& 0 <= u < ns.len()
    &&& 0 <= v < ns.len()
    &&& exists|k: int|
        0 <= k < node_sources(ns[v]).len() && !is_base_id(node_sources(ns[v])[k])
            && node_sources(ns[v])[k] == node_id(ns[u])
}

/// Every non-base source of every node is produced by some node.
pub open spec fn sources_resolved(ns: Seq<FeatureType>) -> bool {
    forall|v: int, k: int|
        0 <= v < ns.len() && 0 <= k < node_sources(ns[v]).len() && !is_base_id(
            node_sources(ns[v])[k],
        ) ==> exists|u: int| 0 <= u < ns.len() && node_id(ns[u]) == node_sources(ns[v])[k]
}

/// `o` is a topological order of the nodes: a permutation of the node
/// indices in which every producer comes before its consumers.
pub open spec fn node_valid_order(ns: Seq<FeatureType>, o: Seq<usize>) -> bool {
    &&& o.len() == ns.len()
    &&& forall|a: int| 0 <= a < o.len() ==> (o[a] as int) < ns.len()
    &&& forall|a: int, b: int| 0 <= a < b < o.len() ==> o[a] != o[b]
    &&& forall|v: usize| (v as int) < ns.len() ==> o.contains(v)
    &&& forall|a: int, b: int|
        0 <= a < o.len() && 0 <= b < o.len() && node_edge(ns, o[a] as int, o[b] as int) ==> a < b
}

/// The graph is acyclic: some topological order exists.
pub open spec fn node_acyclic(ns: Seq<FeatureType>) -> bool {
    exists|o: Seq<usize>| node_valid_order(ns, o)
}

/// The first node at or after `v` that is not done and all of whose
/// producers are done.
pub open spec fn first_ready_from(ns: Seq<FeatureType>, done: Seq<bool>, v: int) -> Option<int>
    decreases ns.len() - v,
    when 0 <= v <= ns.len()
{
    if v < 0 || v >= ns.len() {
        None
    } else if !done[v] && (forall|u: int| node_edge(ns, u, v) ==> done[u]) {
        Some(v)
    } else {
        first_ready_from(ns, done, v + 1)
    }
}

/// The canonical evaluation order: repeatedly take the first ready node.
/// This is the order construction persists, so it is a function of the
/// catalog alone.
pub open spec fn greedy_order(ns: Seq<FeatureType>, done: Seq<bool>, remaining: nat) -> Option<
    Seq<usize>,
>
    decreases remaining,
{
    if remaining == 0 {
        Some(Seq::empty())
    } else {
        match first_ready_from(ns, done, 0) {
            None => None,
            Some(v) => match greedy_order(ns, done.update(v, true), (remaining - 1) as nat) {
                None => None,
                Some(rest) => Some(seq![v as usize] + rest),
            },
        }
    }
}

/// The canonical topological order of a catalog, if one exists.
pub open spec fn spec_topo_order(ns: Seq<FeatureType>) -> Option<Seq<usize>> {
    greedy_order(ns, Seq::new(ns.len(), |i: int| false), ns.len() as nat)
}

// ---------------------------------------------------------------------------
// The same notions at configuration level
// ---------------------------------------------------------------------------

/// Two configurations declare the same node identifier.
pub open spec fn cfg_dup(fs: Seq<crate::config::FeatureConfig>) -> bool {
    exists|i: int, j: int| 0 <= i < j < fs.len() && cfg_id(fs[i]) == cfg_id(fs[j])
}

/// Some non-base source is produced by no configuration.
pub open spec fn cfg_unresolved(fs: Seq<crate::config::FeatureConfig>) -> bool {
    exists|v: int, k: int|
        0 <= v < fs.len() && 0 <= k < cfg_sources(fs[v]).len() && !is_base_id(
            cfg_sources(fs[v])[k],
        ) && (forall|u: int| 0 <= u < fs.len() ==> cfg_id(fs[u]) != cfg_sources(fs[v])[k])
}

/// The configuration-level dependency edge.
pub open spec fn cfg_edge(fs: Seq<crate::config::FeatureConfig>, u: int, v: int) -> bool {
    &&& 0 <= u < fs.len()
    &&& 0 <= v < fs.len()
    &&& exists|k: int|
        0 <= k < cfg_sources(fs[v]).len() && !is_base_id(cfg_sources(fs[v])[k]) && cfg_sources(
            fs[v],
        )[k] == cfg_id(fs[u])
}

/// A topological order of the configurations.
pub open spec fn cfg_valid_order(fs: Seq<crate::config::FeatureConfig>, o: Seq<usize>) -> bool {
    &&& o.len() == fs.len()
    &&& forall|a: int| 0 <= a < o.len() ==> (o[a] as int) < fs.len()
    &&& forall|a: int, b: int| 0 <= a < b < o.len() ==> o[a] != o[b]
    &&& forall|v: usize| (v as int) < fs.len() ==> o.contains(v)
    &&& forall|a: int, b: int|
        0 <= a < o.len() && 0 <= b < o.len() && cfg_edge(fs, o[a] as int, o[b] as int) ==> a < b
}

/// The configured graph is acyclic.
pub open spec fn cfg_acyclic(fs: Seq<crate::config::FeatureConfig>) -> bool {
    exists|o: Seq<usize>| cfg_valid_order(fs, o)
}

/// Nodes built from configurations carry the same identifiers, sources and
/// edges, so uniqueness, resolution and acyclicity transfer.
pub proof fn lemma_cfg_node_transfer(ns: Seq<FeatureType>, fs: Seq<crate::config::FeatureConfig>)
    requires
        ns.len() == fs.len(),
        forall|i: int| 0 <= i < ns.len() ==> node_matches(ns[i], fs[i]),
    ensures
        nodes_unique(ns) <==> !cfg_dup(fs),
        sources_resolved(ns) <==> !cfg_unresolved(fs),
        forall|u: int, v: int| node_edge(ns, u, v) <==> cfg_edge(fs, u, v),
        node_acyclic(ns) <==> cfg_acyclic(fs),
{
    assert forall|u: int, v: int| node_edge(ns, u, v) <==> cfg_edge(fs, u, v) by {
        if node_edge(ns, u, v) {
            let k = choose|k: int|
                0 <= k < node_sources(ns[v]).len() && !is_base_id(node_sources(ns[v])[k])
                    && node_sources(ns[v])[k] == node_id(ns[u]);
            assert(cfg_sources(fs[v])[k] == node_sources(ns[v])[k]);
            assert(cfg_edge(fs, u, v));
        }
        if cfg_edge(fs, u, v) {
            let k = choose|k: int|
                0 <= k < cfg_sources(fs[v]).len() && !is_base_id(cfg_sources(fs[v])[k])
                    && cfg_sources(fs[v])[k] == cfg_id(fs[u]);
            assert(node_sources(ns[v])[k] == cfg_sources(fs[v])[k]);
            assert(node_edge(ns, u, v));
        }
    }
    if node_acyclic(ns) {
        let o = choose|o: Seq<usize>| node_valid_order(ns, o);
        assert(cfg_valid_order(fs, o));
        assert(cfg_acyclic(fs));
    }
    if cfg_acyclic(fs) {
        let o = choose|o: Seq<usize>| cfg_valid_order(fs, o);
        assert(node_valid_order(ns, o));
        assert(node_acyclic(ns));
    }
    if !nodes_unique(ns) {
        let (i, j) = choose|i: int, j: int|
            0 <= i < j < ns.len() && node_id(ns[i]) == node_id(ns[j]);
        assert(cfg_id(fs[i]) == cfg_id(fs[j]));
        assert(cfg_dup(fs));
    }
    if cfg_dup(fs) {
        let (i, j) = choose|i: int, j: int|
            0 <= i < j < fs.len() && cfg_id(fs[i]) == cfg_id(fs[j]);
        assert(node_id(ns[i]) == node_id(ns[j]));
        assert(!nodes_unique(ns));
    }
    if cfg_unresolved(fs) {
        let (v, k) = choose|v: int, k: int|
            0 <= v < fs.len() && 0 <= k < cfg_sources(fs[v]).len() && !is_base_id(
                cfg_sources(fs[v])[k],
            ) && (forall|u: int| 0 <= u < fs.len() ==> cfg_id(fs[u]) != cfg_sources(fs[v])[k]);
        assert(node_sources(ns[v])[k] == cfg_sources(fs[v])[k]);
        assert forall|u: int| 0 <= u < ns.len() implies node_id(ns[u]) != node_sources(
            ns[v],
        )[k] by {
            assert(cfg_id(fs[u]) != cfg_sources(fs[v])[k]);
        }
        assert(!sources_resolved(ns));
    }
    if !sources_resolved(ns) {
        let (v, k) = choose|v: int, k: int|
            0 <= v < ns.len() && 0 <= k < node_sources(ns[v]).len() && !is_base_id(
                node_sources(ns[v])[k],
            ) && (forall|u: int|
                !(0 <= u < ns.len() && node_id(ns[u]) == node_sources(ns[v])[k]));
        assert(cfg_sources(fs[v])[k] == node_sources(ns[v])[k]);
        assert forall|u: int| 0 <= u < fs.len() implies cfg_id(fs[u]) != cfg_sources(
            fs[v],
        )[k] by {
            assert(!(0 <= u < ns.len() && node_id(ns[u]) == node_sources(ns[v])[k]));
        }
        assert(cfg_unresolved(fs));
    }
}

// ---------------------------------------------------------------------------
// Topological sorting
// ---------------------------------------------------------------------------

/// Whether every producer feeding node `v` is already done.
fn is_ready(nodes: &Vec<FeatureType>, done: &Vec<bool>, v: usize) -> (r: bool)
    requires
        (v as int) < nodes@.len(),
        done@.len() == nodes@.len(),
    ensures
        r ==> forall|u: int| node_edge(nodes@, u, v as int) ==> done@[u],
        !r ==> exists|u: int| node_edge(nodes@, u, v as int) && !done@[u],
{
    let srcs = nodes[v].sources();
    let m = srcs.len();
    let mut k: usize = 0;
    while k < m
        invariant
            0 <= k <= m,
            m == srcs@.len(),
            (v as int) < nodes@.len(),
            done@.len() == nodes@.len(),
            srcs@.map_values(|s: String| s@) == node_sources(nodes@[v as int]),
            forall|kk: int, u: int|
                0 <= kk < k && 0 <= u < nodes@.len() && !is_base_id(
                    node_sources(nodes@[v as int])[kk],
                ) && node_id(nodes@[u]) == node_sources(nodes@[v as int])[kk] ==> done@[u],
        decreases m - k,
    {
        let kind = crate::store::base_kind(&srcs[k]);
        proof {
            assert(node_sources(nodes@[v as int])[k as int] == srcs@[k as int]@);
        }
        match kind {
            crate::store::BaseKind::NotBase => {
                proof {
                    assert(!is_base_id(node_sources(nodes@[v as int])[k as int]));
                }
                let mut u: usize = 0;
                while u < nodes.len()
                    invariant
                        0 <= u <= nodes@.len(),
                        (v as int) < nodes@.len(),
                        (k as int) < srcs@.len(),
                        done@.len() == nodes@.len(),
                        srcs@.map_values(|s: String| s@) == node_sources(nodes@[v as int]),
                        !is_base_id(node_sources(nodes@[v as int])[k as int]),
                        node_sources(nodes@[v as int])[k as int] == srcs@[k as int]@,
                        forall|uu: int|
                            0 <= uu < u && node_id(nodes@[uu]) == srcs@[k as int]@
                                ==> done@[uu],
                    decreases nodes@.len() - u,
                {
                    if *nodes[u].id() == srcs[k] && !done[u] {
                        proof {
                            assert(node_id(nodes@[u as int]) == srcs@[k as int]@);
                            assert(node_sources(nodes@[v as int])[k as int] == srcs@[k as int]@);
                            assert((k as int) < node_sources(nodes@[v as int]).len()
                                && !is_base_id(node_sources(nodes@[v as int])[k as int])
                                && node_sources(nodes@[v as int])[k as int] == node_id(
                                nodes@[u as int],
                            ));
                            assert(node_edge(nodes@, u as int, v as int));
                        }
                        return false;
                    }
                    u += 1;
                }
            },
            _ => {},
        }
        k += 1;
    }
    proof {
        assert forall|u: int| node_edge(nodes@, u, v as int) implies done@[u] by {
            let kk = choose|kk: int|
                0 <= kk < node_sources(nodes@[v as int]).len() && !is_base_id(
                    node_sources(nodes@[v as int])[kk],
                ) && node_sources(nodes@[v as int])[kk] == node_id(nodes@[u]);
        }
    }
    true
}

/// The first not-done node all of whose producers are done.
fn find_ready(nodes: &Vec<FeatureType>, done: &Vec<bool>) -> (r: Option<usize>)
    requires
        done@.len() == nodes@.len(),
    ensures
        match r {
            Some(v) => (v as int) < nodes@.len() && !done@[v as int] && (forall|u: int|
                node_edge(nodes@, u, v as int) ==> done@[u]) && first_ready_from(
                nodes@,
                done@,
                0,
            ) == Some(v as int),
            None => (forall|v: int|
                0 <= v < nodes@.len() && !(#[trigger] done@[v]) ==> exists|u: int|
                    node_edge(nodes@, u, v) && !done@[u]) && first_ready_from(
                nodes@,
                done@,
                0,
            ) is None,
        },
{
    let mut v: usize = 0;
    while v < nodes.len()
        invariant
            0 <= v <= nodes@.len(),
            done@.len() == nodes@.len(),
            forall|w: int|
                0 <= w < v && !(#[trigger] done@[w]) ==> exists|u: int|
                    node_edge(nodes@, u, w) && !done@[u],
            first_ready_from(nodes@, done@, 0) == first_ready_from(nodes@, done@, v as int),
        decreases nodes@.len() - v,
    {
        if !done[v] && is_ready(nodes, done, v) {
            proof {
                assert(first_ready_from(nodes@, done@, v as int) == Some(v as int));
            }
            return Some(v);
        }
        proof {
            if !done[v as int] {
                let u = choose|u: int| node_edge(nodes@, u, v as int) && !done@[u];
                assert(!(forall|u2: int| node_edge(nodes@, u2, v as int) ==> done@[u2]));
            }
            assert(first_ready_from(nodes@, done@, v as int) == first_ready_from(
                nodes@,
                done@,
                v as int + 1,
            ));
        }
        v += 1;
    }
    None
}

/// If some node remains and every remaining node has a remaining producer,
/// no topological order exists.
#[verifier::rlimit(100)]
proof fn lemma_prefix_done(ns: Seq<FeatureType>, done: Seq<bool>, o: Seq<usize>, m: int)
    requires
        done.len() == ns.len(),
        ns.len() <= usize::MAX as int,
        node_valid_order(ns, o),
        forall|v: int|
            0 <= v < ns.len() && !(#[trigger] done[v]) ==> exists|u: int|
                node_edge(ns, u, v) && !done[u],
        0 <= m < o.len(),
    ensures
        done[o[m] as int],
    decreases m,
{
    if !done[o[m] as int] {
        assert((o[m] as int) < ns.len());
        assert(exists|u: int| node_edge(ns, u, o[m] as int) && !done[u]);
        let u = choose|u: int| node_edge(ns, u, o[m] as int) && !done[u];
        assert(u as usize as int == u);
        assert(o.contains(u as usize));
        let a = choose|a: int| 0 <= a < o.len() && o[a] == u as usize;
        assert(o[a] as int == u);
        assert(node_edge(ns, o[a] as int, o[m] as int));
        assert(a < m);
        lemma_prefix_done(ns, done, o, a);
        assert(false);
    }
}

/// A stalled scan witnesses a cycle.
#[verifier::rlimit(100)]
proof fn lemma_stall_not_acyclic(ns: Seq<FeatureType>, done: Seq<bool>)
    requires
        done.len() == ns.len(),
        ns.len() <= usize::MAX as int,
        exists|v: int| 0 <= v < ns.len() && !done[v],
        forall|v: int|
            0 <= v < ns.len() && !(#[trigger] done[v]) ==> exists|u: int|
                node_edge(ns, u, v) && !done[u],
    ensures
        !node_acyclic(ns),
{
    if node_acyclic(ns) {
        let o = choose|o: Seq<usize>| node_valid_order(ns, o);
        let v = choose|v: int| 0 <= v < ns.len() && !done[v];
        assert(v as usize as int == v);
        assert(o.contains(v as usize));
        let a = choose|a: int| 0 <= a < o.len() && o[a] == v as usize;
        assert(!done[o[a] as int]);
        lemma_prefix_done(ns, done, o, a);
        assert(false);
    }
}

/// Compute a topological order of the nodes, or report that none exists.
fn toposort(nodes: &Vec<FeatureType>) -> (r: Option<Vec<usize>>)
    ensures
        match r {
            Some(o) => node_valid_order(nodes@, o@) && spec_topo_order(nodes@) == Some(o@),
            None => !node_acyclic(nodes@),
        },
{
    let n = nodes.len();
    let mut done: Vec<bool> = Vec::new();
    let mut f: usize = 0;
    while f < n
        invariant
            0 <= f <= n,
            done@.len() == f,
            forall|i: int| 0 <= i < f ==> !done@[i],
        decreases n - f,
    {
        done.push(false);
        f += 1;
    }
    let mut order: Vec<usize> = Vec::new();
    let ghost mut done_set: Set<int> = Set::empty();
    proof {
        assert(done_set.finite());
        assert(done_set.len() == 0);
        assert(done@ =~= Seq::new(nodes@.len(), |i: int| false));
        match greedy_order(nodes@, done@, (n - order@.len()) as nat) {
            None => {},
            Some(rest) => {
                assert(order@ + rest =~= rest);
            },
        }
    }
    while order.len() < n
        invariant
            n == nodes@.len(),
            done@.len() == n,
            order@.len() <= n,
            forall|a: int| 0 <= a < order@.len() ==> (order@[a] as int) < n,
            forall|a: int, b: int| 0 <= a < b < order@.len() ==> order@[a] != order@[b],
            forall|v: int|
                0 <= v < n ==> (done@[v] <==> exists|a: int|
                    0 <= a < order@.len() && order@[a] as int == v),
            done_set.finite(),
            done_set.len() == order@.len(),
            forall|v: int| done_set.contains(v) <==> (0 <= v < n && done@[v]),
            forall|b: int, u: int|
                0 <= b < order@.len() && node_edge(nodes@, u, order@[b] as int) ==> exists|a: int|
                    0 <= a < b && order@[a] as int == u,
            spec_topo_order(nodes@) == match greedy_order(
                nodes@,
                done@,
                (n - order@.len()) as nat,
            ) {
                None => None::<Seq<usize>>,
                Some(rest) => Some(order@ + rest),
            },
        decreases n - order@.len(),
    {
        let found = find_ready(nodes, &done);
        match found {
            None => {
                proof {
                    assert(done_set.subset_of(set_int_range(0, n as int)));
                    lemma_int_range(0, n as int);
                    lemma_len_subset(done_set, set_int_range(0, n as int));
                    if forall|v: int| 0 <= v < n ==> done@[v] {
                        assert(set_int_range(0, n as int).subset_of(done_set));
                        lemma_len_subset(set_int_range(0, n as int), done_set);
                        assert(false);
                    }
                    lemma_stall_not_acyclic(nodes@, done@);
                }
                return None;
            },
            Some(v) => {
                let ghost done0 = done@;
                let ghost order0 = order@;
                let _ = done.remove(v);
                done.insert(v, true);
                proof {
                    assert(done@ =~= done0.update(v as int, true));
                    done_set = done_set.insert(v as int);
                }
                order.push(v);
                proof {
                    assert(order@ =~= order0.push(v));
                    let rem0 = (n - order0.len()) as nat;
                    assert(rem0 > 0);
                    assert(first_ready_from(nodes@, done0, 0) == Some(v as int));
                    assert(done0.update(v as int, true) == done@);
                    assert(greedy_order(nodes@, done0, rem0) == match greedy_order(
                        nodes@,
                        done@,
                        (rem0 - 1) as nat,
                    ) {
                        None => None::<Seq<usize>>,
                        Some(rest) => Some(seq![v] + rest),
                    });
                    match greedy_order(nodes@, done@, (rem0 - 1) as nat) {
                        None => {},
                        Some(rest2) => {
                            assert(order0 + (seq![v] + rest2) =~= order@ + rest2);
                        },
                    }
                    assert forall|w: int|
                        0 <= w < n implies (done@[w] <==> exists|a: int|
                            0 <= a < order@.len() && order@[a] as int == w) by {
                        if w == v as int {
                            assert(order@[order@.len() - 1] as int == w);
                        } else {
                            if done@[w] {
                                assert(done0[w]);
                                let a = choose|a: int|
                                    0 <= a < order0.len() && order0[a] as int == w;
                                assert(order@[a] as int == w);
                            }
                            if exists|a: int| 0 <= a < order@.len() && order@[a] as int == w {
                                let a = choose|a: int|
                                    0 <= a < order@.len() && order@[a] as int == w;
                                assert(a < order0.len());
                                assert(order0[a] as int == w);
                                assert(done0[w]);
                            }
                        }
                    }
                    assert forall|b: int, u: int|
                        0 <= b < order@.len() && node_edge(nodes@, u, order@[b] as int)
                        implies exists|a: int| 0 <= a < b && order@[a] as int == u by {
                        if b < order@.len() - 1 {
                            assert(order@[b] == order0[b]);
                            assert(node_edge(nodes@, u, order0[b] as int));
                            let a = choose|a: int| 0 <= a < b && order0[a] as int == u;
                            assert(order@[a] as int == u);
                        } else {
                            assert(order@[b] == v);
                            assert(done0[u]);
                            let a = choose|a: int|
                                0 <= a < order0.len() && order0[a] as int == u;
                            assert(order@[a] as int == u);
                        }
                    }
                }
            },
        }
    }
    proof {
        assert(done_set.subset_of(set_int_range(0, n as int)));
        lemma_int_range(0, n as int);
        lemma_subset_equality(done_set, set_int_range(0, n as int));
        assert forall|v: usize| (v as int) < n implies order@.contains(v) by {
            assert(set_int_range(0, n as int).contains(v as int));
            assert(done_set.contains(v as int));
            assert(done@[v as int]);
            let a = choose|a: int| 0 <= a < order@.len() && order@[a] as int == v as int;
            assert(order@[a] == v);
        }
        assert forall|a: int, b: int|
            0 <= a < order@.len() && 0 <= b < order@.len() && node_edge(
                nodes@,
                order@[a] as int,
                order@[b] as int,
            ) implies a < b by {
            let aa = choose|aa: int| 0 <= aa < b && order@[aa] as int == order@[a] as int;
            if a != aa {
                assert(order@[a] != order@[aa]);
            }
        }
        assert(node_valid_order(nodes@, order@));
        assert(greedy_order(nodes@, done@, 0) == Some(Seq::<usize>::empty()));
        assert(order@ + Seq::<usize>::empty() =~= order@);
        assert(spec_topo_order(nodes@) == Some(order@));
    }
    Some(order)
}

// ---------------------------------------------------------------------------
// The pipeline
// ---------------------------------------------------------------------------

/// The engine: catalog nodes and a topological evaluation order, both
/// immutable after construction.
pub struct Pipeline {
    pub nodes: Vec<FeatureType>,
    pub order: Vec<usize>,
}

/// The response the engine assembles for a node: one query per request.
pub open spec fn req_resp(
    s: StateM,
    ik: IKey,
    t: u64,
    reqs: Seq<(Seq<char>, QueryType)>,
) -> Seq<(Seq<char>, Seq<Value>)> {
    reqs.map_values(|r: (Seq<char>, QueryType)| (r.0, read_series_spec(s, ik, r.0, t, r.1)))
}

/// One evaluation step: query, compute, and write back on success.
pub open spec fn step_once(
    ns: Seq<FeatureType>,
    s: StateM,
    ik: IKey,
    t: u64,
    idx: int,
) -> (StateM, Option<(Seq<char>, Value)>) {
    let resp = req_resp(s, ik, t, node_requests(ns[idx]));
    match node_calc(ns[idx], resp) {
        Some(p) => (
            StateM { market: s.market, feats: feats_add(s.feats, FKey { ik, fid: p.0 }, t, p.1) },
            Some(p),
        ),
        None => (s, None),
    }
}

/// The store after the first `k` steps of the evaluation order.
pub open spec fn run_state(
    ns: Seq<FeatureType>,
    order: Seq<usize>,
    s0: StateM,
    ik: IKey,
    t: u64,
    k: int,
) -> StateM
    decreases k,
{
    if k <= 0 {
        s0
    } else {
        step_once(ns, run_state(ns, order, s0, ik, t, k - 1), ik, t, order[k - 1] as int).0
    }
}

/// The outputs emitted by the first `k` steps, in evaluation order.
pub open spec fn run_batch(
    ns: Seq<FeatureType>,
    order: Seq<usize>,
    s0: StateM,
    ik: IKey,
    t: u64,
    k: int,
) -> Seq<(Seq<char>, Value)>
    decreases k,
{
    if k <= 0 {
        Seq::empty()
    } else {
        let prev = run_batch(ns, order, s0, ik, t, k - 1);
        match step_once(ns, run_state(ns, order, s0, ik, t, k - 1), ik, t, order[k - 1] as int).1 {
            Some(p) => prev.push(p),
            None => prev,
        }
    }
}

/// The (output, value) pairs a batch of feature events carries.
pub open spec fn events_model(s: Seq<FeatureEvent>) -> Seq<(Seq<char>, Value)> {
    s.map_values(|e: FeatureEvent| (e.id@, e.value))
}

impl Pipeline {
    /// The engine's invariant: unique identifiers, resolved sources, and a
    /// persisted topological order.
    pub open spec fn wf(self) -> bool {
        &&& nodes_unique(self.nodes@)
        &&& sources_resolved(self.nodes@)
        &&& node_valid_order(self.nodes@, self.order@)
    }

    /// Build the engine from a configuration: one node per feature, edges
    /// derived from declared sources, a topological order computed once.
    /// Refuses duplicate identifiers, unresolved sources, and cycles, in
    /// that order of precedence.
    #[verifier::loop_isolation(false)]
    pub fn from_config(config: &PipelineConfig) -> (r: Result<Pipeline, ConfigError>)
        ensures
            r is Ok <==> (!cfg_dup(config.features@) && !cfg_unresolved(config.features@)
                && cfg_acyclic(config.features@)),
            r == Err::<Pipeline, ConfigError>(ConfigError::DuplicateNode) <==> cfg_dup(
                config.features@,
            ),
            r == Err::<Pipeline, ConfigError>(ConfigError::UnresolvedSource) <==> (!cfg_dup(
                config.features@,
            ) && cfg_unresolved(config.features@)),
            r == Err::<Pipeline, ConfigError>(ConfigError::Cycle) <==> (!cfg_dup(
                config.features@,
            ) && !cfg_unresolved(config.features@) && !cfg_acyclic(config.features@)),
            match r {
                Ok(p) => p.wf() && p.nodes@.len() == config.features@.len() && (forall|i: int|
                    0 <= i < p.nodes@.len() ==> node_matches(p.nodes@[i], config.features@[i]))
                    && spec_topo_order(p.nodes@) == Some(p.order@),
                Err(_) => true,
            },
    {
        let nodes = FeatureFactory::from_config(&config.features);
        proof {
            lemma_cfg_node_transfer(nodes@, config.features@);
        }
        let n = nodes.len();
        // Duplicate node identifiers.
        let mut i: usize = 0;
        while i < n
            invariant
                n == nodes@.len(),
                0 <= i <= n,
                forall|a: int, b: int| 0 <= a < b < n && a < i ==> node_id(nodes@[a]) != node_id(
                    nodes@[b],
                ),
            decreases n - i,
        {
            let mut j: usize = i + 1;
            while j < n
                invariant
                    n == nodes@.len(),
                    0 <= i < j <= n,
                    forall|b: int| (i as int) < b < j ==> node_id(nodes@[i as int]) != node_id(
                        nodes@[b],
                    ),
                decreases n - j,
            {
                if *nodes[i].id() == *nodes[j].id() {
                    proof {
                        assert(node_id(nodes@[i as int]) == node_id(nodes@[j as int]));
                        assert(!nodes_unique(nodes@));
                    }
                    return Err(ConfigError::DuplicateNode);
                }
                j += 1;
            }
            i += 1;
        }
        proof {
            assert(nodes_unique(nodes@));
        }
        // Source resolution.
        let mut v: usize = 0;
        while v < n
            invariant
                n == nodes@.len(),
                0 <= v <= n,
                forall|w: int, k: int|
                    0 <= w < v && 0 <= k < node_sources(nodes@[w]).len() && !is_base_id(
                        node_sources(nodes@[w])[k],
                    ) ==> exists|u: int|
                        0 <= u < n && node_id(nodes@[u]) == node_sources(nodes@[w])[k],
            decreases n - v,
        {
            let srcs = nodes[v].sources();
            let m = srcs.len();
            let mut k: usize = 0;
            while k < m
                invariant
                    n == nodes@.len(),
                    (v as int) < n,
                    m == srcs@.len(),
                    0 <= k <= m,
                    srcs@.map_values(|s: String| s@) == node_sources(nodes@[v as int]),
                    forall|kk: int|
                        0 <= kk < k && !is_base_id(node_sources(nodes@[v as int])[kk])
                            ==> exists|u: int|
                            0 <= u < n && node_id(nodes@[u]) == node_sources(
                                nodes@[v as int],
                            )[kk],
                decreases m - k,
            {
                let kind = crate::store::base_kind(&srcs[k]);
                proof {
                    assert(node_sources(nodes@[v as int])[k as int] == srcs@[k as int]@);
                }
                match kind {
                    crate::store::BaseKind::NotBase => {
                        let mut u: usize = 0;
                        let mut found: bool = false;
                        while u < n
                            invariant
                                n == nodes@.len(),
                                (v as int) < n,
                                (k as int) < srcs@.len(),
                                0 <= u <= n,
                                srcs@.map_values(|s: String| s@) == node_sources(
                                    nodes@[v as int],
                                ),
                                node_sources(nodes@[v as int])[k as int] == srcs@[k as int]@,
                                found ==> exists|uu: int|
                                    0 <= uu < n && node_id(nodes@[uu]) == node_sources(
                                        nodes@[v as int],
                                    )[k as int],
                                !found ==> forall|uu: int|
                                    0 <= uu < u ==> node_id(nodes@[uu]) != node_sources(
                                        nodes@[v as int],
                                    )[k as int],
                            decreases n - u,
                        {
                            if *nodes[u].id() == srcs[k] {
                                proof {
                                    assert(node_id(nodes@[u as int]) == node_sources(
                                        nodes@[v as int],
                                    )[k as int]);
                                }
                                found = true;
                            }
                            u += 1;
                        }
                        if !found {
                            proof {
                                assert(!is_base_id(node_sources(nodes@[v as int])[k as int]));
                                assert(!sources_resolved(nodes@));
                            }
                            return Err(ConfigError::UnresolvedSource);
                        }
                    },
                    _ => {},
                }
                k += 1;
            }
            v += 1;
        }
        proof {
            assert(sources_resolved(nodes@));
        }
        // Topological order; cycles are refused.
        match toposort(&nodes) {
            None => Err(ConfigError::Cycle),
            Some(order) => Ok(Pipeline { nodes, order }),
        }
    }

    /// Evaluate every node for one (instrument, event-time) trigger, in the
    /// persisted topological order: query the store, compute, write each
    /// produced value back, and return the batch of produced events.
    #[verifier::loop_isolation(false)]
    pub fn calculate(&self, state: &mut State, instrument: &Instrument, event_time: u64) -> (r:
        Vec<FeatureEvent>)
        requires
            self.wf(),
            old(state).wf(),
        ensures
            final(state)@ == run_state(
                self.nodes@,
                self.order@,
                old(state)@,
                ikey(*instrument),
                event_time,
                self.order@.len() as int,
            ),
            final(state).wf(),
            events_model(r@) == run_batch(
                self.nodes@,
                self.order@,
                old(state)@,
                ikey(*instrument),
                event_time,
                self.order@.len() as int,
            ),
            forall|i: int|
                0 <= i < r@.len() ==> ikey(r@[i].instrument) == ikey(*instrument)
                    && r@[i].event_time == event_time && val_wf(r@[i].value),
    {
        let ghost ns = self.nodes@;
        let ghost ord = self.order@;
        let ghost s0 = old(state)@;
        let ghost ik = ikey(*instrument);
        let mut batch: Vec<FeatureEvent> = Vec::new();
        let mut k: usize = 0;
        proof {
            assert(events_model(batch@) =~= run_batch(ns, ord, s0, ik, event_time, 0));
        }
        while k < self.order.len()
            invariant
                self.wf(),
                state.wf(),
                ns == self.nodes@,
                ord == self.order@,
                ik == ikey(*instrument),
                0 <= k <= ord.len(),
                state@ == run_state(ns, ord, s0, ik, event_time, k as int),
                events_model(batch@) == run_batch(ns, ord, s0, ik, event_time, k as int),
                forall|i: int|
                    0 <= i < batch@.len() ==> ikey(batch@[i].instrument) == ik
                        && batch@[i].event_time == event_time && val_wf(batch@[i].value),
            decreases ord.len() - k,
        {
            let idx = self.order[k];
            proof {
                assert((ord[k as int] as int) < ns.len());
            }
            let node = &self.nodes[idx];
            let reqs = node.data();
            let ghost sk = state@;
            let mut resp = FeatureDataResponse::new();
            let mut q: usize = 0;
            proof {
                assert(resp_model(resp.data@) =~= req_resp(
                    sk,
                    ik,
                    event_time,
                    node_requests(ns[idx as int]).take(0),
                ));
            }
            while q < reqs.len()
                invariant
                    0 <= q <= reqs@.len(),
                    state.wf(),
                    state@ == sk,
                    ik == ikey(*instrument),
                    (idx as int) < ns.len(),
                    node == &self.nodes@[idx as int],
                    ns == self.nodes@,
                    reqs@.map_values(|x: FeatureDataRequest| (x.feature_id@, x.query))
                        == node_requests(ns[idx as int]),
                    resp_model(resp.data@) == req_resp(
                        sk,
                        ik,
                        event_time,
                        node_requests(ns[idx as int]).take(q as int),
                    ),
                    crate::features::resp_wf(resp_model(resp.data@)),
                decreases reqs@.len() - q,
            {
                let vals = state.read_series(
                    instrument,
                    &reqs[q].feature_id,
                    event_time,
                    reqs[q].query,
                );
                let ghost dpre = resp.data@;
                resp.data.push((reqs[q].feature_id.clone(), vals));
                proof {
                    let nr = node_requests(ns[idx as int]);
                    assert(nr[q as int] == (reqs@[q as int].feature_id@, reqs@[q as int].query));
                    assert(vals@ == read_series_spec(
                        sk,
                        ik,
                        reqs@[q as int].feature_id@,
                        event_time,
                        reqs@[q as int].query,
                    ));
                    assert(resp_model(resp.data@) =~= resp_model(dpre).push(
                        (reqs@[q as int].feature_id@, vals@),
                    ));
                    assert(req_resp(sk, ik, event_time, nr.take(q as int + 1)) =~= req_resp(
                        sk,
                        ik,
                        event_time,
                        nr.take(q as int),
                    ).push(
                        (
                            reqs@[q as int].feature_id@,
                            read_series_spec(
                                sk,
                                ik,
                                reqs@[q as int].feature_id@,
                                event_time,
                                reqs@[q as int].query,
                            ),
                        ),
                    ));
                    assert(resp_model(resp.data@) == req_resp(
                        sk,
                        ik,
                        event_time,
                        nr.take(q as int + 1),
                    ));
                    let rm = resp_model(resp.data@);
                    assert forall|i: int, j: int|
                        0 <= i < rm.len() && 0 <= j < rm[i].1.len() implies val_wf(
                        rm[i].1[j],
                    ) by {
                        if i < rm.len() - 1 {
                            assert(rm[i] == resp_model(dpre)[i]);
                        } else {
                            assert(rm[i].1 == vals@);
                        }
                    }
                }
                q += 1;
            }
            proof {
                assert(node_requests(ns[idx as int]).take(reqs@.len() as int) =~= node_requests(
                    ns[idx as int],
                ));
                assert(resp_model(resp.data@) == req_resp(
                    sk,
                    ik,
                    event_time,
                    node_requests(ns[idx as int]),
                ));
            }
            let out = node.calculate(&resp);
            match out {
                Ok(pair) => {
                    let (fid, value) = pair;
                    let event = FeatureEvent::new(fid, instrument.clone(), event_time, value);
                    state.add_feature(event.clone());
                    batch.push(event);
                    proof {
                        assert(state@.feats == feats_add(
                            sk.feats,
                            FKey { ik, fid: batch@.last().id@ },
                            event_time,
                            batch@.last().value,
                        ));
                        assert(state@ == run_state(ns, ord, s0, ik, event_time, k as int + 1));
                        assert(events_model(batch@) =~= run_batch(
                            ns,
                            ord,
                            s0,
                            ik,
                            event_time,
                            k as int + 1,
                        ));
                    }
                },
                Err(_) => {
                    proof {
                        assert(state@ == run_state(ns, ord, s0, ik, event_time, k as int + 1));
                        assert(events_model(batch@) =~= run_batch(
                            ns,
                            ord,
                            s0,
                            ik,
                            event_time,
                            k as int + 1,
                        ));
                    }
                },
            }
            k += 1;
        }
        batch
    }
}

} // verus!
