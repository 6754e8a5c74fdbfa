//! The engine's global laws, proved over the evaluation model.

use vstd::prelude::*;

use crate::config::FeatureConfig;
use crate::features::{
    node_calc, node_matches, node_output, node_required_nonempty, node_requests, FeatureType,
};
use crate::models::IKey;
use crate::num::Value;
use crate::pipeline::{
    cfg_edge, first_ready_from, greedy_order, lemma_cfg_node_transfer, node_edge, req_resp,
    run_batch, run_state, spec_topo_order, step_once, Pipeline,
};
use crate::store::{assoc_series, insert_entry, FeatureEntry, FKey, StateM};

verus! {

/// Determinism: identical store contents and identical trigger inputs give
/// the identical state and the identical set of emitted outputs.
pub proof fn lemma_calculate_deterministic(
    ns: Seq<FeatureType>,
    ord: Seq<usize>,
    s1: StateM,
    s2: StateM,
    ik: IKey,
    t: u64,
    k: int,
)
    requires
        s1 == s2,
    ensures
        run_state(ns, ord, s1, ik, t, k) == run_state(ns, ord, s2, ik, t, k),
        run_batch(ns, ord, s1, ik, t, k) == run_batch(ns, ord, s2, ik, t, k),
{
}

/// Bucket keys are pairwise distinct.
pub open spec fn feats_keys_unique(s: Seq<(FKey, Seq<FeatureEntry>)>) -> bool {
    forall|i: int, j: int| 0 <= i < j < s.len() ==> s[i].0 != s[j].0
}

/// One evaluation step keeps bucket keys distinct.
proof fn lemma_step_unique(ns: Seq<FeatureType>, s: StateM, ik: IKey, t: u64, idx: int)
    requires
        feats_keys_unique(s.feats),
    ensures
        feats_keys_unique(step_once(ns, s, ik, t, idx).0.feats),
{
    let resp = req_resp(s, ik, t, node_requests(ns[idx]));
    match node_calc(ns[idx], resp) {
        Some(p) => {
            let k2 = FKey { ik, fid: p.0 };
            crate::store::lemma_assoc_set(
                s.feats,
                k2,
                insert_entry(assoc_series(s.feats, k2), t, p.1),
            );
        },
        None => {},
    }
}

/// Every state along the run keeps bucket keys distinct.
proof fn lemma_run_state_unique(
    ns: Seq<FeatureType>,
    ord: Seq<usize>,
    s0: StateM,
    ik: IKey,
    t: u64,
    k: int,
)
    requires
        feats_keys_unique(s0.feats),
        k >= 0,
    ensures
        feats_keys_unique(run_state(ns, ord, s0, ik, t, k).feats),
    decreases k,
{
    if k > 0 {
        lemma_run_state_unique(ns, ord, s0, ik, t, k - 1);
        lemma_step_unique(ns, run_state(ns, ord, s0, ik, t, k - 1), ik, t, ord[k - 1] as int);
    }
}

/// Inserting never removes an entry from a bucket.
proof fn lemma_insert_entry_keeps(s: Seq<FeatureEntry>, ts: u64, v: Value, e: FeatureEntry)
    requires
        s.contains(e),
    ensures
        insert_entry(s, ts, v).contains(e),
{
    let i = choose|i: int| 0 <= i < s.len() && s[i] == e;
    let p = crate::store::insert_pos(s, ts);
    crate::store::lemma_insert_pos(s, ts);
    let s2 = insert_entry(s, ts, v);
    if i < p {
        assert(s2[i] == e);
    } else {
        assert(s2[i + 1] == e);
    }
}

/// One evaluation step never removes an entry from any bucket.
proof fn lemma_step_keeps(
    ns: Seq<FeatureType>,
    s: StateM,
    ik: IKey,
    t: u64,
    idx: int,
    key: FKey,
    e: FeatureEntry,
)
    requires
        feats_keys_unique(s.feats),
        assoc_series(s.feats, key).contains(e),
    ensures
        assoc_series(step_once(ns, s, ik, t, idx).0.feats, key).contains(e),
{
    let resp = req_resp(s, ik, t, node_requests(ns[idx]));
    match node_calc(ns[idx], resp) {
        Some(p) => {
            let k2 = FKey { ik, fid: p.0 };
            crate::store::lemma_assoc_set(
                s.feats,
                k2,
                insert_entry(assoc_series(s.feats, k2), t, p.1),
            );
            if key == k2 {
                lemma_insert_entry_keeps(assoc_series(s.feats, k2), t, p.1, e);
            }
        },
        None => {},
    }
}

/// Store growth: an entry present after `k1` steps is still present after
/// `k2` steps.
pub proof fn lemma_run_state_monotonic(
    ns: Seq<FeatureType>,
    ord: Seq<usize>,
    s0: StateM,
    ik: IKey,
    t: u64,
    k1: int,
    k2: int,
    key: FKey,
    e: FeatureEntry,
)
    requires
        feats_keys_unique(s0.feats),
        0 <= k1 <= k2,
        assoc_series(run_state(ns, ord, s0, ik, t, k1).feats, key).contains(e),
    ensures
        assoc_series(run_state(ns, ord, s0, ik, t, k2).feats, key).contains(e),
    decreases k2 - k1,
{
    if k1 < k2 {
        lemma_run_state_monotonic(ns, ord, s0, ik, t, k1, k2 - 1, key, e);
        lemma_run_state_unique(ns, ord, s0, ik, t, k2 - 1);
        lemma_step_keeps(
            ns,
            run_state(ns, ord, s0, ik, t, k2 - 1),
            ik,
            t,
            ord[k2 - 1] as int,
            key,
            e,
        );
    }
}

/// Topological correctness: for every edge from producer to consumer, the
/// producer runs strictly earlier in the persisted order, and whatever it
/// wrote at the trigger time is in the consumer's bucket view when the
/// consumer queries: its write at step `a` is present in the store state
/// every later step reads from.
pub proof fn lemma_topological_visibility(
    p: Pipeline,
    s0: StateM,
    ik: IKey,
    t: u64,
    a: int,
    b: int,
)
    requires
        p.wf(),
        feats_keys_unique(s0.feats),
        0 <= a < p.order@.len(),
        0 <= b < p.order@.len(),
        node_edge(p.nodes@, p.order@[a] as int, p.order@[b] as int),
    ensures
        a < b,
        (step_once(
            p.nodes@,
            run_state(p.nodes@, p.order@, s0, ik, t, a),
            ik,
            t,
            p.order@[a] as int,
        ).1 matches Some(out) ==> exists|e: FeatureEntry|
            assoc_series(
                run_state(p.nodes@, p.order@, s0, ik, t, b).feats,
                FKey { ik, fid: out.0 },
            ).contains(e) && e.ts == t && e.value == out.1),
{
    let ns = p.nodes@;
    let ord = p.order@;
    assert(a < b);
    let sa = run_state(ns, ord, s0, ik, t, a);
    match step_once(ns, sa, ik, t, ord[a] as int).1 {
        Some(out) => {
            let key = FKey { ik, fid: out.0 };
            let w0 = assoc_series(sa.feats, key);
            lemma_run_state_unique(ns, ord, s0, ik, t, a);
            crate::store::lemma_assoc_set(sa.feats, key, insert_entry(w0, t, out.1));
            let e = FeatureEntry {
                ts: t,
                tie: crate::store::new_tie(w0, t) as usize,
                value: out.1,
            };
            let pos = crate::store::insert_pos(w0, t);
            crate::store::lemma_insert_pos(w0, t);
            assert(insert_entry(w0, t, out.1)[pos] == e);
            assert(assoc_series(run_state(ns, ord, s0, ik, t, a + 1).feats, key).contains(e));
            lemma_run_state_monotonic(ns, ord, s0, ik, t, a + 1, b, key, e);
        },
        None => {},
    }
}

/// Emitted outputs only accumulate along the run.
proof fn lemma_run_batch_grows(
    ns: Seq<FeatureType>,
    ord: Seq<usize>,
    s0: StateM,
    ik: IKey,
    t: u64,
    k1: int,
    k2: int,
    j: int,
)
    requires
        0 <= k1 <= k2,
        0 <= j < run_batch(ns, ord, s0, ik, t, k1).len(),
    ensures
        j < run_batch(ns, ord, s0, ik, t, k2).len(),
        run_batch(ns, ord, s0, ik, t, k2)[j] == run_batch(ns, ord, s0, ik, t, k1)[j],
    decreases k2 - k1,
{
    if k1 < k2 {
        lemma_run_batch_grows(ns, ord, s0, ik, t, k1, k2 - 1, j);
    }
}

/// Productivity: a node whose required inputs are non-empty at its turn
/// emits exactly its named output into the batch.
pub proof fn lemma_emits_when_inputs_nonempty(
    p: Pipeline,
    s0: StateM,
    ik: IKey,
    t: u64,
    k: int,
)
    requires
        p.wf(),
        0 <= k < p.order@.len(),
        node_required_nonempty(
            p.nodes@[p.order@[k] as int],
            req_resp(
                run_state(p.nodes@, p.order@, s0, ik, t, k),
                ik,
                t,
                node_requests(p.nodes@[p.order@[k] as int]),
            ),
        ),
    ensures
        exists|j: int|
            0 <= j < run_batch(p.nodes@, p.order@, s0, ik, t, p.order@.len() as int).len()
                && #[trigger] run_batch(p.nodes@, p.order@, s0, ik, t, p.order@.len() as int)[j].0
                == node_output(p.nodes@[p.order@[k] as int]),
{
    let ns = p.nodes@;
    let ord = p.order@;
    let node = ns[ord[k] as int];
    let sk = run_state(ns, ord, s0, ik, t, k);
    let resp = req_resp(sk, ik, t, node_requests(node));
    crate::features::lemma_node_calc_total(node, resp);
    let out = node_calc(node, resp)->Some_0;
    let bk1 = run_batch(ns, ord, s0, ik, t, k + 1);
    assert(bk1.last() == out);
    assert(out.0 == node_output(node));
    lemma_run_batch_grows(ns, ord, s0, ik, t, k + 1, ord.len() as int, bk1.len() - 1);
    assert(run_batch(ns, ord, s0, ik, t, ord.len() as int)[bk1.len() - 1].0 == node_output(
        node,
    ));
}

/// Evaluation writes only feature buckets: the market side never changes.
proof fn lemma_run_keeps_market(
    ns: Seq<FeatureType>,
    ord: Seq<usize>,
    s0: StateM,
    ik: IKey,
    t: u64,
    k: int,
)
    requires
        k >= 0,
    ensures
        run_state(ns, ord, s0, ik, t, k).market == s0.market,
    decreases k,
{
    if k > 0 {
        lemma_run_keeps_market(ns, ord, s0, ik, t, k - 1);
    }
}

/// Every request of every node reads a base series.
pub open spec fn all_requests_base(ns: Seq<FeatureType>) -> bool {
    forall|i: int, k: int|
        0 <= i < ns.len() && 0 <= k < node_requests(ns[i]).len() ==> crate::store::is_base_id(
            #[trigger] node_requests(ns[i])[k].0,
        )
}

/// When every request reads a base series, the emitted batch depends only
/// on the market side of the starting store.
proof fn lemma_batch_from_market(
    ns: Seq<FeatureType>,
    ord: Seq<usize>,
    s1: StateM,
    s2: StateM,
    ik: IKey,
    t: u64,
    k: int,
)
    requires
        s1.market == s2.market,
        all_requests_base(ns),
        forall|a: int| 0 <= a < ord.len() ==> (ord[a] as int) < ns.len(),
        0 <= k <= ord.len(),
    ensures
        run_batch(ns, ord, s1, ik, t, k) == run_batch(ns, ord, s2, ik, t, k),
    decreases k,
{
    if k > 0 {
        lemma_batch_from_market(ns, ord, s1, s2, ik, t, k - 1);
        lemma_run_keeps_market(ns, ord, s1, ik, t, k - 1);
        lemma_run_keeps_market(ns, ord, s2, ik, t, k - 1);
        let idx = ord[k - 1] as int;
        let r1 = run_state(ns, ord, s1, ik, t, k - 1);
        let r2 = run_state(ns, ord, s2, ik, t, k - 1);
        let reqs = node_requests(ns[idx]);
        assert forall|j: int|
            0 <= j < reqs.len() implies req_resp(r1, ik, t, reqs)[j] == req_resp(
            r2,
            ik,
            t,
            reqs,
        )[j] by {
            assert(crate::store::is_base_id(reqs[j].0));
            assert(crate::store::read_series_spec(r1, ik, reqs[j].0, t, reqs[j].1)
                == crate::store::read_series_spec(r2, ik, reqs[j].0, t, reqs[j].1));
        }
        assert(req_resp(r1, ik, t, reqs) =~= req_resp(r2, ik, t, reqs));
        assert(step_once(ns, r1, ik, t, idx).1 == step_once(ns, r2, ik, t, idx).1);
    }
}

/// Idempotence over base inputs: when every node reads only base series,
/// a second run with no intervening ingestion, starting from the store the
/// first run left behind, emits the identical batch.  (A node that reads a
/// derived series with a periods query can see its own first-run writes,
/// so the law is stated for base-reading catalogs.)
pub proof fn lemma_idempotent_on_base_inputs(p: Pipeline, s0: StateM, ik: IKey, t: u64)
    requires
        p.wf(),
        all_requests_base(p.nodes@),
    ensures
        run_batch(
            p.nodes@,
            p.order@,
            run_state(p.nodes@, p.order@, s0, ik, t, p.order@.len() as int),
            ik,
            t,
            p.order@.len() as int,
        ) == run_batch(p.nodes@, p.order@, s0, ik, t, p.order@.len() as int),
{
    let n = p.order@.len() as int;
    lemma_run_keeps_market(p.nodes@, p.order@, s0, ik, t, n);
    lemma_batch_from_market(
        p.nodes@,
        p.order@,
        run_state(p.nodes@, p.order@, s0, ik, t, n),
        s0,
        ik,
        t,
        n,
    );
}

/// Two nodes matching the same configuration compute the same function:
/// same requests, same output, same result on every response.
proof fn lemma_matches_same_calc(
    f1: FeatureType,
    f2: FeatureType,
    c: FeatureConfig,
    resp: Seq<(Seq<char>, Seq<Value>)>,
)
    requires
        node_matches(f1, c),
        node_matches(f2, c),
    ensures
        node_calc(f1, resp) == node_calc(f2, resp),
        node_requests(f1) == node_requests(f2),
        node_output(f1) == node_output(f2),
{
    match c {
        FeatureConfig::SMA(_) => {
            match (f1, f2) {
                (FeatureType::SMA(x1), FeatureType::SMA(x2)) => {
                    assert(x1.input.feature_id@ == x2.input.feature_id@);
                    assert(x1.output@ == x2.output@);
                },
                _ => {
                    assert(false);
                },
            }
        },
        FeatureConfig::EMA(_) => {
            match (f1, f2) {
                (FeatureType::EMA(x1), FeatureType::EMA(x2)) => {
                    assert(x1.input.feature_id@ == x2.input.feature_id@);
                    assert(x1.input.query == x2.input.query);
                    assert(x1.output@ == x2.output@);
                },
                _ => {
                    assert(false);
                },
            }
        },
        FeatureConfig::VWAP(_) => {
            match (f1, f2) {
                (FeatureType::VWAP(x1), FeatureType::VWAP(x2)) => {
                    assert(x1.price_input@ == x2.price_input@);
                    assert(x1.qty_input@ == x2.qty_input@);
                    assert(x1.output@ == x2.output@);
                },
                _ => {
                    assert(false);
                },
            }
        },
        FeatureConfig::Volume(_) => {
            match (f1, f2) {
                (FeatureType::Volume(x1), FeatureType::Volume(x2)) => {
                    assert(x1.qty_input@ == x2.qty_input@);
                    assert(x1.output@ == x2.output@);
                },
                _ => {
                    assert(false);
                },
            }
        },
        FeatureConfig::Spread(_) => {
            match (f1, f2) {
                (FeatureType::Spread(x1), FeatureType::Spread(x2)) => {
                    assert(x1.front@ == x2.front@);
                    assert(x1.back@ == x2.back@);
                    assert(x1.output@ == x2.output@);
                },
                _ => {
                    assert(false);
                },
            }
        },
    }
}

/// Node catalogs matching the same configuration list agree on which node
/// is ready first.
proof fn lemma_first_ready_congruent(
    ns1: Seq<FeatureType>,
    ns2: Seq<FeatureType>,
    fs: Seq<FeatureConfig>,
    done: Seq<bool>,
    v: int,
)
    requires
        ns1.len() == fs.len(),
        ns2.len() == fs.len(),
        forall|i: int| 0 <= i < fs.len() ==> node_matches(ns1[i], fs[i]),
        forall|i: int| 0 <= i < fs.len() ==> node_matches(ns2[i], fs[i]),
        0 <= v <= fs.len(),
    ensures
        first_ready_from(ns1, done, v) == first_ready_from(ns2, done, v),
    decreases fs.len() - v,
{
    lemma_cfg_node_transfer(ns1, fs);
    lemma_cfg_node_transfer(ns2, fs);
    if v < fs.len() {
        assert forall|u: int| node_edge(ns1, u, v) implies node_edge(ns2, u, v) by {
            assert(cfg_edge(fs, u, v));
        }
        assert forall|u: int| node_edge(ns2, u, v) implies node_edge(ns1, u, v) by {
            assert(cfg_edge(fs, u, v));
        }
        lemma_first_ready_congruent(ns1, ns2, fs, done, v + 1);
    }
}

/// Node catalogs matching the same configuration list produce the same
/// canonical order.
proof fn lemma_greedy_congruent(
    ns1: Seq<FeatureType>,
    ns2: Seq<FeatureType>,
    fs: Seq<FeatureConfig>,
    done: Seq<bool>,
    remaining: nat,
)
    requires
        ns1.len() == fs.len(),
        ns2.len() == fs.len(),
        forall|i: int| 0 <= i < fs.len() ==> node_matches(ns1[i], fs[i]),
        forall|i: int| 0 <= i < fs.len() ==> node_matches(ns2[i], fs[i]),
    ensures
        greedy_order(ns1, done, remaining) == greedy_order(ns2, done, remaining),
    decreases remaining,
{
    if remaining > 0 {
        lemma_first_ready_congruent(ns1, ns2, fs, done, 0);
        match first_ready_from(ns1, done, 0) {
            None => {},
            Some(v) => {
                lemma_greedy_congruent(ns1, ns2, fs, done.update(v, true), (remaining - 1) as nat);
            },
        }
    }
}

/// Node catalogs matching the same configuration list evolve the store and
/// emit identically along the same order.
proof fn lemma_run_congruent(
    ns1: Seq<FeatureType>,
    ns2: Seq<FeatureType>,
    fs: Seq<FeatureConfig>,
    ord: Seq<usize>,
    s0: StateM,
    ik: IKey,
    t: u64,
    k: int,
)
    requires
        ns1.len() == fs.len(),
        ns2.len() == fs.len(),
        forall|i: int| 0 <= i < fs.len() ==> node_matches(ns1[i], fs[i]),
        forall|i: int| 0 <= i < fs.len() ==> node_matches(ns2[i], fs[i]),
        forall|a: int| 0 <= a < ord.len() ==> (ord[a] as int) < fs.len(),
        0 <= k <= ord.len(),
    ensures
        run_state(ns1, ord, s0, ik, t, k) == run_state(ns2, ord, s0, ik, t, k),
        run_batch(ns1, ord, s0, ik, t, k) == run_batch(ns2, ord, s0, ik, t, k),
    decreases k,
{
    if k > 0 {
        lemma_run_congruent(ns1, ns2, fs, ord, s0, ik, t, k - 1);
        let idx = ord[k - 1] as int;
        let sk = run_state(ns1, ord, s0, ik, t, k - 1);
        lemma_matches_same_calc(
            ns1[idx],
            ns2[idx],
            fs[idx],
            req_resp(sk, ik, t, node_requests(ns1[idx])),
        );
        assert(step_once(ns1, sk, ik, t, idx) == step_once(ns2, sk, ik, t, idx));
    }
}

/// Determinism across separate builds: two engines constructed from the
/// same configuration store the same canonical order and, from identical
/// store contents, emit the identical batch, values bit for bit.
pub proof fn lemma_same_config_deterministic(
    p1: Pipeline,
    p2: Pipeline,
    fs: Seq<FeatureConfig>,
    s0: StateM,
    ik: IKey,
    t: u64,
)
    requires
        p1.wf(),
        p2.wf(),
        p1.nodes@.len() == fs.len(),
        p2.nodes@.len() == fs.len(),
        forall|i: int| 0 <= i < fs.len() ==> node_matches(p1.nodes@[i], fs[i]),
        forall|i: int| 0 <= i < fs.len() ==> node_matches(p2.nodes@[i], fs[i]),
        spec_topo_order(p1.nodes@) == Some(p1.order@),
        spec_topo_order(p2.nodes@) == Some(p2.order@),
    ensures
        p1.order@ == p2.order@,
        run_batch(p1.nodes@, p1.order@, s0, ik, t, p1.order@.len() as int) == run_batch(
            p2.nodes@,
            p2.order@,
            s0,
            ik,
            t,
            p2.order@.len() as int,
        ),
        run_state(p1.nodes@, p1.order@, s0, ik, t, p1.order@.len() as int) == run_state(
            p2.nodes@,
            p2.order@,
            s0,
            ik,
            t,
            p2.order@.len() as int,
        ),
{
    lemma_greedy_congruent(
        p1.nodes@,
        p2.nodes@,
        fs,
        Seq::new(fs.len(), |i: int| false),
        fs.len() as nat,
    );
    assert(Seq::new(p1.nodes@.len(), |i: int| false) =~= Seq::new(fs.len(), |i: int| false));
    assert(Seq::new(p2.nodes@.len(), |i: int| false) =~= Seq::new(fs.len(), |i: int| false));
    assert(spec_topo_order(p1.nodes@) == spec_topo_order(p2.nodes@));
    assert(p1.order@ == p2.order@);
    lemma_run_congruent(
        p1.nodes@,
        p2.nodes@,
        fs,
        p1.order@,
        s0,
        ik,
        t,
        p1.order@.len() as int,
    );
}


// ---------------------------------------------------------------------------
// Order invariance
// ---------------------------------------------------------------------------

/// The position of node `j` in order `o`.
pub open spec fn pos_in(o: Seq<usize>, j: int) -> int {
    choose|a: int| 0 <= a < o.len() && o[a] as int == j
}

/// In an injective order that contains `j`, `pos_in` is its one position.
proof fn lemma_pos_in(o: Seq<usize>, j: int)
    requires
        exists|a: int| 0 <= a < o.len() && o[a] as int == j,
        forall|a: int, b: int| 0 <= a < b < o.len() ==> o[a] != o[b],
    ensures
        0 <= pos_in(o, j) < o.len(),
        o[pos_in(o, j)] as int == j,
        forall|a: int| 0 <= a < o.len() && o[a] as int == j ==> a == pos_in(o, j),
{
    let p = pos_in(o, j);
    assert forall|a: int| 0 <= a < o.len() && o[a] as int == j implies a == p by {
        if a < p {
            assert(o[a] != o[p]);
        } else if a > p {
            assert(o[p] != o[a]);
        }
    }
}

/// What node `j` emits in the run over order `o`: its step result at its
/// own position.
pub open spec fn emit_in(
    ns: Seq<FeatureType>,
    o: Seq<usize>,
    s0: StateM,
    ik: IKey,
    t: u64,
    j: int,
) -> Option<(Seq<char>, Value)> {
    step_once(ns, run_state(ns, o, s0, ik, t, pos_in(o, j)), ik, t, j).1
}

/// The nodes processed by the first `m` steps of order `o`.
pub open spec fn oset(o: Seq<usize>, m: int) -> Set<int> {
    Set::new(|j: int| exists|a: int| 0 <= a < m && a < o.len() && o[a] as int == j)
}

/// No two nodes write the same output series.
pub open spec fn outputs_unique(ns: Seq<FeatureType>) -> bool {
    forall|i: int, j: int| 0 <= i < j < ns.len() ==> node_output(ns[i]) != node_output(ns[j])
}

/// Every non-base series a node queries is the output of a node it
/// declares an edge from.  (A node that reads a derived series it has no
/// edge to can observe order-dependent data; such catalogs are excluded.)
pub open spec fn reads_aligned(ns: Seq<FeatureType>) -> bool {
    forall|i: int, k: int|
        0 <= i < ns.len() && 0 <= k < node_requests(ns[i]).len() && !crate::store::is_base_id(
            (#[trigger] node_requests(ns[i])[k]).0,
        ) ==> exists|j: int|
            node_edge(ns, j, i) && node_output(ns[j]) == node_requests(ns[i])[k].0
}

/// The bucket a key holds once the nodes in `S` have run, with each node's
/// emission fixed by the reference order `o_ref`.
pub open spec fn expected_bucket(
    ns: Seq<FeatureType>,
    o_ref: Seq<usize>,
    s0: StateM,
    ik: IKey,
    t: u64,
    k2: FKey,
    s_done: Set<int>,
) -> Seq<FeatureEntry> {
    if k2.ik == ik && (exists|j: int| 0 <= j < ns.len() && node_output(ns[j]) == k2.fid) {
        let j = choose|j: int| 0 <= j < ns.len() && node_output(ns[j]) == k2.fid;
        if s_done.contains(j) {
            match emit_in(ns, o_ref, s0, ik, t, j) {
                Some(p) => insert_entry(assoc_series(s0.feats, k2), t, p.1),
                None => assoc_series(s0.feats, k2),
            }
        } else {
            assoc_series(s0.feats, k2)
        }
    } else {
        assoc_series(s0.feats, k2)
    }
}

/// A run state matches the characterization for a processed set.
pub open spec fn state_char(
    ns: Seq<FeatureType>,
    o_ref: Seq<usize>,
    s0: StateM,
    ik: IKey,
    t: u64,
    s_done: Set<int>,
    s: StateM,
) -> bool {
    &&& s.market == s0.market
    &&& forall|k2: FKey|
        #[trigger] assoc_series(s.feats, k2) == expected_bucket(ns, o_ref, s0, ik, t, k2, s_done)
}

/// One step by a fresh node whose emission is `emit_in(.., i)` preserves
/// the characterization.
proof fn lemma_step_char(
    ns: Seq<FeatureType>,
    o_ref: Seq<usize>,
    s0: StateM,
    ik: IKey,
    t: u64,
    s_done: Set<int>,
    s: StateM,
    i: int,
)
    requires
        outputs_unique(ns),
        0 <= i < ns.len(),
        !s_done.contains(i),
        feats_keys_unique(s.feats),
        state_char(ns, o_ref, s0, ik, t, s_done, s),
        step_once(ns, s, ik, t, i).1 == emit_in(ns, o_ref, s0, ik, t, i),
    ensures
        state_char(ns, o_ref, s0, ik, t, s_done.insert(i), step_once(ns, s, ik, t, i).0),
{
    let s1 = step_once(ns, s, ik, t, i).0;
    let sd1 = s_done.insert(i);
    match step_once(ns, s, ik, t, i).1 {
        Some(p) => {
            crate::features::lemma_node_calc_total(
                ns[i],
                req_resp(s, ik, t, node_requests(ns[i])),
            );
            assert(p.0 == node_output(ns[i]));
            let key = FKey { ik, fid: p.0 };
            crate::store::lemma_assoc_set(
                s.feats,
                key,
                insert_entry(assoc_series(s.feats, key), t, p.1),
            );
            assert forall|k2: FKey| true implies #[trigger] assoc_series(s1.feats, k2)
                == expected_bucket(ns, o_ref, s0, ik, t, k2, sd1) by {
                if k2 == key {
                    let j = choose|j: int| 0 <= j < ns.len() && node_output(ns[j]) == k2.fid;
                    assert(node_output(ns[i]) == k2.fid);
                    assert(j == i);
                    assert(expected_bucket(ns, o_ref, s0, ik, t, k2, s_done) == assoc_series(
                        s0.feats,
                        k2,
                    ));
                    assert(assoc_series(s1.feats, k2) == insert_entry(
                        assoc_series(s0.feats, k2),
                        t,
                        p.1,
                    ));
                } else {
                    assert(assoc_series(s1.feats, k2) == assoc_series(s.feats, k2));
                    if k2.ik == ik && (exists|j: int|
                        0 <= j < ns.len() && node_output(ns[j]) == k2.fid) {
                        let j = choose|j: int|
                            0 <= j < ns.len() && node_output(ns[j]) == k2.fid;
                        assert(j != i);
                        assert(sd1.contains(j) == s_done.contains(j));
                    }
                }
            }
        },
        None => {
            assert forall|k2: FKey| true implies #[trigger] assoc_series(s1.feats, k2)
                == expected_bucket(ns, o_ref, s0, ik, t, k2, sd1) by {
                if k2.ik == ik && (exists|j: int|
                    0 <= j < ns.len() && node_output(ns[j]) == k2.fid) {
                    let j = choose|j: int| 0 <= j < ns.len() && node_output(ns[j]) == k2.fid;
                    if j == i {
                        assert(emit_in(ns, o_ref, s0, ik, t, i) is None);
                    } else {
                        assert(sd1.contains(j) == s_done.contains(j));
                    }
                }
            }
        },
    }
}


/// The reference run satisfies its own characterization.
proof fn lemma_ref_char(
    ns: Seq<FeatureType>,
    o_ref: Seq<usize>,
    s0: StateM,
    ik: IKey,
    t: u64,
    m: int,
)
    requires
        crate::pipeline::node_valid_order(ns, o_ref),
        outputs_unique(ns),
        feats_keys_unique(s0.feats),
        0 <= m <= o_ref.len(),
    ensures
        state_char(ns, o_ref, s0, ik, t, oset(o_ref, m), run_state(ns, o_ref, s0, ik, t, m)),
    decreases m,
{
    if m == 0 {
        assert forall|j: int| true implies !(#[trigger] oset(o_ref, 0).contains(j)) by {}
        assert forall|k2: FKey| true implies #[trigger] assoc_series(s0.feats, k2)
            == expected_bucket(ns, o_ref, s0, ik, t, k2, oset(o_ref, 0)) by {}
    } else {
        lemma_ref_char(ns, o_ref, s0, ik, t, m - 1);
        let i = o_ref[m - 1] as int;
        let sp = run_state(ns, o_ref, s0, ik, t, m - 1);
        assert forall|a: int| 0 <= a < m - 1 implies o_ref[a] as int != i by {
            assert(o_ref[a] != o_ref[m - 1]);
        }
        assert(!oset(o_ref, m - 1).contains(i));
        lemma_run_state_unique(ns, o_ref, s0, ik, t, m - 1);
        assert(exists|a: int| 0 <= a < o_ref.len() && o_ref[a] as int == i) by {
            assert(o_ref[m - 1] as int == i);
        }
        lemma_pos_in(o_ref, i);
        assert(pos_in(o_ref, i) == m - 1);
        assert(step_once(ns, sp, ik, t, i).1 == emit_in(ns, o_ref, s0, ik, t, i));
        lemma_step_char(ns, o_ref, s0, ik, t, oset(o_ref, m - 1), sp, i);
        assert(oset(o_ref, m) =~= oset(o_ref, m - 1).insert(i));
        assert(run_state(ns, o_ref, s0, ik, t, m) == step_once(ns, sp, ik, t, i).0);
    }
}


/// The outputs the first `m` steps of `o` emit, valued by `o_ref`.
pub open spec fn elist(
    ns: Seq<FeatureType>,
    o_ref: Seq<usize>,
    o: Seq<usize>,
    s0: StateM,
    ik: IKey,
    t: u64,
    m: int,
) -> Seq<(Seq<char>, Value)>
    decreases m,
{
    if m <= 0 {
        Seq::empty()
    } else {
        let prev = elist(ns, o_ref, o, s0, ik, t, m - 1);
        match emit_in(ns, o_ref, s0, ik, t, o[m - 1] as int) {
            Some(p) => prev.push(p),
            None => prev,
        }
    }
}

/// Any topological order satisfies the reference characterization: each
/// node emits exactly what it emits in the reference run, and the buckets
/// grow accordingly.
#[verifier::rlimit(100)]
proof fn lemma_any_order_char(
    ns: Seq<FeatureType>,
    o_ref: Seq<usize>,
    o: Seq<usize>,
    s0: StateM,
    ik: IKey,
    t: u64,
    m: int,
)
    requires
        ns.len() <= usize::MAX as int,
        crate::pipeline::node_valid_order(ns, o_ref),
        crate::pipeline::node_valid_order(ns, o),
        outputs_unique(ns),
        reads_aligned(ns),
        feats_keys_unique(s0.feats),
        0 <= m <= o.len(),
    ensures
        state_char(ns, o_ref, s0, ik, t, oset(o, m), run_state(ns, o, s0, ik, t, m)),
        run_batch(ns, o, s0, ik, t, m) == elist(ns, o_ref, o, s0, ik, t, m),
    decreases m,
{
    if m == 0 {
        assert forall|j: int| true implies !(#[trigger] oset(o, 0).contains(j)) by {}
        assert forall|k2: FKey| true implies #[trigger] assoc_series(s0.feats, k2)
            == expected_bucket(ns, o_ref, s0, ik, t, k2, oset(o, 0)) by {}
    } else {
        lemma_any_order_char(ns, o_ref, o, s0, ik, t, m - 1);
        let i = o[m - 1] as int;
        let sp = run_state(ns, o, s0, ik, t, m - 1);
        assert forall|a: int| 0 <= a < m - 1 implies o[a] as int != i by {
            assert(o[a] != o[m - 1]);
        }
        assert(!oset(o, m - 1).contains(i));
        lemma_run_state_unique(ns, o, s0, ik, t, m - 1);

        // The canonical state the reference run reads for node i.
        assert(o_ref.contains(i as usize));
        let pa = choose|a: int| 0 <= a < o_ref.len() && o_ref[a] == i as usize;
        assert(exists|a: int| 0 <= a < o_ref.len() && o_ref[a] as int == i) by {
            assert(o_ref[pa] as int == i);
        }
        lemma_pos_in(o_ref, i);
        let pr = pos_in(o_ref, i);
        lemma_ref_char(ns, o_ref, s0, ik, t, pr);
        let sr = run_state(ns, o_ref, s0, ik, t, pr);

        // Node i sees the same response in both runs.
        let reqs = node_requests(ns[i]);
        assert forall|k: int| 0 <= k < reqs.len() implies #[trigger] req_resp(
            sp,
            ik,
            t,
            reqs,
        )[k] == req_resp(sr, ik, t, reqs)[k] by {
            let fid = reqs[k].0;
            let q = reqs[k].1;
            if crate::store::is_base_id(fid) {
                assert(sp.market == s0.market && sr.market == s0.market);
                assert(crate::store::read_series_spec(sp, ik, fid, t, q)
                    == crate::store::read_series_spec(sr, ik, fid, t, q));
            } else {
                let j = choose|j: int|
                    node_edge(ns, j, i) && node_output(ns[j]) == fid;
                let key = FKey { ik, fid };
                assert(0 <= j < ns.len());
                assert(exists|jj: int| 0 <= jj < ns.len() && node_output(ns[jj]) == fid) by {
                    assert(node_output(ns[j]) == fid);
                }
                let j2 = choose|jj: int| 0 <= jj < ns.len() && node_output(ns[jj]) == fid;
                assert(j2 == j) by {
                    if j2 < j {
                        assert(node_output(ns[j2]) != node_output(ns[j]));
                    } else if j2 > j {
                        assert(node_output(ns[j]) != node_output(ns[j2]));
                    }
                }
                // j is already done in both runs: its position precedes i's.
                assert(j as usize as int == j);
                assert(o.contains(j as usize));
                let aj = choose|a: int| 0 <= a < o.len() && o[a] == j as usize;
                assert(o[aj] as int == j);
                assert(o[m - 1] as int == i);
                assert(node_edge(ns, o[aj] as int, o[m - 1] as int));
                assert(aj < m - 1);
                assert(oset(o, m - 1).contains(j)) by {
                    assert(o[aj] as int == j);
                }
                assert(o_ref.contains(j as usize));
                let bj = choose|b: int| 0 <= b < o_ref.len() && o_ref[b] == j as usize;
                assert(o_ref[bj] as int == j);
                assert(o_ref[pr] as int == i);
                assert(node_edge(ns, o_ref[bj] as int, o_ref[pr] as int));
                assert(bj < pr);
                assert(oset(o_ref, pr).contains(j)) by {
                    assert(o_ref[bj] as int == j);
                }
                assert(assoc_series(sp.feats, key) == expected_bucket(
                    ns, o_ref, s0, ik, t, key, oset(o, m - 1),
                ));
                assert(assoc_series(sr.feats, key) == expected_bucket(
                    ns, o_ref, s0, ik, t, key, oset(o_ref, pr),
                ));
                assert(assoc_series(sp.feats, key) == assoc_series(sr.feats, key));
                assert(crate::store::read_series_spec(sp, ik, fid, t, q)
                    == crate::store::read_series_spec(sr, ik, fid, t, q));
            }
        }
        assert(req_resp(sp, ik, t, reqs) =~= req_resp(sr, ik, t, reqs));
        assert(pos_in(o_ref, i) == pr);
        assert(step_once(ns, sr, ik, t, i).1 == emit_in(ns, o_ref, s0, ik, t, i));
        assert(step_once(ns, sp, ik, t, i).1 == emit_in(ns, o_ref, s0, ik, t, i));

        lemma_step_char(ns, o_ref, s0, ik, t, oset(o, m - 1), sp, i);
        assert(oset(o, m) =~= oset(o, m - 1).insert(i));
        assert(run_state(ns, o, s0, ik, t, m) == step_once(ns, sp, ik, t, i).0);
        assert(run_batch(ns, o, s0, ik, t, m) == elist(ns, o_ref, o, s0, ik, t, m));
    }
}


/// Membership in the emitted list: exactly the reference emissions of the
/// processed prefix.
proof fn lemma_elist_mem(
    ns: Seq<FeatureType>,
    o_ref: Seq<usize>,
    o: Seq<usize>,
    s0: StateM,
    ik: IKey,
    t: u64,
    m: int,
    x: (Seq<char>, Value),
)
    requires
        0 <= m <= o.len(),
    ensures
        elist(ns, o_ref, o, s0, ik, t, m).contains(x) <==> exists|a: int|
            0 <= a < m && emit_in(ns, o_ref, s0, ik, t, o[a] as int) == Some(x),
    decreases m,
{
    if m > 0 {
        lemma_elist_mem(ns, o_ref, o, s0, ik, t, m - 1, x);
        let prev = elist(ns, o_ref, o, s0, ik, t, m - 1);
        match emit_in(ns, o_ref, s0, ik, t, o[m - 1] as int) {
            Some(p) => {
                let cur = prev.push(p);
                if cur.contains(x) {
                    let idx = choose|idx: int| 0 <= idx < cur.len() && cur[idx] == x;
                    if idx < prev.len() {
                        assert(prev[idx] == x);
                        assert(prev.contains(x));
                        let a = choose|a: int|
                            0 <= a < m - 1 && emit_in(ns, o_ref, s0, ik, t, o[a] as int)
                                == Some(x);
                        assert(0 <= a < m && emit_in(ns, o_ref, s0, ik, t, o[a] as int)
                            == Some(x));
                    } else {
                        assert(x == p);
                        assert(emit_in(ns, o_ref, s0, ik, t, o[m - 1] as int) == Some(x));
                    }
                }
                if exists|a: int|
                    0 <= a < m && emit_in(ns, o_ref, s0, ik, t, o[a] as int) == Some(x) {
                    let a = choose|a: int|
                        0 <= a < m && emit_in(ns, o_ref, s0, ik, t, o[a] as int) == Some(x);
                    if a < m - 1 {
                        assert(prev.contains(x));
                        let idx = choose|idx: int| 0 <= idx < prev.len() && prev[idx] == x;
                        assert(cur[idx] == x);
                        assert(cur.contains(x));
                    } else {
                        assert(x == p);
                        assert(cur[cur.len() - 1] == x);
                        assert(cur.contains(x));
                    }
                }
            },
            None => {
                if exists|a: int|
                    0 <= a < m && emit_in(ns, o_ref, s0, ik, t, o[a] as int) == Some(x) {
                    let a = choose|a: int|
                        0 <= a < m && emit_in(ns, o_ref, s0, ik, t, o[a] as int) == Some(x);
                    assert(a < m - 1);
                }
            },
        }
    }
}

/// Order invariance: over a catalog with unique outputs whose non-base
/// reads all follow declared edges, any two topological orders leave every
/// bucket identical and emit the same set of (output, value) pairs, values
/// bit for bit.  The graph, not the evaluation order, determines the
/// outputs.
pub proof fn lemma_order_invariance(
    ns: Seq<FeatureType>,
    o1: Seq<usize>,
    o2: Seq<usize>,
    s0: StateM,
    ik: IKey,
    t: u64,
)
    requires
        ns.len() <= usize::MAX as int,
        crate::pipeline::node_valid_order(ns, o1),
        crate::pipeline::node_valid_order(ns, o2),
        outputs_unique(ns),
        reads_aligned(ns),
        feats_keys_unique(s0.feats),
    ensures
        forall|k2: FKey|
            #[trigger] assoc_series(
                run_state(ns, o1, s0, ik, t, o1.len() as int).feats,
                k2,
            ) == assoc_series(run_state(ns, o2, s0, ik, t, o2.len() as int).feats, k2),
        forall|x: (Seq<char>, Value)|
            #[trigger] run_batch(ns, o1, s0, ik, t, o1.len() as int).contains(x)
                <==> run_batch(ns, o2, s0, ik, t, o2.len() as int).contains(x),
{
    let n1 = o1.len() as int;
    let n2 = o2.len() as int;
    lemma_any_order_char(ns, o1, o1, s0, ik, t, n1);
    lemma_any_order_char(ns, o1, o2, s0, ik, t, n2);
    assert forall|j: int| true implies (oset(o1, n1).contains(j) <==> oset(
        o2,
        n2,
    ).contains(j)) by {
        if 0 <= j < ns.len() {
            assert(j as usize as int == j);
            assert(o1.contains(j as usize));
            let a = choose|a: int| 0 <= a < o1.len() && o1[a] == j as usize;
            assert(o1[a] as int == j);
            assert(oset(o1, n1).contains(j));
            assert(o2.contains(j as usize));
            let b = choose|b: int| 0 <= b < o2.len() && o2[b] == j as usize;
            assert(o2[b] as int == j);
            assert(oset(o2, n2).contains(j));
        } else {
            if oset(o1, n1).contains(j) {
                let a = choose|a: int| 0 <= a < n1 && a < o1.len() && o1[a] as int == j;
                assert((o1[a] as int) < ns.len());
                assert(false);
            }
            if oset(o2, n2).contains(j) {
                let b = choose|b: int| 0 <= b < n2 && b < o2.len() && o2[b] as int == j;
                assert((o2[b] as int) < ns.len());
                assert(false);
            }
        }
    }
    assert(oset(o1, n1) =~= oset(o2, n2));
    assert forall|x: (Seq<char>, Value)| true implies (#[trigger] run_batch(
        ns,
        o1,
        s0,
        ik,
        t,
        n1,
    ).contains(x) <==> run_batch(ns, o2, s0, ik, t, n2).contains(x)) by {
        lemma_elist_mem(ns, o1, o1, s0, ik, t, n1, x);
        lemma_elist_mem(ns, o1, o2, s0, ik, t, n2, x);
        if exists|a: int| 0 <= a < n1 && emit_in(ns, o1, s0, ik, t, o1[a] as int) == Some(x) {
            let a = choose|a: int|
                0 <= a < n1 && emit_in(ns, o1, s0, ik, t, o1[a] as int) == Some(x);
            let j = o1[a] as int;
            assert(j as usize as int == j);
            assert(o2.contains(j as usize));
            let b = choose|b: int| 0 <= b < o2.len() && o2[b] == j as usize;
            assert(emit_in(ns, o1, s0, ik, t, o2[b] as int) == Some(x));
        }
        if exists|b: int| 0 <= b < n2 && emit_in(ns, o1, s0, ik, t, o2[b] as int) == Some(x) {
            let b = choose|b: int|
                0 <= b < n2 && emit_in(ns, o1, s0, ik, t, o2[b] as int) == Some(x);
            let j = o2[b] as int;
            assert(j as usize as int == j);
            assert(o1.contains(j as usize));
            let a = choose|a: int| 0 <= a < o1.len() && o1[a] == j as usize;
            assert(emit_in(ns, o1, s0, ik, t, o1[a] as int) == Some(x));
        }
    }
}


/// Edges transport through a catalog permutation.
proof fn lemma_perm_edge(
    ns1: Seq<FeatureType>,
    ns2: Seq<FeatureType>,
    fs1: Seq<FeatureConfig>,
    fs2: Seq<FeatureConfig>,
    perm: Seq<int>,
    u: int,
    v: int,
)
    requires
        ns1.len() == fs1.len(),
        ns2.len() == fs2.len(),
        fs1.len() == fs2.len(),
        forall|i: int| 0 <= i < fs1.len() ==> node_matches(ns1[i], fs1[i]),
        forall|i: int| 0 <= i < fs2.len() ==> node_matches(ns2[i], fs2[i]),
        perm.len() == fs1.len(),
        forall|i: int| 0 <= i < perm.len() ==> (0 <= #[trigger] perm[i] && perm[i] < fs1.len()),
        forall|i: int| 0 <= i < fs2.len() ==> fs2[i] == fs1[perm[i]],
        0 <= u < fs2.len(),
        0 <= v < fs2.len(),
    ensures
        node_edge(ns2, u, v) <==> node_edge(ns1, perm[u], perm[v]),
{
    lemma_cfg_node_transfer(ns1, fs1);
    lemma_cfg_node_transfer(ns2, fs2);
    if cfg_edge(fs2, u, v) {
        let k = choose|k: int|
            0 <= k < crate::features::cfg_sources(fs2[v]).len() && !crate::store::is_base_id(
                crate::features::cfg_sources(fs2[v])[k],
            ) && crate::features::cfg_sources(fs2[v])[k] == crate::features::cfg_id(fs2[u]);
        assert(fs2[v] == fs1[perm[v]] && fs2[u] == fs1[perm[u]]);
        assert(cfg_edge(fs1, perm[u], perm[v]));
    }
    if cfg_edge(fs1, perm[u], perm[v]) {
        let k = choose|k: int|
            0 <= k < crate::features::cfg_sources(fs1[perm[v]]).len()
                && !crate::store::is_base_id(crate::features::cfg_sources(fs1[perm[v]])[k])
                && crate::features::cfg_sources(fs1[perm[v]])[k] == crate::features::cfg_id(
                fs1[perm[u]],
            );
        assert(fs2[v] == fs1[perm[v]] && fs2[u] == fs1[perm[u]]);
        assert(cfg_edge(fs2, u, v));
    }
}

/// A run over the permuted catalog equals the run over the base catalog
/// along the transported order.
proof fn lemma_run_perm_congruent(
    ns1: Seq<FeatureType>,
    ns2: Seq<FeatureType>,
    fs1: Seq<FeatureConfig>,
    fs2: Seq<FeatureConfig>,
    perm: Seq<int>,
    o2: Seq<usize>,
    o2p: Seq<usize>,
    s0: StateM,
    ik: IKey,
    t: u64,
    k: int,
)
    requires
        ns1.len() == fs1.len(),
        ns2.len() == fs2.len(),
        fs1.len() == fs2.len(),
        forall|i: int| 0 <= i < fs1.len() ==> node_matches(ns1[i], fs1[i]),
        forall|i: int| 0 <= i < fs2.len() ==> node_matches(ns2[i], fs2[i]),
        perm.len() == fs1.len(),
        forall|i: int| 0 <= i < perm.len() ==> (0 <= #[trigger] perm[i] && perm[i] < fs1.len()),
        forall|i: int| 0 <= i < fs2.len() ==> fs2[i] == fs1[perm[i]],
        o2p.len() == o2.len(),
        forall|a: int| 0 <= a < o2.len() ==> ((#[trigger] o2[a]) as int) < ns2.len(),
        forall|a: int| 0 <= a < o2.len() ==> (#[trigger] o2p[a]) as int == perm[o2[a] as int],
        0 <= k <= o2.len(),
    ensures
        run_state(ns2, o2, s0, ik, t, k) == run_state(ns1, o2p, s0, ik, t, k),
        run_batch(ns2, o2, s0, ik, t, k) == run_batch(ns1, o2p, s0, ik, t, k),
    decreases k,
{
    if k > 0 {
        lemma_run_perm_congruent(ns1, ns2, fs1, fs2, perm, o2, o2p, s0, ik, t, k - 1);
        let u = o2[k - 1] as int;
        let v = o2p[k - 1] as int;
        assert(v == perm[u]);
        assert(fs2[u] == fs1[v]);
        let sk = run_state(ns2, o2, s0, ik, t, k - 1);
        lemma_matches_same_calc(
            ns2[u],
            ns1[v],
            fs2[u],
            req_resp(sk, ik, t, node_requests(ns2[u])),
        );
        assert(step_once(ns2, sk, ik, t, u) == step_once(ns1, sk, ik, t, v));
    }
}

/// Permutation invariance: two engines whose catalogs are permutations of
/// each other (same configurations, reordered) emit, from identical store
/// contents, the same set of (output, value) pairs, values bit for bit:
/// the graph, not the declaration order, determines the outputs.  Stated
/// for catalogs with unique outputs whose non-base reads follow declared
/// edges.
pub proof fn lemma_permutation_invariance(
    p1: Pipeline,
    p2: Pipeline,
    fs1: Seq<FeatureConfig>,
    fs2: Seq<FeatureConfig>,
    perm: Seq<int>,
    s0: StateM,
    ik: IKey,
    t: u64,
)
    requires
        p1.wf(),
        p2.wf(),
        p1.nodes@.len() == fs1.len(),
        p2.nodes@.len() == fs2.len(),
        fs1.len() == fs2.len(),
        fs1.len() <= usize::MAX as int,
        forall|i: int| 0 <= i < fs1.len() ==> node_matches(p1.nodes@[i], fs1[i]),
        forall|i: int| 0 <= i < fs2.len() ==> node_matches(p2.nodes@[i], fs2[i]),
        perm.len() == fs1.len(),
        forall|i: int| 0 <= i < perm.len() ==> (0 <= #[trigger] perm[i] && perm[i] < fs1.len()),
        forall|i: int, j: int| 0 <= i < j < perm.len() ==> perm[i] != perm[j],
        forall|v: int| 0 <= v < fs1.len() ==> #[trigger] perm.contains(v),
        forall|i: int| 0 <= i < fs2.len() ==> fs2[i] == fs1[perm[i]],
        outputs_unique(p1.nodes@),
        reads_aligned(p1.nodes@),
        feats_keys_unique(s0.feats),
    ensures
        forall|x: (Seq<char>, Value)|
            #[trigger] run_batch(
                p1.nodes@,
                p1.order@,
                s0,
                ik,
                t,
                p1.order@.len() as int,
            ).contains(x) <==> run_batch(
                p2.nodes@,
                p2.order@,
                s0,
                ik,
                t,
                p2.order@.len() as int,
            ).contains(x),
{
    let ns1 = p1.nodes@;
    let ns2 = p2.nodes@;
    let o1 = p1.order@;
    let o2 = p2.order@;
    let n = fs1.len() as int;
    // Transport p2's order into p1's index space.
    let o2p = Seq::new(o2.len(), |a: int| perm[o2[a] as int] as usize);
    assert forall|a: int| 0 <= a < o2.len() implies ((#[trigger] o2[a]) as int) < ns2.len()
        && (o2p[a] as int) == perm[o2[a] as int] by {
        assert(0 <= perm[o2[a] as int] && perm[o2[a] as int] < fs1.len());
    }
    lemma_run_perm_congruent(ns1, ns2, fs1, fs2, perm, o2, o2p, s0, ik, t, o2.len() as int);
    // The transported order is a topological order of p1's catalog.
    assert forall|a: int, b: int| 0 <= a < b < o2p.len() implies o2p[a] != o2p[b] by {
        assert(o2[a] != o2[b]);
        assert(o2[a] as int != o2[b] as int);
        if perm[o2[a] as int] == perm[o2[b] as int] {
            if (o2[a] as int) < (o2[b] as int) {
                assert(perm[o2[a] as int] != perm[o2[b] as int]);
            } else {
                assert(perm[o2[b] as int] != perm[o2[a] as int]);
            }
        }
        assert(o2p[a] as int != o2p[b] as int);
    }
    assert forall|v: usize| (v as int) < ns1.len() implies o2p.contains(v) by {
        assert(perm.contains(v as int));
        let w = choose|i: int| 0 <= i < perm.len() && perm[i] == v as int;
        assert(perm[w] == v as int);
        assert(w as usize as int == w);
        assert(o2.contains(w as usize));
        let a = choose|a: int| 0 <= a < o2.len() && o2[a] == w as usize;
        assert(o2[a] as int == w);
        assert(o2p[a] as int == perm[w] && perm[w] == v as int);
        assert(o2p[a] == v);
    }
    assert forall|a: int, b: int|
        0 <= a < o2p.len() && 0 <= b < o2p.len() && node_edge(
            ns1,
            o2p[a] as int,
            o2p[b] as int,
        ) implies a < b by {
        lemma_perm_edge(ns1, ns2, fs1, fs2, perm, o2[a] as int, o2[b] as int);
        assert(node_edge(ns2, o2[a] as int, o2[b] as int));
    }
    assert(crate::pipeline::node_valid_order(ns1, o2p));
    // Same catalog, two orders: the emitted sets agree.
    lemma_order_invariance(ns1, o1, o2p, s0, ik, t);
}


} // verus!
