//! The time-indexed state store.
//!
//! The store holds raw market snapshots per instrument (ticks and trades)
//! and derived feature values keyed by (instrument, feature-id, composite
//! time key).  A composite key is a (timestamp, tie-breaker) pair; the
//! tie-breaker is assigned at insertion so that inserting at an already
//! occupied timestamp always produces a key strictly greater than every
//! existing key at that timestamp.
//!
//! Three query shapes are supported: latest-before, window-back-from and
//! n-periods-back-from, each specified exactly over the store's
//! mathematical model.

use vstd::prelude::*;
use vstd::string::*;

use crate::config::QueryType;
use crate::models::{ikey, tick_wf, trade_wf, IKey, Instrument, FeatureEvent, Tick, Trade};
use crate::num::{dec_wf, spec_mid, val_wf, Dec, Value};

verus! {

// ---------------------------------------------------------------------------
// Feature buckets and composite keys
// ---------------------------------------------------------------------------

/// One stored feature observation: composite key plus value.
#[derive(Clone, Copy, PartialEq, Eq, Structural, Debug)]
pub struct FeatureEntry {
    pub ts: u64,
    pub tie: usize,
    pub value: Value,
}

/// Strict composite-key order: by timestamp, then by tie-breaker.
pub open spec fn key_lt(a: FeatureEntry, b: FeatureEntry) -> bool {
    a.ts < b.ts || (a.ts == b.ts && a.tie < b.tie)
}

/// A well-formed bucket: keys strictly increasing, tie-breakers below the
/// bucket length (they are assigned 0, 1, 2, ... per timestamp), and every
/// stored value well formed.
pub open spec fn bucket_entries_wf(s: Seq<FeatureEntry>) -> bool {
    &&& forall|i: int, j: int| 0 <= i < j < s.len() ==> key_lt(s[i], s[j])
    &&& forall|i: int| 0 <= i < s.len() ==> (s[i].tie as int) < s.len()
    &&& forall|i: int| 0 <= i < s.len() ==> val_wf(s[i].value)
}

/// Where a new entry with timestamp `ts` is inserted: after every entry with
/// timestamp at most `ts`.
pub open spec fn insert_pos(s: Seq<FeatureEntry>, ts: u64) -> int
    decreases s.len(),
{
    if s.len() == 0 {
        0
    } else if s.last().ts <= ts {
        s.len() as int
    } else {
        insert_pos(s.drop_last(), ts)
    }
}

/// The tie-breaker a new entry receives: one past the greatest existing
/// tie-breaker at its timestamp, or zero if the timestamp is fresh.
pub open spec fn new_tie(s: Seq<FeatureEntry>, ts: u64) -> int {
    let p = insert_pos(s, ts);
    if p > 0 && s[p - 1].ts == ts {
        s[p - 1].tie + 1
    } else {
        0
    }
}

/// The bucket after appending a value at timestamp `ts`.
pub open spec fn insert_entry(s: Seq<FeatureEntry>, ts: u64, v: Value) -> Seq<FeatureEntry> {
    s.insert(insert_pos(s, ts), FeatureEntry { ts, tie: new_tie(s, ts) as usize, value: v })
}

/// Everything `insert_pos` promises about the split it chooses.
pub proof fn lemma_insert_pos(s: Seq<FeatureEntry>, ts: u64)
    ensures
        0 <= insert_pos(s, ts) <= s.len(),
        insert_pos(s, ts) > 0 ==> s[insert_pos(s, ts) - 1].ts <= ts,
        forall|j: int| insert_pos(s, ts) <= j < s.len() ==> s[j].ts > ts,
    decreases s.len(),
{
    if s.len() == 0 {
    } else if s.last().ts <= ts {
    } else {
        lemma_insert_pos(s.drop_last(), ts);
        assert forall|j: int| insert_pos(s, ts) <= j < s.len() implies s[j].ts > ts by {
            if j < s.len() - 1 {
                assert(s.drop_last()[j] == s[j]);
            }
        }
        if insert_pos(s, ts) > 0 {
            assert(s.drop_last()[insert_pos(s, ts) - 1] == s[insert_pos(s, ts) - 1]);
        }
    }
}

/// Inserting preserves bucket well-formedness, and the new entry's key is
/// strictly greater than that of every entry at the same timestamp.
pub proof fn lemma_insert_entry_wf(s: Seq<FeatureEntry>, ts: u64, v: Value)
    requires
        bucket_entries_wf(s),
        val_wf(v),
        s.len() <= usize::MAX as int,
    ensures
        bucket_entries_wf(insert_entry(s, ts, v)),
        insert_entry(s, ts, v).len() == s.len() + 1,
        0 <= new_tie(s, ts) <= s.len(),
{
    let p = insert_pos(s, ts);
    lemma_insert_pos(s, ts);
    if p > 0 {
        assert((s[p - 1].tie as int) < s.len());
    }
    assert(0 <= new_tie(s, ts) <= s.len());
    let e = FeatureEntry { ts, tie: new_tie(s, ts) as usize, value: v };
    assert(e.tie as int == new_tie(s, ts));
    let s2 = s.insert(p, e);
    assert forall|i: int| 0 <= i < p implies key_lt(s[i], e) by {
        assert(i == p - 1 || key_lt(s[i], s[p - 1]));
        assert(s[i].ts <= s[p - 1].ts);
        assert(s[i].ts <= ts);
        if s[i].ts == ts {
            assert(s[p - 1].ts == ts);
            assert(i == p - 1 || s[i].tie < s[p - 1].tie);
            assert(e.tie as int == s[p - 1].tie + 1);
            assert(s[i].tie < e.tie);
        } else {
            assert(s[i].ts < ts);
        }
    }
    assert forall|i: int, j: int| 0 <= i < j < s2.len() implies key_lt(s2[i], s2[j]) by {
        if i < p && j < p {
            assert(s2[i] == s[i] && s2[j] == s[j]);
        } else if i < p && j == p {
            assert(s2[i] == s[i] && s2[j] == e);
        } else if i < p && j > p {
            assert(s2[i] == s[i] && s2[j] == s[j - 1]);
            if p <= j - 1 {
                assert(s[j - 1].ts > ts);
                if s[i].ts == ts {
                    assert(key_lt(s[i], s[j - 1]));
                } else {
                    assert(key_lt(s[i], s[j - 1]) || i >= p);
                }
            }
        } else if i == p && j > p {
            assert(s2[i] == e && s2[j] == s[j - 1]);
            assert(s[j - 1].ts > ts);
        } else {
            assert(s2[i] == s[i - 1] && s2[j] == s[j - 1]);
        }
    }
    assert forall|i: int| 0 <= i < s2.len() implies (s2[i].tie as int) < s2.len() by {
        if i < p {
            assert(s2[i] == s[i]);
        } else if i == p {
        } else {
            assert(s2[i] == s[i - 1]);
        }
    }
    assert forall|i: int| 0 <= i < s2.len() implies val_wf(s2[i].value) by {
        if i < p {
            assert(s2[i] == s[i]);
        } else if i == p {
        } else {
            assert(s2[i] == s[i - 1]);
        }
    }
}

/// Composite-key monotonicity: when timestamps never decrease, each insert
/// appends at the end with a key strictly greater than every existing key.
pub proof fn lemma_composite_key_monotonic(s: Seq<FeatureEntry>, ts: u64, v: Value)
    requires
        bucket_entries_wf(s),
        val_wf(v),
        s.len() <= usize::MAX as int,
        forall|i: int| 0 <= i < s.len() ==> s[i].ts <= ts,
    ensures
        insert_entry(s, ts, v) =~= s.push(
            FeatureEntry { ts, tie: new_tie(s, ts) as usize, value: v },
        ),
        forall|i: int|
            0 <= i < s.len() ==> key_lt(s[i], insert_entry(s, ts, v).last()),
{
    lemma_insert_pos(s, ts);
    assert(insert_pos(s, ts) == s.len());
    lemma_insert_entry_wf(s, ts, v);
    let s2 = insert_entry(s, ts, v);
    assert forall|i: int| 0 <= i < s.len() implies key_lt(s[i], s2.last()) by {
        assert(s2[i] == s[i]);
        assert(key_lt(s2[i], s2[s.len() as int]));
    }
}

// ---------------------------------------------------------------------------
// Query shapes over a series of (timestamp, value) pairs
// ---------------------------------------------------------------------------

/// 0- or 1-element sequence: the value of the last entry at or before `t`.
pub open spec fn latest_in(s: Seq<(u64, Value)>, t: u64) -> Seq<Value>
    decreases s.len(),
{
    if s.len() == 0 {
        Seq::empty()
    } else if s.last().0 <= t {
        seq![s.last().1]
    } else {
        latest_in(s.drop_last(), t)
    }
}

/// The values with timestamp strictly inside `(lo, hi)`, in series order.
pub open spec fn window_in(s: Seq<(u64, Value)>, lo: int, hi: int) -> Seq<Value>
    decreases s.len(),
{
    if s.len() == 0 {
        Seq::empty()
    } else {
        window_in(s.drop_last(), lo, hi) + if lo < s.last().0 < hi {
            seq![s.last().1]
        } else {
            Seq::empty()
        }
    }
}

/// The values with timestamp at most `t`, in series order.
pub open spec fn upto_in(s: Seq<(u64, Value)>, t: u64) -> Seq<Value>
    decreases s.len(),
{
    if s.len() == 0 {
        Seq::empty()
    } else {
        upto_in(s.drop_last(), t) + if s.last().0 <= t {
            seq![s.last().1]
        } else {
            Seq::empty()
        }
    }
}

/// The last `n` values with timestamp at most `t`, in series order.
pub open spec fn periods_in(s: Seq<(u64, Value)>, t: u64, n: int) -> Seq<Value> {
    let m = upto_in(s, t);
    if m.len() <= n {
        m
    } else {
        m.subrange(m.len() - n, m.len() as int)
    }
}

/// The result of one query over one series, `as_of` time `t`.
pub open spec fn query_in(s: Seq<(u64, Value)>, t: u64, q: QueryType) -> Seq<Value> {
    match q {
        QueryType::Latest => latest_in(s, t),
        QueryType::Window(d) => window_in(s, t as int - d as int, t as int),
        QueryType::Periods(n) => periods_in(s, t, n as int),
    }
}

/// Every value of a series is well formed.
pub open spec fn series_wf(s: Seq<(u64, Value)>) -> bool {
    forall|i: int| 0 <= i < s.len() ==> val_wf(s[i].1)
}

/// Query results only draw values from the series.
pub proof fn lemma_query_wf(s: Seq<(u64, Value)>, t: u64, q: QueryType)
    requires
        series_wf(s),
    ensures
        forall|i: int| 0 <= i < query_in(s, t, q).len() ==> val_wf(query_in(s, t, q)[i]),
{
    match q {
        QueryType::Latest => lemma_latest_wf(s, t),
        QueryType::Window(d) => lemma_window_wf(s, t as int - d as int, t as int),
        QueryType::Periods(n) => lemma_upto_wf(s, t),
    }
}

proof fn lemma_latest_wf(s: Seq<(u64, Value)>, t: u64)
    requires
        series_wf(s),
    ensures
        forall|i: int| 0 <= i < latest_in(s, t).len() ==> val_wf(latest_in(s, t)[i]),
    decreases s.len(),
{
    if s.len() == 0 {
    } else if s.last().0 <= t {
        assert(val_wf(s[s.len() - 1].1));
        assert(latest_in(s, t) == seq![s.last().1]);
        assert(latest_in(s, t)[0] == s[s.len() - 1].1);
    } else {
        assert forall|i: int| 0 <= i < s.drop_last().len() implies val_wf(
            s.drop_last()[i].1,
        ) by {
            assert(s.drop_last()[i] == s[i]);
        }
        lemma_latest_wf(s.drop_last(), t);
        assert(latest_in(s, t) == latest_in(s.drop_last(), t));
        assert forall|i: int| 0 <= i < latest_in(s, t).len() implies val_wf(
            latest_in(s, t)[i],
        ) by {
            assert(latest_in(s, t)[i] == latest_in(s.drop_last(), t)[i]);
        }
    }
}

proof fn lemma_window_wf(s: Seq<(u64, Value)>, lo: int, hi: int)
    requires
        series_wf(s),
    ensures
        forall|i: int| 0 <= i < window_in(s, lo, hi).len() ==> val_wf(window_in(s, lo, hi)[i]),
    decreases s.len(),
{
    if s.len() == 0 {
    } else {
        assert forall|i: int| 0 <= i < s.drop_last().len() implies val_wf(
            s.drop_last()[i].1,
        ) by {
            assert(s.drop_last()[i] == s[i]);
        }
        lemma_window_wf(s.drop_last(), lo, hi);
        let w = window_in(s, lo, hi);
        let w0 = window_in(s.drop_last(), lo, hi);
        assert(val_wf(s[s.len() - 1].1));
        assert forall|i: int| 0 <= i < w.len() implies val_wf(w[i]) by {
            if i < w0.len() {
                assert(w[i] == w0[i]);
            } else {
                assert(w[i] == s.last().1);
            }
        }
    }
}

proof fn lemma_upto_wf(s: Seq<(u64, Value)>, t: u64)
    requires
        series_wf(s),
    ensures
        forall|i: int| 0 <= i < upto_in(s, t).len() ==> val_wf(upto_in(s, t)[i]),
    decreases s.len(),
{
    if s.len() == 0 {
    } else {
        assert forall|i: int| 0 <= i < s.drop_last().len() implies val_wf(
            s.drop_last()[i].1,
        ) by {
            assert(s.drop_last()[i] == s[i]);
        }
        lemma_upto_wf(s.drop_last(), t);
        let w = upto_in(s, t);
        let w0 = upto_in(s.drop_last(), t);
        assert(val_wf(s[s.len() - 1].1));
        assert forall|i: int| 0 <= i < w.len() implies val_wf(w[i]) by {
            if i < w0.len() {
                assert(w[i] == w0[i]);
            } else {
                assert(w[i] == s.last().1);
            }
        }
    }
}

// ---------------------------------------------------------------------------
// Executable query over a materialized series
// ---------------------------------------------------------------------------

/// Whether `lo < ts < hi` for `lo = t - d` computed without overflow.
fn window_cond(ts: u64, t: u64, d: u64) -> (r: bool)
    ensures
        r == ((t as int - d as int) < (ts as int) && (ts as int) < (t as int)),
{
    ts < t && (ts as u128 + d as u128 > t as u128)
}

/// Run one query shape over a series.
fn query_series(s: &Vec<(u64, Value)>, t: u64, q: QueryType) -> (r: Vec<Value>)
    ensures
        r@ == query_in(s@, t, q),
{
    match q {
        QueryType::Latest => {
            let mut found: Option<Value> = None;
            let mut i: usize = 0;
            while i < s.len()
                invariant
                    0 <= i <= s.len(),
                    latest_in(s@.take(i as int), t) == match found {
                        Some(v) => seq![v],
                        None => Seq::<Value>::empty(),
                    },
                decreases s.len() - i,
            {
                let (ts, v) = s[i];
                proof {
                    assert(s@.take(i as int + 1).drop_last() =~= s@.take(i as int));
                    assert(s@.take(i as int + 1).last() == s@[i as int]);
                }
                if ts <= t {
                    found = Some(v);
                }
                i += 1;
            }
            proof {
                assert(s@.take(s@.len() as int) =~= s@);
            }
            let mut r: Vec<Value> = Vec::new();
            match found {
                Some(v) => {
                    r.push(v);
                },
                None => {},
            }
            proof {
                assert(r@ =~= latest_in(s@, t));
            }
            r
        },
        QueryType::Window(d) => {
            let mut r: Vec<Value> = Vec::new();
            let mut i: usize = 0;
            while i < s.len()
                invariant
                    0 <= i <= s.len(),
                    r@ == window_in(s@.take(i as int), t as int - d as int, t as int),
                decreases s.len() - i,
            {
                let (ts, v) = s[i];
                proof {
                    assert(s@.take(i as int + 1).drop_last() =~= s@.take(i as int));
                    assert(s@.take(i as int + 1).last() == s@[i as int]);
                }
                if window_cond(ts, t, d) {
                    r.push(v);
                    proof {
                        assert(r@ =~= window_in(
                            s@.take(i as int + 1),
                            t as int - d as int,
                            t as int,
                        ));
                    }
                } else {
                    proof {
                        assert(r@ =~= window_in(
                            s@.take(i as int + 1),
                            t as int - d as int,
                            t as int,
                        ));
                    }
                }
                i += 1;
            }
            proof {
                assert(s@.take(s@.len() as int) =~= s@);
            }
            r
        },
        QueryType::Periods(n) => {
            let mut cnt: usize = 0;
            let mut i: usize = 0;
            while i < s.len()
                invariant
                    0 <= i <= s.len(),
                    cnt == upto_in(s@.take(i as int), t).len(),
                    cnt <= i,
                decreases s.len() - i,
            {
                let (ts, _v) = s[i];
                proof {
                    assert(s@.take(i as int + 1).drop_last() =~= s@.take(i as int));
                    assert(s@.take(i as int + 1).last() == s@[i as int]);
                }
                if ts <= t {
                    cnt += 1;
                }
                i += 1;
            }
            proof {
                assert(s@.take(s@.len() as int) =~= s@);
            }
            let k0: usize = if cnt <= n {
                0
            } else {
                cnt - n
            };
            let mut r: Vec<Value> = Vec::new();
            let mut seen: usize = 0;
            let mut j: usize = 0;
            while j < s.len()
                invariant
                    0 <= j <= s.len(),
                    seen == upto_in(s@.take(j as int), t).len(),
                    seen <= j,
                    k0 <= upto_in(s@, t).len(),
                    r@ == if seen <= k0 {
                        Seq::<Value>::empty()
                    } else {
                        upto_in(s@.take(j as int), t).subrange(k0 as int, seen as int)
                    },
                decreases s.len() - j,
            {
                let (ts, v) = s[j];
                proof {
                    assert(s@.take(j as int + 1).drop_last() =~= s@.take(j as int));
                    assert(s@.take(j as int + 1).last() == s@[j as int]);
                }
                if ts <= t {
                    if seen >= k0 {
                        r.push(v);
                        proof {
                            assert(r@ =~= upto_in(s@.take(j as int + 1), t).subrange(
                                k0 as int,
                                seen as int + 1,
                            ));
                        }
                    } else {
                        proof {
                            if seen + 1 > k0 {
                                assert(r@ =~= upto_in(s@.take(j as int + 1), t).subrange(
                                    k0 as int,
                                    seen as int + 1,
                                ));
                            }
                        }
                    }
                    seen += 1;
                } else {
                    proof {
                        if seen > k0 {
                            assert(r@ =~= upto_in(s@.take(j as int + 1), t).subrange(
                                k0 as int,
                                seen as int,
                            ));
                        }
                    }
                }
                j += 1;
            }
            proof {
                assert(s@.take(s@.len() as int) =~= s@);
                if upto_in(s@, t).len() <= n as int {
                    assert(k0 == 0);
                    if upto_in(s@, t).len() > 0 {
                        assert(r@ =~= periods_in(s@, t, n as int));
                    } else {
                        assert(r@ =~= periods_in(s@, t, n as int));
                    }
                } else {
                    assert(r@ =~= periods_in(s@, t, n as int));
                }
            }
            r
        },
    }
}

// ---------------------------------------------------------------------------
// The market side: raw snapshots per instrument
// ---------------------------------------------------------------------------

/// Raw per-instrument market history: quotes, trades, and aggregated trades.
pub struct MarketState {
    pub quotes: Vec<(Instrument, Vec<Tick>)>,
    pub trades: Vec<(Instrument, Vec<Trade>)>,
    pub agg_trades: Vec<(Instrument, Vec<Trade>)>,
}

/// The mathematical model of the market side.
pub struct MarketM {
    pub quotes: Seq<(IKey, Seq<Tick>)>,
    pub trades: Seq<(IKey, Seq<Trade>)>,
    pub agg_trades: Seq<(IKey, Seq<Trade>)>,
}

impl View for MarketState {
    type V = MarketM;

    open spec fn view(&self) -> MarketM {
        MarketM {
            quotes: tick_assoc(self.quotes@),
            trades: trade_assoc(self.trades@),
            agg_trades: trade_assoc(self.agg_trades@),
        }
    }
}

/// First index holding key `k`, if any.
pub open spec fn assoc_find<K, T>(s: Seq<(K, Seq<T>)>, k: K) -> Option<int>
    decreases s.len(),
{
    if s.len() == 0 {
        None
    } else if s[0].0 == k {
        Some(0)
    } else {
        match assoc_find(s.skip(1), k) {
            None => None,
            Some(i) => Some(i + 1),
        }
    }
}

/// The series stored under key `k`, or the empty series.
pub open spec fn assoc_series<K, T>(s: Seq<(K, Seq<T>)>, k: K) -> Seq<T> {
    match assoc_find(s, k) {
        None => Seq::empty(),
        Some(i) => s[i].1,
    }
}

/// The association after appending `x` to the series under `k`.
pub open spec fn assoc_append<K, T>(s: Seq<(K, Seq<T>)>, k: K, x: T) -> Seq<(K, Seq<T>)> {
    match assoc_find(s, k) {
        None => s.push((k, seq![x])),
        Some(i) => s.update(i, (k, s[i].1.push(x))),
    }
}

/// Appending under a key changes exactly that series and preserves key
/// uniqueness.
pub proof fn lemma_assoc_append_find<K, T>(s: Seq<(K, Seq<T>)>, k: K, x: T)
    requires
        forall|i: int, j: int| 0 <= i < j < s.len() ==> s[i].0 != s[j].0,
    ensures
        forall|i: int, j: int|
            0 <= i < j < assoc_append(s, k, x).len() ==> assoc_append(s, k, x)[i].0
                != assoc_append(s, k, x)[j].0,
        assoc_series(assoc_append(s, k, x), k) == assoc_series(s, k).push(x),
        forall|k2: K|
            k2 != k ==> assoc_series(assoc_append(s, k, x), k2) == assoc_series(s, k2),
{
    lemma_assoc_find_unique(s, k);
    let s2 = assoc_append(s, k, x);
    match assoc_find(s, k) {
        None => {
            assert forall|k2: K| true implies #[trigger] assoc_find(s2, k2) == (
            if k2 == k {
                Some(s.len() as int)
            } else {
                assoc_find(s, k2)
            }) by {
                lemma_assoc_find_push(s, k2, (k, seq![x]));
            }
            assert(s2[s.len() as int].1 =~= seq![x]);
            assert(assoc_series(s, k) =~= Seq::<T>::empty());
            assert(assoc_series(s2, k) =~= assoc_series(s, k).push(x));
            assert forall|k2: K| k2 != k implies assoc_series(s2, k2) == assoc_series(
                s,
                k2,
            ) by {
                lemma_assoc_find_unique(s, k2);
                match assoc_find(s, k2) {
                    Some(j) => {
                        assert(s2[j] == s[j]);
                    },
                    None => {},
                }
            }
            assert forall|i: int, j: int| 0 <= i < j < s2.len() implies s2[i].0 != s2[j].0 by {
                if j < s.len() {
                    assert(s2[i] == s[i] && s2[j] == s[j]);
                } else {
                    assert(s2[i] == s[i] && s2[j].0 == k);
                }
            }
        },
        Some(i) => {
            assert(s[i].0 == k);
            assert forall|k2: K| true implies #[trigger] assoc_find(s2, k2) == assoc_find(
                s,
                k2,
            ) by {
                lemma_assoc_find_update_same_key(s, k2, i, (k, s[i].1.push(x)));
            }
            assert(s2[i].1 == s[i].1.push(x));
            assert(assoc_series(s2, k) == assoc_series(s, k).push(x));
            assert forall|k2: K| k2 != k implies assoc_series(s2, k2) == assoc_series(
                s,
                k2,
            ) by {
                lemma_assoc_find_unique(s, k2);
                match assoc_find(s, k2) {
                    Some(j) => {
                        assert(s[j].0 == k2);
                        assert(j != i);
                        assert(s2[j] == s[j]);
                    },
                    None => {},
                }
            }
            assert forall|a: int, b: int| 0 <= a < b < s2.len() implies s2[a].0 != s2[b].0 by {
                assert(s2[a].0 == s[a].0 && s2[b].0 == s[b].0);
            }
        },
    }
}

/// `assoc_find` returns an index that holds the key, and the first one.
pub proof fn lemma_assoc_find_unique<K, T>(s: Seq<(K, Seq<T>)>, k: K)
    ensures
        match assoc_find(s, k) {
            Some(i) => 0 <= i < s.len() && s[i].0 == k && forall|j: int|
                0 <= j < i ==> s[j].0 != k,
            None => forall|j: int| 0 <= j < s.len() ==> s[j].0 != k,
        },
    decreases s.len(),
{
    if s.len() == 0 {
    } else if s[0].0 == k {
    } else {
        lemma_assoc_find_unique(s.skip(1), k);
        match assoc_find(s.skip(1), k) {
            Some(i) => {
                assert(s.skip(1)[i] == s[i + 1]);
                assert forall|j: int| 0 <= j < i + 1 implies s[j].0 != k by {
                    if j > 0 {
                        assert(s.skip(1)[j - 1] == s[j]);
                    }
                }
            },
            None => {
                assert forall|j: int| 0 <= j < s.len() implies s[j].0 != k by {
                    if j > 0 {
                        assert(s.skip(1)[j - 1] == s[j]);
                    }
                }
            },
        }
    }
}

proof fn lemma_assoc_find_push<K, T>(s: Seq<(K, Seq<T>)>, k2: K, p: (K, Seq<T>))
    ensures
        assoc_find(s.push(p), k2) == match assoc_find(s, k2) {
            Some(i) => Some(i),
            None => if p.0 == k2 {
                Some(s.len() as int)
            } else {
                None::<int>
            },
        },
    decreases s.len(),
{
    if s.len() == 0 {
        assert(s.push(p)[0] == p);
        assert(s.push(p).skip(1) =~= Seq::<(K, Seq<T>)>::empty());
        if p.0 == k2 {
            assert(assoc_find(s.push(p), k2) == Some(0int));
        } else {
            assert(assoc_find(s.push(p), k2) == assoc_find(s.push(p).skip(1), k2));
        }
    } else {
        assert(s.push(p)[0] == s[0]);
        assert(s.push(p).skip(1) =~= s.skip(1).push(p));
        lemma_assoc_find_push(s.skip(1), k2, p);
        if s[0].0 == k2 {
            assert(assoc_find(s, k2) == Some(0int));
            assert(assoc_find(s.push(p), k2) == Some(0int));
        } else {
            assert(assoc_find(s.push(p), k2) == match assoc_find(s.skip(1).push(p), k2) {
                None => None::<int>,
                Some(i) => Some(i + 1),
            });
            assert(s.skip(1).len() + 1 == s.len());
        }
    }
}

proof fn lemma_assoc_find_update_same_key<K, T>(
    s: Seq<(K, Seq<T>)>,
    k2: K,
    i: int,
    p: (K, Seq<T>),
)
    requires
        0 <= i < s.len(),
        p.0 == s[i].0,
    ensures
        assoc_find(s.update(i, p), k2) == assoc_find(s, k2),
    decreases s.len(),
{
    if s.len() == 0 {
    } else if i == 0 {
        assert(s.update(i, p)[0] == p);
        assert(s.update(i, p).skip(1) =~= s.skip(1));
    } else {
        assert(s.update(i, p)[0] == s[0]);
        assert(s.update(i, p).skip(1) =~= s.skip(1).update(i - 1, p));
        assert(s.skip(1)[i - 1] == s[i]);
        lemma_assoc_find_update_same_key(s.skip(1), k2, i - 1, p);
    }
}

/// A linear scan that stopped at `i` determines `assoc_find`.
pub proof fn lemma_assoc_find_at<K, T>(s: Seq<(K, Seq<T>)>, k: K, i: int)
    requires
        0 <= i <= s.len(),
        forall|j: int| 0 <= j < i ==> s[j].0 != k,
        i < s.len() ==> s[i].0 == k,
    ensures
        assoc_find(s, k) == if i < s.len() {
            Some(i)
        } else {
            None::<int>
        },
    decreases s.len(),
{
    if s.len() == 0 {
    } else if i == 0 {
    } else {
        lemma_assoc_find_at(s.skip(1), k, i - 1);
        assert forall|j: int| 0 <= j < i - 1 implies s.skip(1)[j].0 != k by {
            assert(s.skip(1)[j] == s[j + 1]);
        }
        assert(i - 1 < s.skip(1).len() ==> s.skip(1)[i - 1].0 == k);
    }
}

/// The market side is well formed: per-instrument series are keyed uniquely
/// and every stored snapshot carries in-range decimals.
pub open spec fn market_wf(m: MarketM) -> bool {
    &&& forall|i: int, j: int| 0 <= i < j < m.quotes.len() ==> m.quotes[i].0 != m.quotes[j].0
    &&& forall|i: int, j: int| 0 <= i < j < m.trades.len() ==> m.trades[i].0 != m.trades[j].0
    &&& forall|i: int, j: int|
        0 <= i < j < m.agg_trades.len() ==> m.agg_trades[i].0 != m.agg_trades[j].0
    &&& forall|i: int, k: int|
        0 <= i < m.quotes.len() && 0 <= k < m.quotes[i].1.len() ==> tick_wf(m.quotes[i].1[k])
    &&& forall|i: int, k: int|
        0 <= i < m.trades.len() && 0 <= k < m.trades[i].1.len() ==> trade_wf(m.trades[i].1[k])
    &&& forall|i: int, k: int|
        0 <= i < m.agg_trades.len() && 0 <= k < m.agg_trades[i].1.len() ==> trade_wf(
            m.agg_trades[i].1[k],
        )
}

/// Find the index of an instrument's series in an association vector of ticks.
fn find_tick_idx(v: &Vec<(Instrument, Vec<Tick>)>, inst: &Instrument) -> (r: Option<usize>)
    ensures
        match r {
            Some(i) => i < v.len() && ikey(v@[i as int].0) == ikey(*inst) && forall|j: int|
                0 <= j < i ==> ikey(v@[j].0) != ikey(*inst),
            None => forall|j: int| 0 <= j < v.len() ==> ikey(v@[j].0) != ikey(*inst),
        },
{
    let mut i: usize = 0;
    while i < v.len()
        invariant
            0 <= i <= v.len(),
            forall|j: int| 0 <= j < i ==> ikey(v@[j].0) != ikey(*inst),
        decreases v.len() - i,
    {
        if v[i].0.matches(inst) {
            return Some(i);
        }
        i += 1;
    }
    None
}

/// Find the index of an instrument's series in an association vector of trades.
fn find_trade_idx(v: &Vec<(Instrument, Vec<Trade>)>, inst: &Instrument) -> (r: Option<usize>)
    ensures
        match r {
            Some(i) => i < v.len() && ikey(v@[i as int].0) == ikey(*inst) && forall|j: int|
                0 <= j < i ==> ikey(v@[j].0) != ikey(*inst),
            None => forall|j: int| 0 <= j < v.len() ==> ikey(v@[j].0) != ikey(*inst),
        },
{
    let mut i: usize = 0;
    while i < v.len()
        invariant
            0 <= i <= v.len(),
            forall|j: int| 0 <= j < i ==> ikey(v@[j].0) != ikey(*inst),
        decreases v.len() - i,
    {
        if v[i].0.matches(inst) {
            return Some(i);
        }
        i += 1;
    }
    None
}

/// The mapped model of a tick association vector.
pub open spec fn tick_assoc(v: Seq<(Instrument, Vec<Tick>)>) -> Seq<(IKey, Seq<Tick>)> {
    v.map_values(|p: (Instrument, Vec<Tick>)| (ikey(p.0), p.1@))
}

/// The mapped model of a trade association vector.
pub open spec fn trade_assoc(v: Seq<(Instrument, Vec<Trade>)>) -> Seq<(IKey, Seq<Trade>)> {
    v.map_values(|p: (Instrument, Vec<Trade>)| (ikey(p.0), p.1@))
}

/// Append a tick to its instrument's series, creating the series on first use.
fn append_tick(v: &mut Vec<(Instrument, Vec<Tick>)>, tick: &Tick)
    ensures
        tick_assoc(final(v)@) == assoc_append(tick_assoc(old(v)@), ikey(tick.instrument), *tick),
{
    let k = find_tick_idx(v, &tick.instrument);
    match k {
        Some(i) => {
            proof {
                lemma_assoc_find_at(tick_assoc(v@), ikey(tick.instrument), i as int);
            }
            let mut pair = v.remove(i);
            pair.1.push(tick.clone());
            let ghost vmid = v@;
            v.insert(i, pair);
            proof {
                assert(v@ =~= old(v)@.update(
                    i as int,
                    (old(v)@[i as int].0, old(v)@[i as int].1),
                ).update(i as int, (old(v)@[i as int].0, pair.1)));
                assert(tick_assoc(v@) =~= assoc_append(
                    tick_assoc(old(v)@),
                    ikey(tick.instrument),
                    *tick,
                ));
            }
        },
        None => {
            proof {
                lemma_assoc_find_at(
                    tick_assoc(v@),
                    ikey(tick.instrument),
                    v@.len() as int,
                );
            }
            let mut series: Vec<Tick> = Vec::new();
            series.push(tick.clone());
            v.push((tick.instrument.clone(), series));
            proof {
                assert(tick_assoc(v@) =~= assoc_append(
                    tick_assoc(old(v)@),
                    ikey(tick.instrument),
                    *tick,
                ));
            }
        },
    }
}

/// Append a trade to its instrument's series, creating the series on first use.
fn append_trade(v: &mut Vec<(Instrument, Vec<Trade>)>, trade: &Trade)
    ensures
        trade_assoc(final(v)@) == assoc_append(trade_assoc(old(v)@), ikey(trade.instrument), *trade),
{
    let k = find_trade_idx(v, &trade.instrument);
    match k {
        Some(i) => {
            proof {
                lemma_assoc_find_at(trade_assoc(v@), ikey(trade.instrument), i as int);
            }
            let mut pair = v.remove(i);
            pair.1.push(trade.clone());
            v.insert(i, pair);
            proof {
                assert(trade_assoc(v@) =~= assoc_append(
                    trade_assoc(old(v)@),
                    ikey(trade.instrument),
                    *trade,
                ));
            }
        },
        None => {
            proof {
                lemma_assoc_find_at(
                    trade_assoc(v@),
                    ikey(trade.instrument),
                    v@.len() as int,
                );
            }
            let mut series: Vec<Trade> = Vec::new();
            series.push(trade.clone());
            v.push((trade.instrument.clone(), series));
            proof {
                assert(trade_assoc(v@) =~= assoc_append(
                    trade_assoc(old(v)@),
                    ikey(trade.instrument),
                    *trade,
                ));
            }
        },
    }
}

impl MarketState {
    /// An empty market state.
    pub fn new() -> (r: MarketState)
        ensures
            r@.quotes == Seq::<(IKey, Seq<Tick>)>::empty(),
            r@.trades == Seq::<(IKey, Seq<Trade>)>::empty(),
            r@.agg_trades == Seq::<(IKey, Seq<Trade>)>::empty(),
            market_wf(r@),
    {
        let r = MarketState { quotes: Vec::new(), trades: Vec::new(), agg_trades: Vec::new() };
        proof {
            assert(r@.quotes =~= Seq::<(IKey, Seq<Tick>)>::empty());
            assert(r@.trades =~= Seq::<(IKey, Seq<Trade>)>::empty());
            assert(r@.agg_trades =~= Seq::<(IKey, Seq<Trade>)>::empty());
        }
        r
    }

    /// Append a quote snapshot to its instrument's buffer.
    pub fn handle_tick_update(&mut self, tick: &Tick)
        requires
            market_wf(old(self)@),
            tick_wf(*tick),
        ensures
            final(self)@.quotes == assoc_append(old(self)@.quotes, ikey(tick.instrument), *tick),
            final(self)@.trades == old(self)@.trades,
            final(self)@.agg_trades == old(self)@.agg_trades,
            market_wf(final(self)@),
    {
        proof {
            lemma_assoc_append_find(old(self)@.quotes, ikey(tick.instrument), *tick);
        }
        append_tick(&mut self.quotes, tick);
        proof {
            lemma_market_wf_after_quotes(old(self)@, self@, ikey(tick.instrument), *tick);
        }
    }

    /// Append a trade to its instrument's buffer.
    pub fn handle_trade_update(&mut self, trade: &Trade)
        requires
            market_wf(old(self)@),
            trade_wf(*trade),
        ensures
            final(self)@.trades == assoc_append(old(self)@.trades, ikey(trade.instrument), *trade),
            final(self)@.quotes == old(self)@.quotes,
            final(self)@.agg_trades == old(self)@.agg_trades,
            market_wf(final(self)@),
    {
        proof {
            lemma_assoc_append_find(old(self)@.trades, ikey(trade.instrument), *trade);
        }
        append_trade(&mut self.trades, trade);
        proof {
            lemma_trades_wf_after_append(old(self)@.trades, self@.trades, ikey(trade.instrument), *trade);
        }
    }

    /// Append an aggregated trade to its instrument's buffer.
    pub fn handle_agg_trade_update(&mut self, trade: &Trade)
        requires
            market_wf(old(self)@),
            trade_wf(*trade),
        ensures
            final(self)@.agg_trades == assoc_append(
                old(self)@.agg_trades,
                ikey(trade.instrument),
                *trade,
            ),
            final(self)@.quotes == old(self)@.quotes,
            final(self)@.trades == old(self)@.trades,
            market_wf(final(self)@),
    {
        proof {
            lemma_assoc_append_find(old(self)@.agg_trades, ikey(trade.instrument), *trade);
        }
        append_trade(&mut self.agg_trades, trade);
        proof {
            lemma_trades_wf_after_append(
                old(self)@.agg_trades,
                self@.agg_trades,
                ikey(trade.instrument),
                *trade,
            );
            assert(self@.quotes == old(self)@.quotes);
            assert(self@.trades == old(self)@.trades);
            assert forall|i: int, j: int|
                0 <= i < j < self@.quotes.len() implies self@.quotes[i].0
                    != self@.quotes[j].0 by {
                assert(old(self)@.quotes[i].0 != old(self)@.quotes[j].0);
            }
            assert forall|i: int, j: int|
                0 <= i < j < self@.trades.len() implies self@.trades[i].0
                    != self@.trades[j].0 by {
                assert(old(self)@.trades[i].0 != old(self)@.trades[j].0);
            }
            assert(forall|i: int, j: int|
                0 <= i < j < self@.agg_trades.len() ==> self@.agg_trades[i].0
                    != self@.agg_trades[j].0);
            assert(forall|i: int, k: int|
                0 <= i < self@.quotes.len() && 0 <= k < self@.quotes[i].1.len() ==> tick_wf(
                    self@.quotes[i].1[k],
                ));
            assert(forall|i: int, k: int|
                0 <= i < self@.trades.len() && 0 <= k < self@.trades[i].1.len() ==> trade_wf(
                    self@.trades[i].1[k],
                ));
            assert(forall|i: int, k: int|
                0 <= i < self@.agg_trades.len() && 0 <= k < self@.agg_trades[i].1.len()
                    ==> trade_wf(self@.agg_trades[i].1[k]));
            assert(market_wf(self@));
        }
    }
}

/// Appending a well-formed tick keeps the quote association well formed.
proof fn lemma_market_wf_after_quotes(m0: MarketM, m1: MarketM, k: IKey, t: Tick)
    requires
        market_wf(m0),
        tick_wf(t),
        m1.quotes == assoc_append(m0.quotes, k, t),
        m1.trades == m0.trades,
        m1.agg_trades == m0.agg_trades,
    ensures
        market_wf(m1),
{
    lemma_assoc_append_find(m0.quotes, k, t);
    lemma_assoc_find_unique(m0.quotes, k);
    assert forall|i: int, kk: int|
        0 <= i < m1.quotes.len() && 0 <= kk < m1.quotes[i].1.len() implies tick_wf(
        m1.quotes[i].1[kk],
    ) by {
        match assoc_find(m0.quotes, k) {
            None => {
                if i < m0.quotes.len() {
                    assert(m1.quotes[i] == m0.quotes[i]);
                } else {
                    assert(m1.quotes[i].1 == seq![t]);
                }
            },
            Some(f) => {
                if i != f {
                    assert(m1.quotes[i] == m0.quotes[i]);
                } else {
                    assert(m1.quotes[i].1 == m0.quotes[f].1.push(t));
                    if kk < m0.quotes[f].1.len() {
                        assert(m1.quotes[i].1[kk] == m0.quotes[f].1[kk]);
                    } else {
                        assert(m1.quotes[i].1[kk] == t);
                    }
                }
            },
        }
    }
}

/// Appending a well-formed trade keeps a trade association well formed.
proof fn lemma_trades_wf_after_append(
    s0: Seq<(IKey, Seq<Trade>)>,
    s1: Seq<(IKey, Seq<Trade>)>,
    k: IKey,
    t: Trade,
)
    requires
        forall|i: int, j: int| 0 <= i < j < s0.len() ==> s0[i].0 != s0[j].0,
        forall|i: int, kk: int|
            0 <= i < s0.len() && 0 <= kk < s0[i].1.len() ==> trade_wf(s0[i].1[kk]),
        trade_wf(t),
        s1 == assoc_append(s0, k, t),
    ensures
        forall|i: int, j: int| 0 <= i < j < s1.len() ==> s1[i].0 != s1[j].0,
        forall|i: int, kk: int|
            0 <= i < s1.len() && 0 <= kk < s1[i].1.len() ==> trade_wf(s1[i].1[kk]),
{
    lemma_assoc_append_find(s0, k, t);
    lemma_assoc_find_unique(s0, k);
    assert forall|i: int, kk: int|
        0 <= i < s1.len() && 0 <= kk < s1[i].1.len() implies trade_wf(s1[i].1[kk]) by {
        match assoc_find(s0, k) {
            None => {
                if i < s0.len() {
                    assert(s1[i] == s0[i]);
                } else {
                    assert(s1[i].1 == seq![t]);
                }
            },
            Some(f) => {
                if i != f {
                    assert(s1[i] == s0[i]);
                } else {
                    assert(s1[i].1 == s0[f].1.push(t));
                    if kk < s0[f].1.len() {
                        assert(s1[i].1[kk] == s0[f].1[kk]);
                    } else {
                        assert(s1[i].1[kk] == t);
                    }
                }
            },
        }
    }
}

// ---------------------------------------------------------------------------
// Generic series replacement under a key
// ---------------------------------------------------------------------------

/// The association after replacing (or creating) the series under `k`.
pub open spec fn assoc_set<K, T>(s: Seq<(K, Seq<T>)>, k: K, w: Seq<T>) -> Seq<(K, Seq<T>)> {
    match assoc_find(s, k) {
        None => s.push((k, w)),
        Some(i) => s.update(i, (k, w)),
    }
}

/// Replacing a series changes exactly that series and preserves key
/// uniqueness.
pub proof fn lemma_assoc_set<K, T>(s: Seq<(K, Seq<T>)>, k: K, w: Seq<T>)
    requires
        forall|i: int, j: int| 0 <= i < j < s.len() ==> s[i].0 != s[j].0,
    ensures
        forall|i: int, j: int|
            0 <= i < j < assoc_set(s, k, w).len() ==> assoc_set(s, k, w)[i].0 != assoc_set(
                s,
                k,
                w,
            )[j].0,
        assoc_series(assoc_set(s, k, w), k) == w,
        forall|k2: K| k2 != k ==> assoc_series(assoc_set(s, k, w), k2) == assoc_series(s, k2),
        forall|i: int|
            0 <= i < assoc_set(s, k, w).len() ==> assoc_set(s, k, w)[i].1 == w || (0 <= i
                < s.len() && assoc_set(s, k, w)[i].1 == s[i].1),
{
    lemma_assoc_find_unique(s, k);
    let s2 = assoc_set(s, k, w);
    match assoc_find(s, k) {
        None => {
            assert forall|k2: K| true implies #[trigger] assoc_find(s2, k2) == (if k2 == k {
                Some(s.len() as int)
            } else {
                assoc_find(s, k2)
            }) by {
                lemma_assoc_find_push(s, k2, (k, w));
            }
            assert(s2[s.len() as int].1 == w);
            assert forall|k2: K| k2 != k implies assoc_series(s2, k2) == assoc_series(
                s,
                k2,
            ) by {
                lemma_assoc_find_unique(s, k2);
                match assoc_find(s, k2) {
                    Some(j) => {
                        assert(s2[j] == s[j]);
                    },
                    None => {},
                }
            }
            assert forall|i: int, j: int| 0 <= i < j < s2.len() implies s2[i].0 != s2[j].0 by {
                if j < s.len() {
                    assert(s2[i] == s[i] && s2[j] == s[j]);
                } else {
                    assert(s2[i] == s[i] && s2[j].0 == k);
                }
            }
        },
        Some(f) => {
            assert(s[f].0 == k);
            assert forall|k2: K| true implies #[trigger] assoc_find(s2, k2) == assoc_find(
                s,
                k2,
            ) by {
                lemma_assoc_find_update_same_key(s, k2, f, (k, w));
            }
            assert(s2[f].1 == w);
            assert forall|k2: K| k2 != k implies assoc_series(s2, k2) == assoc_series(
                s,
                k2,
            ) by {
                lemma_assoc_find_unique(s, k2);
                match assoc_find(s, k2) {
                    Some(j) => {
                        assert(s[j].0 == k2);
                        assert(j != f);
                        assert(s2[j] == s[j]);
                    },
                    None => {},
                }
            }
            assert forall|a: int, b: int| 0 <= a < b < s2.len() implies s2[a].0 != s2[b].0 by {
                assert(s2[a].0 == s[a].0 && s2[b].0 == s[b].0);
            }
        },
    }
}

// ---------------------------------------------------------------------------
// The feature side: per-(instrument, feature-id) buckets
// ---------------------------------------------------------------------------

/// The key of a feature bucket: instrument key plus feature identifier.
pub struct FKey {
    pub ik: IKey,
    pub fid: Seq<char>,
}

/// One stored feature series.
pub struct FBucket {
    pub instrument: Instrument,
    pub feature_id: String,
    pub entries: Vec<FeatureEntry>,
}

/// The mapped model of a bucket vector.
pub open spec fn feat_assoc(v: Seq<FBucket>) -> Seq<(FKey, Seq<FeatureEntry>)> {
    v.map_values(
        |b: FBucket| (FKey { ik: ikey(b.instrument), fid: b.feature_id@ }, b.entries@),
    )
}

/// The feature side is well formed: buckets are keyed uniquely and each is a
/// well-formed bucket.
pub open spec fn feats_wf(s: Seq<(FKey, Seq<FeatureEntry>)>) -> bool {
    &&& forall|i: int, j: int| 0 <= i < j < s.len() ==> s[i].0 != s[j].0
    &&& forall|i: int| 0 <= i < s.len() ==> bucket_entries_wf(s[i].1)
}

/// The feature side after one feature event is recorded.
pub open spec fn feats_add(
    s: Seq<(FKey, Seq<FeatureEntry>)>,
    k: FKey,
    ts: u64,
    v: Value,
) -> Seq<(FKey, Seq<FeatureEntry>)> {
    assoc_set(s, k, insert_entry(assoc_series(s, k), ts, v))
}

/// Find the index of a feature bucket.
fn find_bucket_idx(v: &Vec<FBucket>, inst: &Instrument, fid: &String) -> (r: Option<usize>)
    ensures
        match r {
            Some(i) => i < v.len() && feat_assoc(v@)[i as int].0 == (FKey {
                ik: ikey(*inst),
                fid: fid@,
            }) && forall|j: int|
                0 <= j < i ==> feat_assoc(v@)[j].0 != (FKey { ik: ikey(*inst), fid: fid@ }),
            None => forall|j: int|
                0 <= j < v.len() ==> feat_assoc(v@)[j].0 != (FKey {
                    ik: ikey(*inst),
                    fid: fid@,
                }),
        },
{
    let mut i: usize = 0;
    while i < v.len()
        invariant
            0 <= i <= v.len(),
            forall|j: int|
                0 <= j < i ==> feat_assoc(v@)[j].0 != (FKey { ik: ikey(*inst), fid: fid@ }),
        decreases v.len() - i,
    {
        if v[i].instrument.matches(inst) && v[i].feature_id == *fid {
            return Some(i);
        }
        i += 1;
    }
    None
}

/// Insert one observation into a bucket, assigning its tie-breaker.
fn bucket_insert(entries: &mut Vec<FeatureEntry>, ts: u64, v: Value)
    requires
        bucket_entries_wf(old(entries)@),
        val_wf(v),
    ensures
        final(entries)@ == insert_entry(old(entries)@, ts, v),
        bucket_entries_wf(final(entries)@),
{
    let ghost s = entries@;
    let mut i: usize = entries.len();
    proof {
        lemma_insert_pos(s, ts);
        lemma_insert_entry_wf(s, ts, v);
        assert(s.take(i as int) =~= s);
    }
    while i > 0 && entries[i - 1].ts > ts
        invariant
            0 <= i <= entries.len(),
            entries@ == s,
            insert_pos(s, ts) == insert_pos(s.take(i as int), ts),
            forall|j: int| i <= j < s.len() ==> s[j].ts > ts,
        decreases i,
    {
        proof {
            assert(s.take(i as int).drop_last() =~= s.take(i as int - 1));
            assert(s.take(i as int).last() == s[i as int - 1]);
        }
        i -= 1;
    }
    proof {
        if i > 0 {
            assert(s.take(i as int).last() == s[i as int - 1]);
            assert(insert_pos(s.take(i as int), ts) == i as int);
        } else {
            assert(s.take(0int) =~= Seq::<FeatureEntry>::empty());
        }
        assert(insert_pos(s, ts) == i as int);
    }
    let tie: usize = if i > 0 && entries[i - 1].ts == ts {
        proof {
            assert((s[i as int - 1].tie as int) < s.len());
        }
        entries[i - 1].tie + 1
    } else {
        0
    };
    proof {
        assert(tie as int == new_tie(s, ts));
    }
    entries.insert(i, FeatureEntry { ts, tie, value: v });
    proof {
        assert(entries@ == insert_entry(s, ts, v));
    }
}

// ---------------------------------------------------------------------------
// Base identifiers
// ---------------------------------------------------------------------------

/// The reserved base identifiers: raw market fields produced by ingestion
/// and consumed by leaf features without a graph edge.
#[derive(Clone, Copy, PartialEq, Eq, Structural, Debug)]
pub enum BaseKind {
    BidPrice,
    AskPrice,
    BidQty,
    AskQty,
    TradePrice,
    TradeQty,
    MidPrice,
    NotBase,
}

/// Classify an identifier against the frozen base identifier set.
pub open spec fn spec_base_kind(s: Seq<char>) -> BaseKind {
    if s == "bid_price"@ {
        BaseKind::BidPrice
    } else if s == "ask_price"@ {
        BaseKind::AskPrice
    } else if s == "bid_qty"@ {
        BaseKind::BidQty
    } else if s == "ask_qty"@ {
        BaseKind::AskQty
    } else if s == "trade_price"@ {
        BaseKind::TradePrice
    } else if s == "trade_qty"@ {
        BaseKind::TradeQty
    } else if s == "mid_price"@ {
        BaseKind::MidPrice
    } else {
        BaseKind::NotBase
    }
}

/// Whether an identifier is a base identifier.
pub open spec fn is_base_id(s: Seq<char>) -> bool {
    spec_base_kind(s) != BaseKind::NotBase
}

/// The frozen base identifier set, literal by literal.
pub proof fn lemma_base_lits()
    ensures
        spec_base_kind("bid_price"@) == BaseKind::BidPrice,
        spec_base_kind("ask_price"@) == BaseKind::AskPrice,
        spec_base_kind("bid_qty"@) == BaseKind::BidQty,
        spec_base_kind("ask_qty"@) == BaseKind::AskQty,
        spec_base_kind("trade_price"@) == BaseKind::TradePrice,
        spec_base_kind("trade_qty"@) == BaseKind::TradeQty,
        spec_base_kind("mid_price"@) == BaseKind::MidPrice,
{
    reveal_strlit("bid_price");
    reveal_strlit("ask_price");
    reveal_strlit("bid_qty");
    reveal_strlit("ask_qty");
    reveal_strlit("trade_price");
    reveal_strlit("trade_qty");
    reveal_strlit("mid_price");
    assert("bid_price"@.len() == 9 && "bid_price"@[0] == 'b');
    assert("ask_price"@.len() == 9 && "ask_price"@[0] == 'a');
    assert("bid_qty"@.len() == 7 && "bid_qty"@[0] == 'b');
    assert("ask_qty"@.len() == 7 && "ask_qty"@[0] == 'a');
    assert("trade_price"@.len() == 11);
    assert("trade_qty"@.len() == 9 && "trade_qty"@[0] == 't');
    assert("mid_price"@.len() == 9 && "mid_price"@[0] == 'm');
}

/// Classify an identifier at run time.
pub fn base_kind(s: &String) -> (k: BaseKind)
    ensures
        k == spec_base_kind(s@),
{
    let lit = String::from_str("bid_price");
    if *s == lit {
        return BaseKind::BidPrice;
    }
    let lit = String::from_str("ask_price");
    if *s == lit {
        return BaseKind::AskPrice;
    }
    let lit = String::from_str("bid_qty");
    if *s == lit {
        return BaseKind::BidQty;
    }
    let lit = String::from_str("ask_qty");
    if *s == lit {
        return BaseKind::AskQty;
    }
    let lit = String::from_str("trade_price");
    if *s == lit {
        return BaseKind::TradePrice;
    }
    let lit = String::from_str("trade_qty");
    if *s == lit {
        return BaseKind::TradeQty;
    }
    let lit = String::from_str("mid_price");
    if *s == lit {
        return BaseKind::MidPrice;
    }
    BaseKind::NotBase
}

/// The (timestamp, value) pair a tick contributes to a base series.
pub open spec fn tick_pair(t: Tick, k: BaseKind) -> (u64, Value) {
    (
        t.event_time,
        match k {
            BaseKind::BidPrice => Value::Num(t.bid_price),
            BaseKind::AskPrice => Value::Num(t.ask_price),
            BaseKind::BidQty => Value::Num(t.bid_quantity),
            BaseKind::AskQty => Value::Num(t.ask_quantity),
            _ => Value::Num(spec_mid(t.bid_price, t.ask_price)),
        },
    )
}

/// A quote buffer seen as a base series.
pub open spec fn tick_pairs_spec(s: Seq<Tick>, k: BaseKind) -> Seq<(u64, Value)> {
    s.map_values(|t: Tick| tick_pair(t, k))
}

/// The (timestamp, value) pair a trade contributes to a base series.
pub open spec fn trade_pair(t: Trade, k: BaseKind) -> (u64, Value) {
    (
        t.event_time,
        if k == BaseKind::TradePrice {
            Value::Num(t.price)
        } else {
            Value::Num(t.quantity)
        },
    )
}

/// A trade buffer seen as a base series.
pub open spec fn trade_pairs_spec(s: Seq<Trade>, k: BaseKind) -> Seq<(u64, Value)> {
    s.map_values(|t: Trade| trade_pair(t, k))
}

/// A feature bucket seen as a series.
pub open spec fn entries_pairs(s: Seq<FeatureEntry>) -> Seq<(u64, Value)> {
    s.map_values(|e: FeatureEntry| (e.ts, e.value))
}

/// The base series a base identifier denotes for one instrument.
pub open spec fn base_series(m: MarketM, ik: IKey, k: BaseKind) -> Seq<(u64, Value)> {
    if k == BaseKind::TradePrice || k == BaseKind::TradeQty {
        trade_pairs_spec(assoc_series(m.trades, ik), k)
    } else {
        tick_pairs_spec(assoc_series(m.quotes, ik), k)
    }
}

fn tick_pairs(v: &Vec<Tick>, k: BaseKind) -> (r: Vec<(u64, Value)>)
    requires
        forall|i: int| 0 <= i < v@.len() ==> tick_wf(v@[i]),
    ensures
        r@ == tick_pairs_spec(v@, k),
{
    let mut r: Vec<(u64, Value)> = Vec::new();
    let mut i: usize = 0;
    while i < v.len()
        invariant
            0 <= i <= v.len(),
            forall|j: int| 0 <= j < v@.len() ==> tick_wf(v@[j]),
            r@ =~= tick_pairs_spec(v@.take(i as int), k),
        decreases v.len() - i,
    {
        let t = &v[i];
        let val = match k {
            BaseKind::BidPrice => t.bid_price,
            BaseKind::AskPrice => t.ask_price,
            BaseKind::BidQty => t.bid_quantity,
            BaseKind::AskQty => t.ask_quantity,
            _ => t.mid_price(),
        };
        r.push((t.event_time, Value::Num(val)));
        proof {
            assert(r@ =~= tick_pairs_spec(v@.take(i as int + 1), k));
        }
        i += 1;
    }
    proof {
        assert(v@.take(v@.len() as int) =~= v@);
    }
    r
}

fn trade_pairs(v: &Vec<Trade>, k: BaseKind) -> (r: Vec<(u64, Value)>)
    ensures
        r@ == trade_pairs_spec(v@, k),
{
    let mut r: Vec<(u64, Value)> = Vec::new();
    let mut i: usize = 0;
    while i < v.len()
        invariant
            0 <= i <= v.len(),
            r@ =~= trade_pairs_spec(v@.take(i as int), k),
        decreases v.len() - i,
    {
        let t = &v[i];
        let val = match k {
            BaseKind::TradePrice => t.price,
            _ => t.quantity,
        };
        r.push((t.event_time, Value::Num(val)));
        proof {
            assert(r@ =~= trade_pairs_spec(v@.take(i as int + 1), k));
        }
        i += 1;
    }
    proof {
        assert(v@.take(v@.len() as int) =~= v@);
    }
    r
}

fn bucket_pairs(v: &Vec<FeatureEntry>) -> (r: Vec<(u64, Value)>)
    ensures
        r@ == entries_pairs(v@),
{
    let mut r: Vec<(u64, Value)> = Vec::new();
    let mut i: usize = 0;
    while i < v.len()
        invariant
            0 <= i <= v.len(),
            r@ =~= entries_pairs(v@.take(i as int)),
        decreases v.len() - i,
    {
        let e = v[i];
        r.push((e.ts, e.value));
        proof {
            assert(r@ =~= entries_pairs(v@.take(i as int + 1)));
        }
        i += 1;
    }
    proof {
        assert(v@.take(v@.len() as int) =~= v@);
    }
    r
}

// ---------------------------------------------------------------------------
// The state store proper
// ---------------------------------------------------------------------------

/// The state store: raw market history plus derived feature series.
pub struct State {
    pub market: MarketState,
    pub features: Vec<FBucket>,
}

/// The mathematical model of the whole store.
pub struct StateM {
    pub market: MarketM,
    pub feats: Seq<(FKey, Seq<FeatureEntry>)>,
}

impl View for State {
    type V = StateM;

    open spec fn view(&self) -> StateM {
        StateM { market: self.market@, feats: feat_assoc(self.features@) }
    }
}

/// One query's result over the store's model.
pub open spec fn read_series_spec(
    s: StateM,
    ik: IKey,
    fid: Seq<char>,
    t: u64,
    q: QueryType,
) -> Seq<Value> {
    let k = spec_base_kind(fid);
    if k != BaseKind::NotBase {
        query_in(base_series(s.market, ik, k), t, q)
    } else {
        query_in(entries_pairs(assoc_series(s.feats, FKey { ik, fid })), t, q)
    }
}

/// The latest mid-price at or before `t`, over the store's model.
pub open spec fn latest_price_spec(s: StateM, ik: IKey, t: u64) -> Option<Dec> {
    let l = latest_in(tick_pairs_spec(assoc_series(s.market.quotes, ik), BaseKind::MidPrice), t);
    if l.len() == 0 {
        None
    } else {
        match l[0] {
            Value::Num(d) => Some(d),
            Value::NaN => None,
        }
    }
}

impl State {
    /// The store's invariant.
    pub open spec fn wf(self) -> bool {
        market_wf(self@.market) && feats_wf(self@.feats)
    }

    /// An empty store.
    pub fn new() -> (r: State)
        ensures
            r@.market.quotes == Seq::<(IKey, Seq<Tick>)>::empty(),
            r@.market.trades == Seq::<(IKey, Seq<Trade>)>::empty(),
            r@.market.agg_trades == Seq::<(IKey, Seq<Trade>)>::empty(),
            r@.feats == Seq::<(FKey, Seq<FeatureEntry>)>::empty(),
            r.wf(),
    {
        let r = State { market: MarketState::new(), features: Vec::new() };
        proof {
            assert(r@.feats =~= Seq::<(FKey, Seq<FeatureEntry>)>::empty());
        }
        r
    }

    /// Record a quote snapshot.
    pub fn ingest_tick(&mut self, tick: &Tick)
        requires
            old(self).wf(),
            tick_wf(*tick),
        ensures
            final(self)@.market.quotes == assoc_append(
                old(self)@.market.quotes,
                ikey(tick.instrument),
                *tick,
            ),
            final(self)@.market.trades == old(self)@.market.trades,
            final(self)@.market.agg_trades == old(self)@.market.agg_trades,
            final(self)@.feats == old(self)@.feats,
            final(self).wf(),
    {
        self.market.handle_tick_update(tick);
    }

    /// Record a trade.
    pub fn ingest_trade(&mut self, trade: &Trade)
        requires
            old(self).wf(),
            trade_wf(*trade),
        ensures
            final(self)@.market.trades == assoc_append(
                old(self)@.market.trades,
                ikey(trade.instrument),
                *trade,
            ),
            final(self)@.market.quotes == old(self)@.market.quotes,
            final(self)@.market.agg_trades == old(self)@.market.agg_trades,
            final(self)@.feats == old(self)@.feats,
            final(self).wf(),
    {
        self.market.handle_trade_update(trade);
    }

    /// Record a derived feature value, assigning its composite key.
    pub fn add_feature(&mut self, event: FeatureEvent)
        requires
            old(self).wf(),
            val_wf(event.value),
        ensures
            final(self)@.feats == feats_add(
                old(self)@.feats,
                FKey { ik: ikey(event.instrument), fid: event.id@ },
                event.event_time,
                event.value,
            ),
            final(self)@.market == old(self)@.market,
            final(self).wf(),
    {
        let ghost k = FKey { ik: ikey(event.instrument), fid: event.id@ };
        let ghost s0 = self@.feats;
        let flen = self.features.len();
        proof {
            assert(s0.len() == flen as int);
            lemma_assoc_set(s0, k, insert_entry(assoc_series(s0, k), event.event_time, event.value));
        }
        let idx = find_bucket_idx(&self.features, &event.instrument, &event.id);
        match idx {
            Some(i) => {
                let blen = self.features[i].entries.len();
                proof {
                    lemma_assoc_find_at(s0, k, i as int);
                    assert(assoc_series(s0, k) == s0[i as int].1);
                    assert(s0[i as int].1 == self.features@[i as int].entries@);
                    assert(assoc_series(s0, k).len() == blen as int);
                    lemma_insert_entry_wf(assoc_series(s0, k), event.event_time, event.value);
                }
                let mut b = self.features.remove(i);
                bucket_insert(&mut b.entries, event.event_time, event.value);
                self.features.insert(i, b);
                proof {
                    assert(feat_assoc(self.features@) =~= assoc_set(
                        s0,
                        k,
                        insert_entry(assoc_series(s0, k), event.event_time, event.value),
                    ));
                    lemma_feats_wf_after_add(s0, k, event.event_time, event.value);
                }
            },
            None => {
                proof {
                    lemma_assoc_find_at(s0, k, s0.len() as int);
                    assert(assoc_series(s0, k) =~= Seq::<FeatureEntry>::empty());
                    lemma_insert_entry_wf(assoc_series(s0, k), event.event_time, event.value);
                }
                let mut entries: Vec<FeatureEntry> = Vec::new();
                entries.push(FeatureEntry { ts: event.event_time, tie: 0, value: event.value });
                self.features.push(
                    FBucket {
                        instrument: event.instrument,
                        feature_id: event.id,
                        entries,
                    },
                );
                proof {
                    assert(insert_entry(
                        assoc_series(s0, k),
                        event.event_time,
                        event.value,
                    ) =~= seq![
                        FeatureEntry { ts: event.event_time, tie: 0, value: event.value },
                    ]);
                    assert(feat_assoc(self.features@) =~= assoc_set(
                        s0,
                        k,
                        insert_entry(assoc_series(s0, k), event.event_time, event.value),
                    ));
                    lemma_feats_wf_after_add(s0, k, event.event_time, event.value);
                }
            },
        }
    }

    /// Run one query for one source series.
    pub fn read_series(
        &self,
        instrument: &Instrument,
        feature_id: &String,
        as_of: u64,
        query: QueryType,
    ) -> (r: Vec<Value>)
        requires
            self.wf(),
        ensures
            r@ == read_series_spec(self@, ikey(*instrument), feature_id@, as_of, query),
            forall|i: int| 0 <= i < r@.len() ==> val_wf(r@[i]),
    {
        let kind = base_kind(feature_id);
        match kind {
            BaseKind::NotBase => {
                let idx = find_bucket_idx(&self.features, instrument, feature_id);
                let ghost k = FKey { ik: ikey(*instrument), fid: feature_id@ };
                let pairs = match idx {
                    Some(i) => {
                        proof {
                            lemma_assoc_find_at(self@.feats, k, i as int);
                        }
                        bucket_pairs(&self.features[i].entries)
                    },
                    None => {
                        proof {
                            lemma_assoc_find_at(self@.feats, k, self@.feats.len() as int);
                            assert(assoc_series(self@.feats, k) =~= Seq::<FeatureEntry>::empty());
                            assert(entries_pairs(assoc_series(self@.feats, k)) =~= Seq::<(
                                u64,
                                Value,
                            )>::empty());
                        }
                        Vec::new()
                    },
                };
                proof {
                    assert(pairs@ == entries_pairs(assoc_series(self@.feats, k)));
                    lemma_entries_series_wf(self@.feats, k);
                    lemma_query_wf(pairs@, as_of, query);
                }
                query_series(&pairs, as_of, query)
            },
            BaseKind::TradePrice | BaseKind::TradeQty => {
                let idx = find_trade_idx(&self.market.trades, instrument);
                let ghost ik = ikey(*instrument);
                let pairs = match idx {
                    Some(i) => {
                        proof {
                            lemma_assoc_find_at(self@.market.trades, ik, i as int);
                        }
                        trade_pairs(&self.market.trades[i].1, kind)
                    },
                    None => {
                        proof {
                            lemma_assoc_find_at(
                                self@.market.trades,
                                ik,
                                self@.market.trades.len() as int,
                            );
                            assert(assoc_series(self@.market.trades, ik) =~= Seq::<
                                Trade,
                            >::empty());
                            assert(trade_pairs_spec(
                                assoc_series(self@.market.trades, ik),
                                kind,
                            ) =~= Seq::<(u64, Value)>::empty());
                        }
                        Vec::new()
                    },
                };
                proof {
                    assert(pairs@ == base_series(self@.market, ik, kind));
                    lemma_trade_series_wf(self@.market, ik, kind);
                    lemma_query_wf(pairs@, as_of, query);
                }
                query_series(&pairs, as_of, query)
            },
            _ => {
                let idx = find_tick_idx(&self.market.quotes, instrument);
                let ghost ik = ikey(*instrument);
                let pairs = match idx {
                    Some(i) => {
                        proof {
                            lemma_assoc_find_at(self@.market.quotes, ik, i as int);
                            assert forall|j: int|
                                0 <= j < self.market.quotes@[i as int].1@.len() implies tick_wf(
                                self.market.quotes@[i as int].1@[j],
                            ) by {
                                assert(self@.market.quotes[i as int].1
                                    == self.market.quotes@[i as int].1@);
                            }
                        }
                        tick_pairs(&self.market.quotes[i].1, kind)
                    },
                    None => {
                        proof {
                            lemma_assoc_find_at(
                                self@.market.quotes,
                                ik,
                                self@.market.quotes.len() as int,
                            );
                            assert(assoc_series(self@.market.quotes, ik) =~= Seq::<
                                Tick,
                            >::empty());
                            assert(tick_pairs_spec(
                                assoc_series(self@.market.quotes, ik),
                                kind,
                            ) =~= Seq::<(u64, Value)>::empty());
                        }
                        Vec::new()
                    },
                };
                proof {
                    assert(pairs@ == base_series(self@.market, ik, kind));
                    lemma_tick_series_wf(self@.market, ik, kind);
                    lemma_query_wf(pairs@, as_of, query);
                }
                query_series(&pairs, as_of, query)
            },
        }
    }

    /// Query every source of a feature with one query shape.
    pub fn read_features(
        &self,
        instrument: &Instrument,
        sources: &Vec<String>,
        as_of: u64,
        query: QueryType,
    ) -> (r: Vec<(String, Vec<Value>)>)
        requires
            self.wf(),
        ensures
            r@.len() == sources@.len(),
            forall|i: int|
                0 <= i < r@.len() ==> r@[i].0 == sources@[i] && r@[i].1@ == read_series_spec(
                    self@,
                    ikey(*instrument),
                    sources@[i]@,
                    as_of,
                    query,
                ),
    {
        let mut r: Vec<(String, Vec<Value>)> = Vec::new();
        let mut i: usize = 0;
        while i < sources.len()
            invariant
                0 <= i <= sources.len(),
                self.wf(),
                r@.len() == i,
                forall|j: int|
                    0 <= j < i ==> r@[j].0 == sources@[j] && r@[j].1@ == read_series_spec(
                        self@,
                        ikey(*instrument),
                        sources@[j]@,
                        as_of,
                        query,
                    ),
            decreases sources.len() - i,
        {
            let vals = self.read_series(instrument, &sources[i], as_of, query);
            r.push((sources[i].clone(), vals));
            i += 1;
        }
        r
    }

    /// The mid-price of the last quote at or before `as_of`, if any.
    pub fn latest_price(&self, instrument: &Instrument, as_of: u64) -> (r: Option<Dec>)
        requires
            self.wf(),
        ensures
            r == latest_price_spec(self@, ikey(*instrument), as_of),
            match r {
                Some(d) => dec_wf(d),
                None => true,
            },
    {
        let vals = self.read_series(
            instrument,
            &String::from_str("mid_price"),
            as_of,
            QueryType::Latest,
        );
        proof {
            lemma_base_lits();
        }
        if vals.len() == 0 {
            None
        } else {
            match vals[0] {
                Value::Num(d) => Some(d),
                Value::NaN => None,
            }
        }
    }
}

/// Recording a well-formed value keeps the feature side well formed.
proof fn lemma_feats_wf_after_add(
    s: Seq<(FKey, Seq<FeatureEntry>)>,
    k: FKey,
    ts: u64,
    v: Value,
)
    requires
        feats_wf(s),
        val_wf(v),
        s.len() <= usize::MAX as int,
        assoc_series(s, k).len() <= usize::MAX as int,
    ensures
        feats_wf(feats_add(s, k, ts, v)),
{
    let w = insert_entry(assoc_series(s, k), ts, v);
    lemma_assoc_set(s, k, w);
    lemma_assoc_find_unique(s, k);
    match assoc_find(s, k) {
        Some(f) => {
            lemma_insert_entry_wf(s[f].1, ts, v);
        },
        None => {
            assert(assoc_series(s, k) =~= Seq::<FeatureEntry>::empty());
            lemma_insert_entry_wf(assoc_series(s, k), ts, v);
        },
    }
    let s2 = feats_add(s, k, ts, v);
    assert forall|i: int| 0 <= i < s2.len() implies bucket_entries_wf(s2[i].1) by {
        if s2[i].1 == w {
        } else {
            assert(0 <= i < s.len() && s2[i].1 == s[i].1);
        }
    }
}

/// Values read from a feature bucket are well formed.
proof fn lemma_entries_series_wf(s: Seq<(FKey, Seq<FeatureEntry>)>, k: FKey)
    requires
        feats_wf(s),
    ensures
        series_wf(entries_pairs(assoc_series(s, k))),
{
    lemma_assoc_find_unique(s, k);
    let e = assoc_series(s, k);
    assert forall|i: int| 0 <= i < entries_pairs(e).len() implies val_wf(
        entries_pairs(e)[i].1,
    ) by {
        assert(entries_pairs(e)[i] == (e[i].ts, e[i].value));
    }
}

/// Values read from a trade base series are well formed.
proof fn lemma_trade_series_wf(m: MarketM, ik: IKey, k: BaseKind)
    requires
        market_wf(m),
    ensures
        series_wf(trade_pairs_spec(assoc_series(m.trades, ik), k)),
{
    lemma_assoc_find_unique(m.trades, ik);
    let e = assoc_series(m.trades, ik);
    assert forall|i: int| 0 <= i < trade_pairs_spec(e, k).len() implies val_wf(
        trade_pairs_spec(e, k)[i].1,
    ) by {
        assert(trade_pairs_spec(e, k)[i] == trade_pair(e[i], k));
        assert(trade_wf(e[i]));
    }
}

/// Values read from a quote base series are well formed.
proof fn lemma_tick_series_wf(m: MarketM, ik: IKey, k: BaseKind)
    requires
        market_wf(m),
    ensures
        series_wf(tick_pairs_spec(assoc_series(m.quotes, ik), k)),
{
    lemma_assoc_find_unique(m.quotes, ik);
    let e = assoc_series(m.quotes, ik);
    assert forall|i: int| 0 <= i < tick_pairs_spec(e, k).len() implies val_wf(
        tick_pairs_spec(e, k)[i].1,
    ) by {
        assert(tick_pairs_spec(e, k)[i] == tick_pair(e[i], k));
        assert(tick_wf(e[i]));
        crate::num::lemma_mid_wf(e[i].bid_price, e[i].ask_price);
    }
}


} // verus!
