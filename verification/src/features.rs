//! The feature catalog: the built-in feature kinds and their pure
//! computations from queried inputs to named outputs.
//!
//! Every computation is exact over the fixed-point value domain: a mean, an
//! exponentially weighted mean, a volume-weighted average price, a volume
//! sum, and a difference of two latest values.  Aggregates emit NaN where
//! they are numerically undefined; a feature whose required input is empty
//! declines with `DataInsufficient` and its dependents still run.

use vstd::prelude::*;

use crate::config::{
    EMAFeatureConfig, FeatureConfig, FeatureError, FeatureInput, QueryType, SMAFeatureConfig,
    SpreadFeatureConfig, VWAPFeatureConfig, VolumeFeatureConfig,
};
use crate::num::{spec_add, spec_div, spec_sub, val_wf, Dec, Value, DEC_BOUND, DEC_SCALE};

verus! {

/// One query a feature asks the engine to run: which series, and how.
pub struct FeatureDataRequest {
    pub feature_id: String,
    pub query: QueryType,
}

impl Clone for FeatureDataRequest {
    fn clone(&self) -> (r: Self)
        ensures
            r == *self,
    {
        FeatureDataRequest { feature_id: self.feature_id.clone(), query: self.query }
    }
}

/// The engine's answer: one value series per requested source.
pub struct FeatureDataResponse {
    pub data: Vec<(String, Vec<Value>)>,
}

/// The model of a response: series keyed by identifier.
pub open spec fn resp_model(d: Seq<(String, Vec<Value>)>) -> Seq<(Seq<char>, Seq<Value>)> {
    d.map_values(|p: (String, Vec<Value>)| (p.0@, p.1@))
}

/// The series stored under `id`: first match, or the empty series.
pub open spec fn resp_get(d: Seq<(Seq<char>, Seq<Value>)>, id: Seq<char>) -> Seq<Value>
    decreases d.len(),
{
    if d.len() == 0 {
        Seq::empty()
    } else if d[0].0 == id {
        d[0].1
    } else {
        resp_get(d.skip(1), id)
    }
}

/// Every value of every series in a response is well formed.
pub open spec fn resp_wf(d: Seq<(Seq<char>, Seq<Value>)>) -> bool {
    forall|i: int, j: int|
        0 <= i < d.len() && 0 <= j < d[i].1.len() ==> val_wf(d[i].1[j])
}

/// Looked-up series inherit the response's well-formedness.
pub proof fn lemma_resp_get_wf(d: Seq<(Seq<char>, Seq<Value>)>, id: Seq<char>)
    requires
        resp_wf(d),
    ensures
        forall|j: int| 0 <= j < resp_get(d, id).len() ==> val_wf(resp_get(d, id)[j]),
    decreases d.len(),
{
    if d.len() == 0 {
    } else if d[0].0 == id {
        assert forall|j: int| 0 <= j < resp_get(d, id).len() implies val_wf(
            resp_get(d, id)[j],
        ) by {
            assert(resp_get(d, id)[j] == d[0].1[j]);
        }
    } else {
        assert forall|i: int, j: int|
            0 <= i < d.skip(1).len() && 0 <= j < d.skip(1)[i].1.len() implies val_wf(
            d.skip(1)[i].1[j],
        ) by {
            assert(d.skip(1)[i] == d[i + 1]);
        }
        lemma_resp_get_wf(d.skip(1), id);
        assert(resp_get(d, id) == resp_get(d.skip(1), id));
        assert forall|j: int| 0 <= j < resp_get(d, id).len() implies val_wf(
            resp_get(d, id)[j],
        ) by {
            assert(resp_get(d, id)[j] == resp_get(d.skip(1), id)[j]);
        }
    }
}

impl FeatureDataResponse {
    /// An empty response.
    pub fn new() -> (r: FeatureDataResponse)
        ensures
            resp_model(r.data@) == Seq::<(Seq<char>, Seq<Value>)>::empty(),
    {
        let r = FeatureDataResponse { data: Vec::new() };
        proof {
            assert(resp_model(r.data@) =~= Seq::<(Seq<char>, Seq<Value>)>::empty());
        }
        r
    }

    /// The values stored under `id`, or the empty series.
    pub fn series(&self, id: &String) -> (r: Vec<Value>)
        ensures
            r@ == resp_get(resp_model(self.data@), id@),
    {
        let m = self.data.len();
        let mut i: usize = 0;
        while i < m
            invariant
                0 <= i <= m,
                m == self.data.len(),
                forall|j: int| 0 <= j < i ==> self.data@[j].0@ != id@,
            decreases m - i,
        {
            if self.data[i].0 == *id {
                let src = &self.data[i].1;
                let mut out: Vec<Value> = Vec::new();
                let mut j: usize = 0;
                while j < src.len()
                    invariant
                        0 <= j <= src.len(),
                        out@ =~= src@.take(j as int),
                    decreases src.len() - j,
                {
                    out.push(src[j]);
                    proof {
                        assert(out@ =~= src@.take(j as int + 1));
                    }
                    j += 1;
                }
                proof {
                    assert(out@ =~= src@);
                    lemma_resp_get_at(resp_model(self.data@), id@, i as int);
                }
                return out;
            }
            i += 1;
        }
        proof {
            lemma_resp_get_at(resp_model(self.data@), id@, m as int);
        }
        Vec::new()
    }
}

/// A linear scan that stopped at `i` determines `resp_get`.
proof fn lemma_resp_get_at(d: Seq<(Seq<char>, Seq<Value>)>, id: Seq<char>, i: int)
    requires
        0 <= i <= d.len(),
        forall|j: int| 0 <= j < i ==> d[j].0 != id,
        i < d.len() ==> d[i].0 == id,
    ensures
        resp_get(d, id) == if i < d.len() {
            d[i].1
        } else {
            Seq::<Value>::empty()
        },
    decreases d.len(),
{
    if d.len() == 0 {
    } else if i == 0 {
    } else {
        assert forall|j: int| 0 <= j < i - 1 implies d.skip(1)[j].0 != id by {
            assert(d.skip(1)[j] == d[j + 1]);
        }
        assert(i - 1 < d.skip(1).len() ==> d.skip(1)[i - 1].0 == id);
        lemma_resp_get_at(d.skip(1), id, i - 1);
    }
}

// ---------------------------------------------------------------------------
// The arithmetic of the built-in kinds
// ---------------------------------------------------------------------------

/// The sum of a series, NaN-absorbing; the empty sum is zero.
pub open spec fn sum_vals(s: Seq<Value>) -> Value
    decreases s.len(),
{
    if s.len() == 0 {
        Value::Num(Dec { m: 0 })
    } else {
        spec_add(sum_vals(s.drop_last()), s.last())
    }
}

/// The arithmetic mean of a series; NaN when the series is empty.
pub open spec fn mean_spec(s: Seq<Value>) -> Value {
    if s.len() == 0 || s.len() > 1_000_000_000 {
        Value::NaN
    } else {
        spec_div(sum_vals(s), Value::Num(Dec { m: (s.len() * DEC_SCALE) as i128 }))
    }
}

/// One EMA step over `n` periods: `alpha * x + (1 - alpha) * prev` with
/// `alpha = 2/(n + 1)`, computed as the exact integer combination
/// `(2x + (n - 1) * prev) / (n + 1)` so that only the final division
/// truncates; no intermediate is rounded.
pub open spec fn ema_step(n: int, prev: Value, x: Value) -> Value {
    if n < 1 || n + 1 > 1_000_000_000 {
        Value::NaN
    } else {
        match (prev, x) {
            (Value::Num(a), Value::Num(b)) => crate::num::clamp_mantissa(
                crate::num::tdiv(2 * b.m + (n - 1) * a.m, n + 1),
            ),
            _ => Value::NaN,
        }
    }
}

/// Fold the EMA recurrence over a series, left to right, from seed `acc`.
pub open spec fn ema_fold(n: int, acc: Value, s: Seq<Value>) -> Value
    decreases s.len(),
{
    if s.len() == 0 {
        acc
    } else {
        ema_step(n, ema_fold(n, acc, s.drop_last()), s.last())
    }
}

/// How many periods an EMA uses: the configured count for a periods query,
/// else the number of observations.
pub open spec fn ema_periods(q: QueryType, len: int) -> int {
    match q {
        QueryType::Periods(n) => n as int,
        _ => len,
    }
}

/// The EMA of a series: seeded with the first observation, folded over the
/// rest.  (The configuration schema also mentions seeding from the mean of
/// the queried window; the concrete scenarios pin the first observation,
/// which is what this takes.)  NaN-free only as far as the inputs are.
pub open spec fn ema_spec(s: Seq<Value>, q: QueryType) -> Value {
    ema_fold(ema_periods(q, s.len() as int), s[0], s.skip(1))
}

/// The sum of pairwise products of two equal-length series.
/// Bound on the exact eighteen-fractional-digit product sum a VWAP keeps;
/// larger sums (or a NaN input) make the VWAP NaN.
pub const VWAP_SUM_BOUND: i128 = 10_000_000_000_000_000_000_000_000_000_000_000_000;

/// The sum of pairwise products of two equal-length series, kept exact at
/// eighteen fractional digits: no intermediate is rounded.  `None` when an
/// input is NaN or the sum leaves the working range.
pub open spec fn prod_sum(p: Seq<Value>, q: Seq<Value>) -> Option<int>
    decreases p.len(),
{
    if p.len() == 0 || q.len() == 0 {
        Some(0int)
    } else {
        match (prod_sum(p.drop_last(), q.drop_last()), p.last(), q.last()) {
            (Some(acc), Value::Num(x), Value::Num(y)) => {
                let s = acc + x.m * y.m;
                if -(VWAP_SUM_BOUND as int) <= s <= VWAP_SUM_BOUND as int {
                    Some(s)
                } else {
                    None
                }
            },
            _ => None,
        }
    }
}

/// The volume-weighted average price over the zipped prefix of the price
/// and quantity series: sum(p*q)/sum(q), NaN when the volume sum is zero.
/// The product sum is exact (scale eighteen); the one truncation is the
/// final division, whose quotient is already at scale nine.
pub open spec fn vwap_spec(p: Seq<Value>, q: Seq<Value>) -> Value {
    let m = if p.len() <= q.len() {
        p.len() as int
    } else {
        q.len() as int
    };
    match (prod_sum(p.take(m), q.take(m)), sum_vals(q.take(m))) {
        (Some(num), Value::Num(den)) => if den.m == 0 {
            Value::NaN
        } else {
            crate::num::clamp_mantissa(crate::num::tdiv(num, den.m as int))
        },
        _ => Value::NaN,
    }
}

/// Executable sum of a series of well-formed values.
fn sum_series(s: &Vec<Value>) -> (r: Value)
    requires
        forall|i: int| 0 <= i < s@.len() ==> val_wf(s@[i]),
    ensures
        r == sum_vals(s@),
        val_wf(r),
{
    let mut acc = Value::Num(Dec::zero());
    let mut i: usize = 0;
    while i < s.len()
        invariant
            0 <= i <= s.len(),
            forall|j: int| 0 <= j < s@.len() ==> val_wf(s@[j]),
            acc == sum_vals(s@.take(i as int)),
            val_wf(acc),
        decreases s.len() - i,
    {
        proof {
            assert(s@.take(i as int + 1).drop_last() =~= s@.take(i as int));
            assert(s@.take(i as int + 1).last() == s@[i as int]);
        }
        acc = acc.add(s[i]);
        i += 1;
    }
    proof {
        assert(s@.take(s@.len() as int) =~= s@);
    }
    acc
}

/// Executable EMA step: one truncating division, no rounded intermediates.
fn ema_step_exec(n: usize, prev: Value, x: Value) -> (r: Value)
    requires
        val_wf(prev),
        val_wf(x),
    ensures
        r == ema_step(n as int, prev, x),
        val_wf(r),
{
    if n < 1 || n > 999_999_999 {
        return Value::NaN;
    }
    match (prev, x) {
        (Value::Num(a), Value::Num(b)) => {
            let nw: i128 = n as i128;
            proof {
                assert(-(1_000_000_000 * (crate::num::DEC_BOUND as int)) <= (nw - 1) * (
                a.m as int) <= 1_000_000_000 * (crate::num::DEC_BOUND as int))
                    by (nonlinear_arith)
                    requires
                        0 <= nw - 1 <= 1_000_000_000,
                        -(crate::num::DEC_BOUND as int) <= a.m as int <= crate::num::DEC_BOUND
                            as int,
                ;
            }
            let weighted: i128 = (nw - 1) * a.m;
            let num: i128 = 2 * b.m + weighted;
            let neg: bool = num < 0;
            let mag: u128 = if neg {
                (-num) as u128
            } else {
                num as u128
            };
            let q: u128 = mag / ((nw + 1) as u128);
            proof {
                assert(q as int == crate::num::abs_int(num as int) / (nw as int + 1));
            }
            crate::num::clamp_mag(q, neg)
        },
        _ => Value::NaN,
    }
}

/// Executable arithmetic mean.
fn mean_series(s: &Vec<Value>) -> (r: Value)
    requires
        forall|i: int| 0 <= i < s@.len() ==> val_wf(s@[i]),
    ensures
        r == mean_spec(s@),
        val_wf(r),
{
    if s.len() == 0 || s.len() > 1_000_000_000 {
        Value::NaN
    } else {
        let sum = sum_series(s);
        let count = Value::Num(Dec { m: (s.len() as i128) * DEC_SCALE });
        sum.div(count)
    }
}

// ---------------------------------------------------------------------------
// The built-in feature nodes
// ---------------------------------------------------------------------------

/// Simple moving average of one input series.
pub struct SMAFeature {
    pub id: String,
    pub sources: Vec<String>,
    pub data: Vec<FeatureDataRequest>,
    pub input: FeatureInput,
    pub output: String,
}

/// Exponential moving average of one input series.
pub struct EMAFeature {
    pub id: String,
    pub sources: Vec<String>,
    pub data: Vec<FeatureDataRequest>,
    pub input: FeatureInput,
    pub output: String,
}

/// Volume-weighted average price over a window.
pub struct VWAPFeature {
    pub id: String,
    pub sources: Vec<String>,
    pub data: Vec<FeatureDataRequest>,
    pub price_input: String,
    pub qty_input: String,
    pub window: u64,
    pub output: String,
}

/// Volume sum over a window.
pub struct VolumeFeature {
    pub id: String,
    pub sources: Vec<String>,
    pub data: Vec<FeatureDataRequest>,
    pub qty_input: String,
    pub window: u64,
    pub output: String,
}

/// Difference of the latest values of two series.
pub struct SpreadFeature {
    pub id: String,
    pub sources: Vec<String>,
    pub data: Vec<FeatureDataRequest>,
    pub front: String,
    pub back: String,
    pub output: String,
}

/// One node of the feature catalog.
pub enum FeatureType {
    SMA(SMAFeature),
    EMA(EMAFeature),
    VWAP(VWAPFeature),
    Volume(VolumeFeature),
    Spread(SpreadFeature),
}

/// A node's identifier.
pub open spec fn node_id(f: FeatureType) -> Seq<char> {
    match f {
        FeatureType::SMA(x) => x.id@,
        FeatureType::EMA(x) => x.id@,
        FeatureType::VWAP(x) => x.id@,
        FeatureType::Volume(x) => x.id@,
        FeatureType::Spread(x) => x.id@,
    }
}

/// A node's declared sources.
pub open spec fn node_sources(f: FeatureType) -> Seq<Seq<char>> {
    match f {
        FeatureType::SMA(x) => x.sources@.map_values(|s: String| s@),
        FeatureType::EMA(x) => x.sources@.map_values(|s: String| s@),
        FeatureType::VWAP(x) => x.sources@.map_values(|s: String| s@),
        FeatureType::Volume(x) => x.sources@.map_values(|s: String| s@),
        FeatureType::Spread(x) => x.sources@.map_values(|s: String| s@),
    }
}

/// A node's data requests: (series, query) pairs.
pub open spec fn node_requests(f: FeatureType) -> Seq<(Seq<char>, QueryType)> {
    match f {
        FeatureType::SMA(x) => x.data@.map_values(
            |r: FeatureDataRequest| (r.feature_id@, r.query),
        ),
        FeatureType::EMA(x) => x.data@.map_values(
            |r: FeatureDataRequest| (r.feature_id@, r.query),
        ),
        FeatureType::VWAP(x) => x.data@.map_values(
            |r: FeatureDataRequest| (r.feature_id@, r.query),
        ),
        FeatureType::Volume(x) => x.data@.map_values(
            |r: FeatureDataRequest| (r.feature_id@, r.query),
        ),
        FeatureType::Spread(x) => x.data@.map_values(
            |r: FeatureDataRequest| (r.feature_id@, r.query),
        ),
    }
}

/// A node's output series identifier.
pub open spec fn node_output(f: FeatureType) -> Seq<char> {
    match f {
        FeatureType::SMA(x) => x.output@,
        FeatureType::EMA(x) => x.output@,
        FeatureType::VWAP(x) => x.output@,
        FeatureType::Volume(x) => x.output@,
        FeatureType::Spread(x) => x.output@,
    }
}

/// What a node computes from a response: `Some` with its single named
/// output, or `None` when a required input is empty.
pub open spec fn node_calc(
    f: FeatureType,
    resp: Seq<(Seq<char>, Seq<Value>)>,
) -> Option<(Seq<char>, Value)> {
    match f {
        FeatureType::SMA(x) => Some((x.output@, mean_spec(resp_get(resp, x.input.feature_id@)))),
        FeatureType::EMA(x) => {
            let vals = resp_get(resp, x.input.feature_id@);
            if vals.len() == 0 {
                None
            } else {
                Some((x.output@, ema_spec(vals, x.input.query)))
            }
        },
        FeatureType::VWAP(x) => Some(
            (
                x.output@,
                vwap_spec(resp_get(resp, x.price_input@), resp_get(resp, x.qty_input@)),
            ),
        ),
        FeatureType::Volume(x) => Some((x.output@, sum_vals(resp_get(resp, x.qty_input@)))),
        FeatureType::Spread(x) => {
            let fr = resp_get(resp, x.front@);
            let ba = resp_get(resp, x.back@);
            if fr.len() == 0 || ba.len() == 0 {
                None
            } else {
                Some((x.output@, spec_sub(fr.last(), ba.last())))
            }
        },
    }
}

/// Whether a node's required inputs are non-empty in a response: exactly
/// when the node emits.
pub open spec fn node_required_nonempty(
    f: FeatureType,
    resp: Seq<(Seq<char>, Seq<Value>)>,
) -> bool {
    match f {
        FeatureType::EMA(x) => resp_get(resp, x.input.feature_id@).len() > 0,
        FeatureType::Spread(x) => resp_get(resp, x.front@).len() > 0 && resp_get(
            resp,
            x.back@,
        ).len() > 0,
        _ => true,
    }
}

/// A node emits exactly when its required inputs are non-empty.
pub proof fn lemma_node_calc_total(f: FeatureType, resp: Seq<(Seq<char>, Seq<Value>)>)
    ensures
        node_calc(f, resp) is Some <==> node_required_nonempty(f, resp),
        node_calc(f, resp) is Some ==> (node_calc(f, resp)->Some_0).0 == node_output(f),
{
}

impl FeatureType {
    /// The node's identifier.
    pub fn id(&self) -> (r: &String)
        ensures
            r@ == node_id(*self),
    {
        match self {
            FeatureType::SMA(x) => &x.id,
            FeatureType::EMA(x) => &x.id,
            FeatureType::VWAP(x) => &x.id,
            FeatureType::Volume(x) => &x.id,
            FeatureType::Spread(x) => &x.id,
        }
    }

    /// The node's declared sources.
    pub fn sources(&self) -> (r: &Vec<String>)
        ensures
            r@.map_values(|s: String| s@) == node_sources(*self),
    {
        match self {
            FeatureType::SMA(x) => &x.sources,
            FeatureType::EMA(x) => &x.sources,
            FeatureType::VWAP(x) => &x.sources,
            FeatureType::Volume(x) => &x.sources,
            FeatureType::Spread(x) => &x.sources,
        }
    }

    /// The node's data requests.
    pub fn data(&self) -> (r: &Vec<FeatureDataRequest>)
        ensures
            r@.map_values(|q: FeatureDataRequest| (q.feature_id@, q.query)) == node_requests(
                *self,
            ),
    {
        match self {
            FeatureType::SMA(x) => &x.data,
            FeatureType::EMA(x) => &x.data,
            FeatureType::VWAP(x) => &x.data,
            FeatureType::Volume(x) => &x.data,
            FeatureType::Spread(x) => &x.data,
        }
    }

    /// The node's output identifier.
    pub fn output(&self) -> (r: &String)
        ensures
            r@ == node_output(*self),
    {
        match self {
            FeatureType::SMA(x) => &x.output,
            FeatureType::EMA(x) => &x.output,
            FeatureType::VWAP(x) => &x.output,
            FeatureType::Volume(x) => &x.output,
            FeatureType::Spread(x) => &x.output,
        }
    }

    /// Run the node's pure computation on a response.
    pub fn calculate(&self, data: &FeatureDataResponse) -> (r: Result<
        (String, Value),
        FeatureError,
    >)
        requires
            resp_wf(resp_model(data.data@)),
        ensures
            match r {
                Ok(p) => node_calc(*self, resp_model(data.data@)) == Some((p.0@, p.1))
                    && val_wf(p.1),
                Err(e) => node_calc(*self, resp_model(data.data@)) is None && e
                    == FeatureError::DataInsufficient,
            },
    {
        let ghost rm = resp_model(data.data@);
        match self {
            FeatureType::SMA(x) => {
                let vals = data.series(&x.input.feature_id);
                proof {
                    lemma_resp_get_wf(rm, x.input.feature_id@);
                }
                let mean = mean_series(&vals);
                Ok((x.output.clone(), mean))
            },
            FeatureType::EMA(x) => {
                let vals = data.series(&x.input.feature_id);
                proof {
                    lemma_resp_get_wf(rm, x.input.feature_id@);
                }
                if vals.len() == 0 {
                    Err(FeatureError::DataInsufficient)
                } else {
                    let n: usize = match x.input.query {
                        QueryType::Periods(k) => k,
                        _ => vals.len(),
                    };
                    proof {
                        assert(n as int == ema_periods(x.input.query, vals@.len() as int));
                    }
                    let mut acc = vals[0];
                    let mut i: usize = 1;
                    while i < vals.len()
                        invariant
                            1 <= i <= vals@.len(),
                            forall|j: int| 0 <= j < vals@.len() ==> val_wf(vals@[j]),
                            val_wf(acc),
                            n as int == ema_periods(x.input.query, vals@.len() as int),
                            acc == ema_fold(n as int, vals@[0], vals@.subrange(1, i as int)),
                        decreases vals.len() - i,
                    {
                        proof {
                            assert(vals@.subrange(1, i as int + 1).drop_last() =~= vals@.subrange(
                                1,
                                i as int,
                            ));
                            assert(vals@.subrange(1, i as int + 1).last() == vals@[i as int]);
                        }
                        acc = ema_step_exec(n, acc, vals[i]);
                        i += 1;
                    }
                    proof {
                        assert(vals@.subrange(1, vals@.len() as int) =~= vals@.skip(1));
                    }
                    Ok((x.output.clone(), acc))
                }
            },
            FeatureType::VWAP(x) => {
                let p = data.series(&x.price_input);
                let q = data.series(&x.qty_input);
                proof {
                    lemma_resp_get_wf(rm, x.price_input@);
                    lemma_resp_get_wf(rm, x.qty_input@);
                }
                let m: usize = if p.len() <= q.len() {
                    p.len()
                } else {
                    q.len()
                };
                let mut acc18: Option<i128> = Some(0);
                let mut den = Value::Num(Dec::zero());
                let mut i: usize = 0;
                while i < m
                    invariant
                        0 <= i <= m,
                        m <= p@.len() && m <= q@.len(),
                        forall|j: int| 0 <= j < p@.len() ==> val_wf(p@[j]),
                        forall|j: int| 0 <= j < q@.len() ==> val_wf(q@[j]),
                        match acc18 {
                            Some(v) => prod_sum(p@.take(i as int), q@.take(i as int)) == Some(
                                v as int,
                            ) && -VWAP_SUM_BOUND <= v <= VWAP_SUM_BOUND,
                            None => prod_sum(p@.take(i as int), q@.take(i as int)) is None,
                        },
                        val_wf(den),
                        den == sum_vals(q@.take(i as int)),
                    decreases m - i,
                {
                    proof {
                        assert(p@.take(i as int + 1).drop_last() =~= p@.take(i as int));
                        assert(q@.take(i as int + 1).drop_last() =~= q@.take(i as int));
                        assert(p@.take(i as int + 1).last() == p@[i as int]);
                        assert(q@.take(i as int + 1).last() == q@[i as int]);
                    }
                    acc18 = match (acc18, p[i], q[i]) {
                        (Some(acc), Value::Num(xx), Value::Num(yy)) => {
                            proof {
                                assert(-(DEC_BOUND as int) * (DEC_BOUND as int) <= (xx.m as int)
                                    * (yy.m as int) <= (DEC_BOUND as int) * (DEC_BOUND as int))
                                    by (nonlinear_arith)
                                    requires
                                        -(DEC_BOUND as int) <= xx.m as int <= DEC_BOUND as int,
                                        -(DEC_BOUND as int) <= yy.m as int <= DEC_BOUND as int,
                                ;
                            }
                            let prod: i128 = xx.m * yy.m;
                            let s2: i128 = acc + prod;
                            if -VWAP_SUM_BOUND <= s2 && s2 <= VWAP_SUM_BOUND {
                                Some(s2)
                            } else {
                                None
                            }
                        },
                        _ => None,
                    };
                    den = den.add(q[i]);
                    i += 1;
                }
                proof {
                    let mm = if p@.len() <= q@.len() {
                        p@.len() as int
                    } else {
                        q@.len() as int
                    };
                    assert(m as int == mm);
                }
                let result = match (acc18, den) {
                    (Some(nv), Value::Num(dd)) => {
                        if dd.m == 0 {
                            Value::NaN
                        } else {
                            let neg: bool = (nv < 0) != (dd.m < 0);
                            let ma: u128 = if nv < 0 {
                                (-nv) as u128
                            } else {
                                nv as u128
                            };
                            let mb: u128 = if dd.m < 0 {
                                (-dd.m) as u128
                            } else {
                                dd.m as u128
                            };
                            let qq: u128 = ma / mb;
                            proof {
                                assert(qq as int == crate::num::abs_int(nv as int)
                                    / crate::num::abs_int(dd.m as int));
                            }
                            crate::num::clamp_mag(qq, neg)
                        }
                    },
                    _ => Value::NaN,
                };
                Ok((x.output.clone(), result))
            },
            FeatureType::Volume(x) => {
                let q = data.series(&x.qty_input);
                proof {
                    lemma_resp_get_wf(rm, x.qty_input@);
                }
                let sum = sum_series(&q);
                Ok((x.output.clone(), sum))
            },
            FeatureType::Spread(x) => {
                let fr = data.series(&x.front);
                let ba = data.series(&x.back);
                proof {
                    lemma_resp_get_wf(rm, x.front@);
                    lemma_resp_get_wf(rm, x.back@);
                }
                if fr.len() == 0 || ba.len() == 0 {
                    Err(FeatureError::DataInsufficient)
                } else {
                    let f0 = fr[fr.len() - 1];
                    let b0 = ba[ba.len() - 1];
                    Ok((x.output.clone(), f0.sub(b0)))
                }
            },
        }
    }
}

// ---------------------------------------------------------------------------
// Construction from configuration
// ---------------------------------------------------------------------------

/// The node identifier a configuration declares.
pub open spec fn cfg_id(c: FeatureConfig) -> Seq<char> {
    match c {
        FeatureConfig::SMA(x) => x.id@,
        FeatureConfig::EMA(x) => x.id@,
        FeatureConfig::VWAP(x) => x.id@,
        FeatureConfig::Volume(x) => x.id@,
        FeatureConfig::Spread(x) => x.id@,
    }
}

/// The sources a configuration declares.
pub open spec fn cfg_sources(c: FeatureConfig) -> Seq<Seq<char>> {
    match c {
        FeatureConfig::SMA(x) => seq![x.input.from@],
        FeatureConfig::EMA(x) => seq![x.input.from@],
        FeatureConfig::VWAP(x) => seq![x.price_input@, x.qty_input@],
        FeatureConfig::Volume(x) => seq![x.qty_input@],
        FeatureConfig::Spread(x) => seq![x.front_component@, x.back_component@],
    }
}

/// The data requests a configuration declares.
pub open spec fn cfg_requests(c: FeatureConfig) -> Seq<(Seq<char>, QueryType)> {
    match c {
        FeatureConfig::SMA(x) => seq![(x.input.feature_id@, x.input.query)],
        FeatureConfig::EMA(x) => seq![(x.input.feature_id@, x.input.query)],
        FeatureConfig::VWAP(x) => seq![
            (x.price_input@, QueryType::Window(x.window)),
            (x.qty_input@, QueryType::Window(x.window)),
        ],
        FeatureConfig::Volume(x) => seq![(x.qty_input@, QueryType::Window(x.window))],
        FeatureConfig::Spread(x) => seq![
            (x.front_component@, QueryType::Latest),
            (x.back_component@, QueryType::Latest),
        ],
    }
}

/// The output identifier a configuration declares.
pub open spec fn cfg_output(c: FeatureConfig) -> Seq<char> {
    match c {
        FeatureConfig::SMA(x) => x.output@,
        FeatureConfig::EMA(x) => x.output@,
        FeatureConfig::VWAP(x) => x.output@,
        FeatureConfig::Volume(x) => x.output@,
        FeatureConfig::Spread(x) => x.output@,
    }
}

/// The node a configuration describes: same identifier, sources, requests,
/// output, and computation parameters.
pub open spec fn node_matches(f: FeatureType, c: FeatureConfig) -> bool {
    &&& node_id(f) == cfg_id(c)
    &&& node_sources(f) == cfg_sources(c)
    &&& node_requests(f) == cfg_requests(c)
    &&& node_output(f) == cfg_output(c)
    &&& match (f, c) {
        (FeatureType::SMA(x), FeatureConfig::SMA(y)) => x.input.from@ == y.input.from@
            && x.input.feature_id@ == y.input.feature_id@ && x.input.query == y.input.query,
        (FeatureType::EMA(x), FeatureConfig::EMA(y)) => x.input.from@ == y.input.from@
            && x.input.feature_id@ == y.input.feature_id@ && x.input.query == y.input.query,
        (FeatureType::VWAP(x), FeatureConfig::VWAP(y)) => x.price_input@ == y.price_input@
            && x.qty_input@ == y.qty_input@ && x.window == y.window,
        (FeatureType::Volume(x), FeatureConfig::Volume(y)) => x.qty_input@ == y.qty_input@
            && x.window == y.window,
        (FeatureType::Spread(x), FeatureConfig::Spread(y)) => x.front@ == y.front_component@
            && x.back@ == y.back_component@,
        _ => false,
    }
}

impl SMAFeature {
    pub fn from_config(config: &SMAFeatureConfig) -> (r: SMAFeature)
        ensures
            node_matches(FeatureType::SMA(r), FeatureConfig::SMA(*config)),
    {
        let sources = vec![config.input.from.clone()];
        let data = vec![
            FeatureDataRequest {
                feature_id: config.input.feature_id.clone(),
                query: config.input.query,
            },
        ];
        let r = SMAFeature {
            id: config.id.clone(),
            sources,
            data,
            input: FeatureInput {
                from: config.input.from.clone(),
                feature_id: config.input.feature_id.clone(),
                query: config.input.query,
            },
            output: config.output.clone(),
        };
        proof {
            assert(r.sources@.map_values(|s: String| s@) =~= seq![config.input.from@]);
            assert(r.data@.map_values(|q: FeatureDataRequest| (q.feature_id@, q.query)) =~= seq![
                (config.input.feature_id@, config.input.query),
            ]);
        }
        r
    }
}

impl EMAFeature {
    pub fn from_config(config: &EMAFeatureConfig) -> (r: EMAFeature)
        ensures
            node_matches(FeatureType::EMA(r), FeatureConfig::EMA(*config)),
    {
        let sources = vec![config.input.from.clone()];
        let data = vec![
            FeatureDataRequest {
                feature_id: config.input.feature_id.clone(),
                query: config.input.query,
            },
        ];
        let r = EMAFeature {
            id: config.id.clone(),
            sources,
            data,
            input: FeatureInput {
                from: config.input.from.clone(),
                feature_id: config.input.feature_id.clone(),
                query: config.input.query,
            },
            output: config.output.clone(),
        };
        proof {
            assert(r.sources@.map_values(|s: String| s@) =~= seq![config.input.from@]);
            assert(r.data@.map_values(|q: FeatureDataRequest| (q.feature_id@, q.query)) =~= seq![
                (config.input.feature_id@, config.input.query),
            ]);
        }
        r
    }
}

impl VWAPFeature {
    pub fn from_config(config: &VWAPFeatureConfig) -> (r: VWAPFeature)
        ensures
            node_matches(FeatureType::VWAP(r), FeatureConfig::VWAP(*config)),
    {
        let sources = vec![config.price_input.clone(), config.qty_input.clone()];
        let data = vec![
            FeatureDataRequest {
                feature_id: config.price_input.clone(),
                query: QueryType::Window(config.window),
            },
            FeatureDataRequest {
                feature_id: config.qty_input.clone(),
                query: QueryType::Window(config.window),
            },
        ];
        let r = VWAPFeature {
            id: config.id.clone(),
            sources,
            data,
            price_input: config.price_input.clone(),
            qty_input: config.qty_input.clone(),
            window: config.window,
            output: config.output.clone(),
        };
        proof {
            assert(r.sources@.map_values(|s: String| s@) =~= seq![
                config.price_input@,
                config.qty_input@,
            ]);
            assert(r.data@.map_values(|q: FeatureDataRequest| (q.feature_id@, q.query)) =~= seq![
                (config.price_input@, QueryType::Window(config.window)),
                (config.qty_input@, QueryType::Window(config.window)),
            ]);
        }
        r
    }
}

impl VolumeFeature {
    pub fn from_config(config: &VolumeFeatureConfig) -> (r: VolumeFeature)
        ensures
            node_matches(FeatureType::Volume(r), FeatureConfig::Volume(*config)),
    {
        let sources = vec![config.qty_input.clone()];
        let data = vec![
            FeatureDataRequest {
                feature_id: config.qty_input.clone(),
                query: QueryType::Window(config.window),
            },
        ];
        let r = VolumeFeature {
            id: config.id.clone(),
            sources,
            data,
            qty_input: config.qty_input.clone(),
            window: config.window,
            output: config.output.clone(),
        };
        proof {
            assert(r.sources@.map_values(|s: String| s@) =~= seq![config.qty_input@]);
            assert(r.data@.map_values(|q: FeatureDataRequest| (q.feature_id@, q.query)) =~= seq![
                (config.qty_input@, QueryType::Window(config.window)),
            ]);
        }
        r
    }
}

impl SpreadFeature {
    pub fn from_config(config: &SpreadFeatureConfig) -> (r: SpreadFeature)
        ensures
            node_matches(FeatureType::Spread(r), FeatureConfig::Spread(*config)),
    {
        let sources = vec![config.front_component.clone(), config.back_component.clone()];
        let data = vec![
            FeatureDataRequest {
                feature_id: config.front_component.clone(),
                query: QueryType::Latest,
            },
            FeatureDataRequest {
                feature_id: config.back_component.clone(),
                query: QueryType::Latest,
            },
        ];
        let r = SpreadFeature {
            id: config.id.clone(),
            sources,
            data,
            front: config.front_component.clone(),
            back: config.back_component.clone(),
            output: config.output.clone(),
        };
        proof {
            assert(r.sources@.map_values(|s: String| s@) =~= seq![
                config.front_component@,
                config.back_component@,
            ]);
            assert(r.data@.map_values(|q: FeatureDataRequest| (q.feature_id@, q.query)) =~= seq![
                (config.front_component@, QueryType::Latest),
                (config.back_component@, QueryType::Latest),
            ]);
        }
        r
    }
}

/// Builds catalog nodes from configurations, in declaration order.
pub struct FeatureFactory {}

impl FeatureFactory {
    pub fn from_config(configs: &Vec<FeatureConfig>) -> (r: Vec<FeatureType>)
        ensures
            r@.len() == configs@.len(),
            forall|i: int| 0 <= i < r@.len() ==> node_matches(r@[i], configs@[i]),
    {
        let mut r: Vec<FeatureType> = Vec::new();
        let mut i: usize = 0;
        while i < configs.len()
            invariant
                0 <= i <= configs.len(),
                r@.len() == i,
                forall|j: int| 0 <= j < i ==> node_matches(r@[j], configs@[j]),
            decreases configs.len() - i,
        {
            let node = match &configs[i] {
                FeatureConfig::SMA(c) => FeatureType::SMA(SMAFeature::from_config(c)),
                FeatureConfig::EMA(c) => FeatureType::EMA(EMAFeature::from_config(c)),
                FeatureConfig::VWAP(c) => FeatureType::VWAP(VWAPFeature::from_config(c)),
                FeatureConfig::Volume(c) => FeatureType::Volume(VolumeFeature::from_config(c)),
                FeatureConfig::Spread(c) => FeatureType::Spread(SpreadFeature::from_config(c)),
            };
            r.push(node);
            i += 1;
        }
        r
    }
}

} // verus!
