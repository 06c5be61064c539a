//! The evaluation of a static predicate through the cached results of its
//! query: the plan of the query, the key of a partial result, and the
//! partial results a query result extends it to.

use vstd::prelude::*;
use linear_map::LinearMap;
use crate::cache::{Cache, CachedFetcher, FetchedValue, Fetcher};
use crate::expressions::{BasicType, SpecValue, Value};
use crate::linear_maps::{get_type_value, type_values};
use crate::predicates::{Predicate, PredicateType, SpecPredicateType, predicate_params};
use crate::rule_processor::{PartialResult, SpecResult};
use crate::sqlite::{CacheEntry, CacheEntryValue, CacheKey};
use crate::rule_checks::aggregate_fits;
use crate::sqlite::query_builder::{FloatRenderer, SqlContext, SqlScope, aggregate_sql, attr_names, encodable, params_encodable_exec, sql_encodable, predicate_encodable, predicate_float_free, predicate_sql};
use crate::stack::results_view;
use crate::tuples::{TupleDeclaration, TupleType, attribute_types, values_view};

verus! {

/// The model of a query result.
pub enum SpecEntryValue {
    Values(usize, Seq<SpecValue>),
    Aggr(SpecValue),
    Count(usize),
    Exists(bool),
}

impl View for CacheEntryValue {
    type V = SpecEntryValue;

    open spec fn view(&self) -> SpecEntryValue {
        match self {
            CacheEntryValue::Values(n, v) => SpecEntryValue::Values(*n, values_view(v@)),
            CacheEntryValue::Aggr(v) => SpecEntryValue::Aggr(v@),
            CacheEntryValue::Count(n) => SpecEntryValue::Count(*n),
            CacheEntryValue::Exists(b) => SpecEntryValue::Exists(*b),
        }
    }
}

/// A partial result with the values of a row as the parameters of
/// predicate `idx`, in order.
pub open spec fn bind_row(idx: usize, res: SpecResult, row: Seq<SpecValue>) -> SpecResult
    decreases row.len(),
{
    if row.len() == 0 {
        res
    } else {
        let r = bind_row(idx, res, row.drop_last());
        SpecResult { params: r.params.insert((idx, (row.len() - 1) as usize), row.last()), events: r.events }
    }
}

/// The partial results the rows of `values`, `n` values each (the last row
/// possibly shorter), extend a result to, in order.
pub open spec fn expand_rows(idx: usize, res: SpecResult, values: Seq<SpecValue>, n: nat) -> Seq<SpecResult>
    decreases values.len(),
{
    if values.len() == 0 || n == 0 {
        Seq::empty()
    } else if values.len() <= n {
        seq![bind_row(idx, res, values)]
    } else {
        seq![bind_row(idx, res, values.take(n as int))] + expand_rows(idx, res, values.skip(n as int), n)
    }
}

/// The partial results a query result extends a result to: one per row,
/// `count` copies of it, it with the aggregate as parameter `(idx, 0)`, or
/// it alone when no row exists.
pub open spec fn expand_entry_spec(idx: usize, res: SpecResult, v: SpecEntryValue) -> Seq<SpecResult> {
    match v {
        SpecEntryValue::Values(n, values) => expand_rows(idx, res, values, n as nat),
        SpecEntryValue::Count(count) => Seq::new(count as nat, |i: int| res),
        SpecEntryValue::Aggr(x) => seq![SpecResult { params: res.params.insert((idx, 0usize), x), events: res.events }],
        SpecEntryValue::Exists(exists) => if !exists {
            seq![res]
        } else {
            Seq::empty()
        },
    }
}

/// A result with the values of `row[lo..hi]` as the parameters of predicate
/// `idx`.
fn bind_values(idx: usize, result: &PartialResult, row: &Vec<Value>, lo: usize, hi: usize) -> (r: PartialResult)
    requires
        lo <= hi <= row@.len(),
    ensures
        r@ == bind_row(idx, result@, values_view(row@).subrange(lo as int, hi as int)),
{
    let ghost vs = values_view(row@).subrange(lo as int, hi as int);
    let mut r = result.clone();
    let mut k: usize = lo;
    proof {
        assert(vs.subrange(0, 0) =~= Seq::<SpecValue>::empty());
    }
    while k < hi
        invariant
            lo <= k <= hi <= row@.len(),
            vs == values_view(row@).subrange(lo as int, hi as int),
            r@ == bind_row(idx, result@, vs.subrange(0, k - lo)),
        decreases hi - k,
    {
        proof {
            let pre = vs.subrange(0, k - lo + 1);
            assert(pre.drop_last() =~= vs.subrange(0, k - lo));
            assert(pre.last() == row@[k as int]@);
        }
        r = r.insert_parameter((idx, k - lo), row[k].clone());
        k = k + 1;
    }
    proof {
        assert(vs.subrange(0, hi - lo) =~= vs);
    }
    r
}

/// The partial results a query result extends a result to; a result made of
/// rows needs rows of at least one value.
pub fn expand_entry(idx: usize, result: &PartialResult, value: &CacheEntryValue) -> (r: Vec<PartialResult>)
    requires
        value matches CacheEntryValue::Values(n, _) ==> n > 0,
    ensures
        results_view(r@) == expand_entry_spec(idx, result@, value@),
{
    match value {
        CacheEntryValue::Values(n, cached) => {
            let ghost all = values_view(cached@);
            let mut out: Vec<PartialResult> = Vec::new();
            let mut k: usize = 0;
            proof {
                assert(all.skip(0) =~= all);
                assert(results_view(out@) =~= Seq::<SpecResult>::empty());
            }
            while k < cached.len()
                invariant
                    *n > 0,
                    all == values_view(cached@),
                    k <= cached@.len(),
                    results_view(out@) + expand_rows(idx, result@, all.skip(k as int), *n as nat) == expand_rows(idx, result@, all, *n as nat),
                decreases cached@.len() - k,
            {
                let rest = cached.len() - k;
                let hi = if rest <= *n { cached.len() } else { k + *n };
                let row = bind_values(idx, result, cached, k, hi);
                let ghost before = out@;
                out.push(row);
                proof {
                    let s = all.skip(k as int);
                    assert(results_view(out@) =~= results_view(before).push(row@));
                    if rest <= *n {
                        assert(values_view(cached@).subrange(k as int, hi as int) =~= s);
                        assert(all.skip(hi as int) =~= Seq::<SpecValue>::empty());
                        assert(expand_rows(idx, result@, s, *n as nat) == seq![row@]);
                    } else {
                        assert(values_view(cached@).subrange(k as int, hi as int) =~= s.take(*n as int));
                        assert(s.skip(*n as int) =~= all.skip(hi as int));
                        assert(expand_rows(idx, result@, s, *n as nat) == seq![row@] + expand_rows(idx, result@, all.skip(hi as int), *n as nat));
                    }
                    assert(results_view(out@) + expand_rows(idx, result@, all.skip(hi as int), *n as nat) =~= results_view(before) + expand_rows(idx, result@, s, *n as nat));
                }
                k = hi;
            }
            proof {
                assert(all.skip(k as int) =~= Seq::<SpecValue>::empty());
                assert(results_view(out@) + Seq::<SpecResult>::empty() =~= results_view(out@));
            }
            out
        },
        CacheEntryValue::Count(count) => {
            let mut out: Vec<PartialResult> = Vec::new();
            let mut i: usize = 0;
            while i < *count
                invariant
                    i <= *count,
                    results_view(out@) =~= Seq::new(i as nat, |j: int| result@),
                decreases *count - i,
            {
                let ghost before = out@;
                let c = result.clone();
                out.push(c);
                proof {
                    assert(results_view(out@) =~= results_view(before).push(result@));
                    assert(Seq::new((i + 1) as nat, |j: int| result@) =~= Seq::new(i as nat, |j: int| result@).push(result@));
                }
                i = i + 1;
            }
            out
        },
        CacheEntryValue::Aggr(x) => {
            let mut out: Vec<PartialResult> = Vec::new();
            let r = result.clone().insert_parameter((idx, 0), x.clone());
            out.push(r);
            proof {
                assert(results_view(out@) =~= seq![r@]);
            }
            out
        },
        CacheEntryValue::Exists(exists) => {
            let mut out: Vec<PartialResult> = Vec::new();
            if !*exists {
                out.push(result.clone());
            }
            proof {
                if !*exists {
                    assert(results_view(out@) =~= seq![result@]);
                } else {
                    assert(results_view(out@) =~= Seq::<SpecResult>::empty());
                }
            }
            out
        },
    }
}


/// What the query of a static predicate needs: its statement, the
/// parameters of other predicates it reads, and the types of the parameters
/// it gives.
#[derive(Debug)]
pub struct QueryPlan {
    pub statement: String,
    pub input_params: Vec<(usize, usize)>,
    pub output_params: Vec<BasicType>,
}

/// The parameters a predicate reads from other predicates, sorted.
fn input_parameters(idx: usize, predicate: &Predicate) -> (r: Vec<(usize, usize)>)
    ensures
        crate::pairs::strictly_sorted(r@),
        forall|q: (usize, usize)| #[trigger] r@.contains(q) <==> (predicate_params(*predicate).contains(q) && q.0 != idx),
{
    let all = predicate.get_used_parameters();
    let mut out: Vec<(usize, usize)> = Vec::new();
    let mut i: usize = 0;
    while i < all.len()
        invariant
            crate::pairs::strictly_sorted(all@),
            all@.to_set() == predicate_params(*predicate),
            i <= all@.len(),
            crate::pairs::strictly_sorted(out@),
            forall|q: (usize, usize)| #[trigger] out@.contains(q) <==> (exists|j: int| 0 <= j < i && all@[j] == q && q.0 != idx),
        decreases all@.len() - i,
    {
        let q = all[i];
        if q.0 != idx {
            let ghost before = out@;
            out.push(q);
            proof {
                assert forall|a: int, b: int| 0 <= a < b < out@.len() implies crate::pairs::pair_lt(#[trigger] out@[a], #[trigger] out@[b]) by {
                    if b == out@.len() - 1 {
                        assert(before.contains(out@[a]));
                        let j = choose|j: int| 0 <= j < i && all@[j] == out@[a] && out@[a].0 != idx;
                        assert(crate::pairs::pair_lt(all@[j], all@[i as int]));
                    } else {
                        assert(out@[a] == before[a] && out@[b] == before[b]);
                    }
                }
                assert forall|x: (usize, usize)| #[trigger] out@.contains(x) <==> (exists|j: int| 0 <= j < i + 1 && all@[j] == x && x.0 != idx) by {
                    if out@.contains(x) && x != q {
                        let k = choose|k: int| 0 <= k < out@.len() && out@[k] == x;
                        assert(before[k] == x);
                        assert(before.contains(x));
                    }
                    if exists|j: int| 0 <= j < i + 1 && all@[j] == x && x.0 != idx {
                        let j = choose|j: int| 0 <= j < i + 1 && all@[j] == x && x.0 != idx;
                        if j < i {
                            assert(before.contains(x));
                            let k = choose|k: int| 0 <= k < before.len() && before[k] == x;
                            assert(out@[k] == x);
                        } else {
                            assert(out@[before.len() as int] == x);
                        }
                    }
                }
            }
        } else {
            proof {
                assert forall|x: (usize, usize)| #[trigger] out@.contains(x) <==> (exists|j: int| 0 <= j < i + 1 && all@[j] == x && x.0 != idx) by {
                    if exists|j: int| 0 <= j < i + 1 && all@[j] == x && x.0 != idx {
                        let j = choose|j: int| 0 <= j < i + 1 && all@[j] == x && x.0 != idx;
                        assert(j != i);
                    }
                }
            }
        }
        i = i + 1;
    }
    proof {
        assert forall|q: (usize, usize)| #[trigger] out@.contains(q) <==> (predicate_params(*predicate).contains(q) && q.0 != idx) by {
            if predicate_params(*predicate).contains(q) {
                assert(all@.to_set().contains(q));
                let j = choose|j: int| 0 <= j < all@.len() && all@[j] == q;
            }
            if exists|j: int| 0 <= j < all@.len() && all@[j] == q && q.0 != idx {
                let j = choose|j: int| 0 <= j < all@.len() && all@[j] == q && q.0 != idx;
                assert(all@.to_set().contains(all@[j]));
            }
        }
    }
    out
}

/// The types of the parameters a static predicate gives, in order.
pub open spec fn output_types(idx: usize, ty: SpecPredicateType, types: Map<(usize, usize), BasicType>) -> Seq<BasicType> {
    match ty {
        SpecPredicateType::OrderedStatic { parameters, .. } | SpecPredicateType::UnorderedStatic { parameters } =>
            Seq::new(parameters.len(), |n: int| types[(idx, n as usize)]),
        SpecPredicateType::StaticAggregate { .. } => seq![types[(idx, 0usize)]],
        _ => Seq::empty(),
    }
}

/// Whether the types of the parameters a static predicate gives are known.
pub open spec fn output_types_known(idx: usize, ty: SpecPredicateType, types: Map<(usize, usize), BasicType>) -> bool {
    match ty {
        SpecPredicateType::OrderedStatic { parameters, .. } | SpecPredicateType::UnorderedStatic { parameters } =>
            forall|n: int| 0 <= n < parameters.len() ==> #[trigger] types.contains_key((idx, n as usize)),
        SpecPredicateType::StaticAggregate { .. } => types.contains_key((idx, 0usize)),
        _ => true,
    }
}

/// The scope a fresh translation context of predicate `idx` gives.
pub open spec fn initial_scope(idx: usize, tuple: TupleDeclaration) -> SqlScope {
    SqlScope { name: tuple.name@, attrs: attr_names(tuple.attributes@), idx, params: Seq::empty(), aggregate: None }
}

/// Whether the query of predicate `idx` can be planned: the tuple type is
/// not static, or the predicate can be written in SQL over it and the types
/// of the parameters it gives are known.
#[verifier::loop_isolation(false)]
pub fn can_plan_query(idx: usize, tuple: &TupleDeclaration, predicate: &Predicate, parameters_ty: &LinearMap<(usize, usize), BasicType>) -> (r: bool)
    ensures
        r == (tuple.ty == TupleType::Static ==> predicate_encodable(predicate@, initial_scope(idx, *tuple), attribute_types(*tuple))
            && output_types_known(idx, predicate@.ty, type_values(*parameters_ty))),
{
    match tuple.ty {
        TupleType::Static => {},
        TupleType::Event => return true,
    }
    let ghost sc = initial_scope(idx, *tuple);
    let n_attrs = tuple.attributes.len();
    assert(sc.attrs.len() == n_attrs);
    let cs = &predicate.tuple.constraints;
    let mut i: usize = 0;
    while i < cs.len()
        invariant
            sc == initial_scope(idx, *tuple),
            sc.attrs.len() == n_attrs,
            i <= cs@.len(),
            forall|k: int| 0 <= k < i ==> #[trigger] sql_encodable(cs@[k], sc),
        decreases cs@.len() - i,
    {
        if !encodable(&cs[i], Ghost(sc), idx, n_attrs, 0, false) {
            assert(predicate@.constraints[i as int] == cs@[i as int]);
            assert(!sql_encodable(predicate@.constraints[i as int], sc));
            return false;
        }
        i = i + 1;
    }
    match &predicate.ty {
        PredicateType::OrderedStatic { parameters, ordering } => {
            if !params_encodable_exec(parameters, Ghost(sc), idx, n_attrs, false) {
                return false;
            }
            let mut k: usize = 0;
            while k < ordering.len()
                invariant
                    sc.attrs.len() == n_attrs,
                    k <= ordering@.len(),
                    forall|m: int| 0 <= m < k ==> #[trigger] ordering@[m].attribute < sc.attrs.len(),
                decreases ordering@.len() - k,
            {
                if ordering[k].attribute >= n_attrs {
                    assert(!(ordering@[k as int].attribute < sc.attrs.len()));
                    return false;
                }
                k = k + 1;
            }
            outputs_known(idx, parameters.len(), parameters_ty)
        },
        PredicateType::UnorderedStatic { parameters } => {
            if !params_encodable_exec(parameters, Ghost(sc), idx, n_attrs, false) {
                return false;
            }
            outputs_known(idx, parameters.len(), parameters_ty)
        },
        PredicateType::StaticAggregate { aggregator, parameter } => {
            if !aggregate_fits(aggregator, tuple) {
                return false;
            }
            let ghost sca = SqlScope { aggregate: Some(aggregate_sql(*aggregator, sc)), ..sc };
            if !encodable(&parameter.expression, Ghost(sca), idx, n_attrs, 0, true) {
                return false;
            }
            get_type_value(parameters_ty, &(idx, 0)).is_some()
        },
        PredicateType::StaticNegation => true,
        _ => false,
    }
}

/// Whether the types of parameters `(idx, 0)` to `(idx, n - 1)` are known.
fn outputs_known(idx: usize, n: usize, parameters_ty: &LinearMap<(usize, usize), BasicType>) -> (r: bool)
    ensures
        r == forall|m: int| 0 <= m < n ==> #[trigger] type_values(*parameters_ty).contains_key((idx, m as usize)),
{
    let mut m: usize = 0;
    while m < n
        invariant
            m <= n,
            forall|k: int| 0 <= k < m ==> #[trigger] type_values(*parameters_ty).contains_key((idx, k as usize)),
        decreases n - m,
    {
        if get_type_value(parameters_ty, &(idx, m)).is_none() {
            assert(!type_values(*parameters_ty).contains_key((idx, (m as int) as usize)));
            return false;
        }
        m = m + 1;
    }
    true
}

/// The plan of the query of predicate `idx` over a static tuple type; `None`
/// for a tuple type of events, which a query cannot serve.
pub fn plan_query<R: FloatRenderer>(
    idx: usize,
    tuple: &TupleDeclaration,
    predicate: &Predicate,
    parameters_ty: &LinearMap<(usize, usize), BasicType>,
    renderer: &R,
) -> (r: Option<QueryPlan>)
    requires
        tuple.ty == TupleType::Static ==> predicate_encodable(predicate@, initial_scope(idx, *tuple), attribute_types(*tuple)),
        tuple.ty == TupleType::Static ==> output_types_known(idx, predicate@.ty, type_values(*parameters_ty)),
    ensures
        r is Some <==> tuple.ty == TupleType::Static,
        r matches Some(plan) ==> {
            &&& crate::pairs::strictly_sorted(plan.input_params@)
            &&& forall|q: (usize, usize)| #[trigger] plan.input_params@.contains(q) <==> (predicate_params(*predicate).contains(q) && q.0 != idx)
            &&& plan.output_params@ == output_types(idx, predicate@.ty, type_values(*parameters_ty))
            &&& predicate_float_free(predicate@) ==> plan.statement@ == predicate_sql(predicate@, initial_scope(idx, *tuple))
        },
{
    match tuple.ty {
        TupleType::Static => {},
        TupleType::Event => return None,
    }
    let input_params = input_parameters(idx, predicate);
    let mut output_params: Vec<BasicType> = Vec::new();
    match &predicate.ty {
        PredicateType::OrderedStatic { parameters, .. } | PredicateType::UnorderedStatic { parameters } => {
            let mut n: usize = 0;
            while n < parameters.len()
                invariant
                    n <= parameters@.len(),
                    forall|m: int| 0 <= m < parameters@.len() ==> #[trigger] type_values(*parameters_ty).contains_key((idx, m as usize)),
                    output_params@ == Seq::new(n as nat, |m: int| type_values(*parameters_ty)[(idx, m as usize)]),
                decreases parameters@.len() - n,
            {
                let ghost before = output_params@;
                proof {
                    assert(type_values(*parameters_ty).contains_key((idx, (n as int) as usize)));
                }
                match get_type_value(parameters_ty, &(idx, n)) {
                    Some(t) => output_params.push(t),
                    None => {},
                }
                proof {
                    assert(output_params@ =~= Seq::new((n + 1) as nat, |m: int| type_values(*parameters_ty)[(idx, m as usize)]));
                }
                n = n + 1;
            }
        },
        PredicateType::StaticAggregate { .. } => {
            match get_type_value(parameters_ty, &(idx, 0)) {
                Some(t) => output_params.push(t),
                None => {},
            }
        },
        _ => {},
    }
    proof {
        assert(output_params@ =~= output_types(idx, predicate@.ty, type_values(*parameters_ty)));
    }
    let mut context = SqlContext::new(idx, tuple);
    let statement = context.encode_predicate(predicate, renderer);
    Some(QueryPlan { statement, input_params, output_params })
}


/// The values of rows, row after row.
pub open spec fn concat_rows(rows: Seq<Vec<Value>>) -> Seq<Value>
    decreases rows.len(),
{
    if rows.len() == 0 {
        Seq::empty()
    } else {
        concat_rows(rows.drop_last()) + rows.last()@
    }
}

/// The query result the rows of a static predicate's query make: for a
/// predicate with `n > 0` parameters, its rows of `n` values; for one
/// without, the count the first row holds; for an aggregate, the value the
/// first row holds; for a negation, whether there is a row. `None` where a
/// count or an aggregate has no row, or a count is not an integer, and for
/// a predicate that is not static.
pub open spec fn rows_entry(ty: SpecPredicateType, n: usize, rows: Seq<Vec<Value>>) -> Option<SpecEntryValue> {
    match ty {
        SpecPredicateType::OrderedStatic { .. } | SpecPredicateType::UnorderedStatic { .. } => if n > 0 {
            Some(SpecEntryValue::Values(n, values_view(concat_rows(rows))))
        } else if rows.len() > 0 && rows[0]@.len() > 0 {
            match rows[0]@[0] {
                Value::Int(c) => Some(SpecEntryValue::Count(c as usize)),
                _ => None,
            }
        } else {
            None
        },
        SpecPredicateType::StaticAggregate { .. } => if rows.len() > 0 && rows[0]@.len() > 0 {
            Some(SpecEntryValue::Aggr(rows[0]@[0]@))
        } else {
            None
        },
        SpecPredicateType::StaticNegation => Some(SpecEntryValue::Exists(rows.len() > 0)),
        _ => None,
    }
}

/// The query result the rows of a static predicate's query make, as
/// [`rows_entry`] says.
pub fn entry_of_rows(ty: &PredicateType, n: usize, rows: &Vec<Vec<Value>>) -> (r: Option<CacheEntryValue>)
    ensures
        match r {
            Some(e) => rows_entry(ty@, n, rows@) == Some(e@),
            None => rows_entry(ty@, n, rows@) is None,
        },
{
    match ty {
        PredicateType::OrderedStatic { .. } | PredicateType::UnorderedStatic { .. } => if n > 0 {
            let mut out: Vec<Value> = Vec::new();
            let mut i: usize = 0;
            while i < rows.len()
                invariant
                    i <= rows@.len(),
                    out@ == concat_rows(rows@.subrange(0, i as int)),
                decreases rows@.len() - i,
            {
                let ghost before = out@;
                let mut j: usize = 0;
                while j < rows[i].len()
                    invariant
                        i < rows@.len(),
                        j <= rows@[i as int]@.len(),
                        out@ == before + rows@[i as int]@.subrange(0, j as int),
                    decreases rows@[i as int]@.len() - j,
                {
                    out.push(rows[i][j].clone());
                    proof {
                        assert(rows@[i as int]@.subrange(0, j + 1) =~= rows@[i as int]@.subrange(0, j as int).push(rows@[i as int]@[j as int]));
                    }
                    j = j + 1;
                }
                proof {
                    assert(rows@.subrange(0, i + 1).drop_last() =~= rows@.subrange(0, i as int));
                    assert(rows@[i as int]@.subrange(0, j as int) =~= rows@[i as int]@);
                }
                i = i + 1;
            }
            proof {
                assert(rows@.subrange(0, rows@.len() as int) =~= rows@);
            }
            Some(CacheEntryValue::Values(n, out))
        } else if rows.len() > 0 && rows[0].len() > 0 {
            match &rows[0][0] {
                Value::Int(c) => Some(CacheEntryValue::Count(*c as usize)),
                _ => None,
            }
        } else {
            None
        },
        PredicateType::StaticAggregate { .. } => if rows.len() > 0 && rows[0].len() > 0 {
            Some(CacheEntryValue::Aggr(rows[0][0].clone()))
        } else {
            None
        },
        PredicateType::StaticNegation => Some(CacheEntryValue::Exists(rows.len() > 0)),
        _ => None,
    }
}

/// The key a partial result is looked up under: the statement and the
/// values of the parameters it reads, in order.
pub fn prepare_key(plan: &QueryPlan, result: &PartialResult) -> (r: CacheKey)
    requires
        forall|i: int| 0 <= i < plan.input_params@.len() ==> result@.params.contains_key(#[trigger] plan.input_params@[i]),
    ensures
        r.statement@ == plan.statement@,
        values_view(r.input_params@) == Seq::new(plan.input_params@.len(), |i: int| result@.params[plan.input_params@[i]]),
{
    let mut input_params: Vec<Value> = Vec::new();
    let mut i: usize = 0;
    while i < plan.input_params.len()
        invariant
            i <= plan.input_params@.len(),
            forall|k: int| 0 <= k < plan.input_params@.len() ==> result@.params.contains_key(#[trigger] plan.input_params@[k]),
            values_view(input_params@) == Seq::new(i as nat, |k: int| result@.params[plan.input_params@[k]]),
        decreases plan.input_params@.len() - i,
    {
        let ghost before = input_params@;
        let v = result.get_parameter(plan.input_params[i]).clone();
        let ghost vv = v@;
        input_params.push(v);
        proof {
            assert(values_view(input_params@) =~= values_view(before).push(vv));
            assert(values_view(input_params@) =~= Seq::new((i + 1) as nat, |k: int| result@.params[plan.input_params@[k]]));
        }
        i = i + 1;
    }
    CacheKey { statement: plan.statement.clone(), input_params }
}

/// What evaluating a partial result through a query result gives: nothing
/// for rows of no value, else the partial results it extends to.
pub open spec fn entry_outcome(idx: usize, res: SpecResult, e: CacheEntry) -> Option<Seq<SpecResult>> {
    match e.spec_value()@ {
        SpecEntryValue::Values(n, _) => if n == 0 {
            None
        } else {
            Some(expand_entry_spec(idx, res, e.spec_value()@))
        },
        v => Some(expand_entry_spec(idx, res, v)),
    }
}

/// The models of optional partial results.
pub open spec fn opt_results(r: Option<Vec<PartialResult>>) -> Option<Seq<SpecResult>> {
    match r {
        Some(v) => Some(results_view(v@)),
        None => None,
    }
}

/// Whether `k` is the key of a partial result under a plan: the plan's
/// statement and the values of the parameters it reads, in order.
pub open spec fn key_of(plan: QueryPlan, res: SpecResult, k: CacheKey) -> bool {
    &&& k.statement@ == plan.statement@
    &&& values_view(k.input_params@) == Seq::new(plan.input_params@.len(), |i: int| res.params[plan.input_params@[i]])
}

/// What evaluating through the key `k` gives: the outcome of the entry the
/// cache held under `k`, else of the entry it now holds under `k`, else of
/// the entry fetched and not kept.
pub open spec fn evaluated_through<C: Cache<K = CacheKey, V = CacheEntry>>(
    idx: usize,
    res: SpecResult,
    k: CacheKey,
    before: C,
    after: C,
    r: Option<Seq<SpecResult>>,
) -> bool {
    match before.cached(k) {
        Some(e) => r == entry_outcome(idx, res, e),
        None => match after.cached(k) {
            Some(e) => r == entry_outcome(idx, res, e),
            None => exists|e: CacheEntry| r == #[trigger] entry_outcome(idx, res, e),
        },
    }
}

/// The evaluation of a static predicate through the cached results of its
/// query.
#[derive(Debug)]
pub struct SQLiteDriver<C, F> {
    idx: usize,
    plan: QueryPlan,
    fetcher: CachedFetcher<C, F>,
}

impl<C: Cache<K = CacheKey, V = CacheEntry>, F: Fetcher<CacheKey, CacheEntry>> SQLiteDriver<C, F> {
    /// The index of the predicate.
    pub closed spec fn spec_idx(&self) -> usize {
        self.idx
    }

    /// Whether the parameters the query reads are set in a partial result.
    pub closed spec fn inputs_known(&self, res: SpecResult) -> bool {
        forall|i: int| 0 <= i < self.plan.input_params@.len() ==> res.params.contains_key(#[trigger] self.plan.input_params@[i])
    }

    /// Whether the cache is consistent and can serve any key.
    pub closed spec fn cache_ready(&self) -> bool {
        &&& self.fetcher.cache_state().inv()
        &&& forall|k: CacheKey| #[trigger] self.fetcher.cache_state().can_fetch(k)
    }

    /// The plan of the query.
    pub closed spec fn plan(&self) -> QueryPlan {
        self.plan
    }

    /// The cache the query results go through.
    pub closed spec fn cache(&self) -> C {
        self.fetcher.cache_state()
    }

    /// The driver of predicate `idx`, with its plan and its fetcher.
    pub fn new(idx: usize, plan: QueryPlan, fetcher: CachedFetcher<C, F>) -> (r: Self)
        ensures
            r.spec_idx() == idx,
            r.plan() == plan,
            r.cache() == fetcher.cache_state(),
    {
        SQLiteDriver { idx, plan, fetcher }
    }

    /// The partial results a partial result extends to with the rows of the
    /// query: the query result comes from the cache when it holds it under
    /// the result's key, else from the database (and is kept when the cache
    /// keeps it), and the key's hash is `key_hash`. `None` when the query
    /// result holds rows of no value.
    pub fn evaluate(&mut self, result: &PartialResult, key_hash: u64) -> (r: Option<Vec<PartialResult>>)
        requires
            old(self).inputs_known(result@),
            old(self).cache_ready(),
        ensures
            final(self).spec_idx() == old(self).spec_idx(),
            final(self).plan() == old(self).plan(),
            exists|k: CacheKey| #[trigger] key_of(old(self).plan(), result@, k)
                && evaluated_through(old(self).spec_idx(), result@, k, old(self).cache(), final(self).cache(), opt_results(r)),
    {
        let key = prepare_key(&self.plan, result);
        let ghost k = key;
        let ghost before = self.fetcher.cache_state();
        let fetched = self.fetcher.fetch(key, key_hash);
        let entry: &CacheEntry = match &fetched {
            FetchedValue::Cached(e) => e,
            FetchedValue::Uncached(e) => e,
        };
        let value = entry.value();
        let out = match value {
            CacheEntryValue::Values(n, _) => if *n == 0 {
                None
            } else {
                Some(expand_entry(self.idx, result, value))
            },
            _ => Some(expand_entry(self.idx, result, value)),
        };
        proof {
            assert(opt_results(out) == entry_outcome(self.idx, result@, *entry));
            assert(evaluated_through(self.idx, result@, k, before, self.fetcher.cache_state(), opt_results(out)));
            assert(old(self).plan() == self.plan && old(self).cache() == before && old(self).spec_idx() == self.idx);
            assert(key_of(old(self).plan(), result@, k));
            assert(evaluated_through(old(self).spec_idx(), result@, k, old(self).cache(), self.cache(), opt_results(out)));
        }
        out
    }
}

} // verus!
