//! Event stacks: the events a non-trigger event predicate has seen, kept in
//! chronological order, and the evaluation of the predicate over a time
//! window of them.

use vstd::prelude::*;
use std::collections::HashMap;
use linear_map::LinearMap;
use crate::aggregators::{aggregate_value, aggregator_well_typed, compute_aggregate, events_view};
use crate::evaluation::{
    CompleteContext, CurrentValue, EvalEnv, SimpleContext, all_hold, all_satisfied, eval,
    evaluate_expression,
};
use crate::expressions::{BasicType, Expression, SpecValue, Value, expr_is_local};
use crate::predicates::{
    EventSelection, ParameterDeclaration, Predicate, PredicateType, SpecPredicateType, Timing,
    TimingBound, clone_expressions,
};
use crate::rule_processor::{PartialResult, SpecResult};
use crate::tuples::{Event, SpecEvent, TupleDeclaration, attribute_types, same_event, values_view};

verus! {

/// Events in nondecreasing order of time.
pub open spec fn sorted_by_time(s: Seq<SpecEvent>) -> bool {
    forall|i: int, j: int| 0 <= i <= j < s.len() ==> #[trigger] s[i].time <= #[trigger] s[j].time
}

/// The index of the first event not earlier than `t` (the number of events
/// earlier than `t` when they are in chronological order).
pub open spec fn first_not_before(s: Seq<SpecEvent>, t: int) -> int
    decreases s.len(),
{
    if s.len() == 0 {
        0
    } else if s.last().time < t {
        s.len() as int
    } else {
        first_not_before(s.drop_last(), t)
    }
}

/// [`first_not_before`] is an index of the sequence or its length.
pub proof fn lemma_first_not_before_bounds(s: Seq<SpecEvent>, t: int)
    ensures
        0 <= first_not_before(s, t) <= s.len(),
    decreases s.len(),
{
    if s.len() > 0 {
        lemma_first_not_before_bounds(s.drop_last(), t);
    }
}

/// In a chronological sequence, the events before [`first_not_before`] are
/// earlier than `t` and the others are not.
pub proof fn lemma_first_not_before(s: Seq<SpecEvent>, t: int)
    requires
        sorted_by_time(s),
    ensures
        0 <= first_not_before(s, t) <= s.len(),
        forall|j: int| 0 <= j < first_not_before(s, t) ==> s[j].time < t,
        forall|j: int| first_not_before(s, t) <= j < s.len() ==> s[j].time >= t,
    decreases s.len(),
{
    if s.len() > 0 {
        if s.last().time < t {
            assert forall|j: int| 0 <= j < s.len() implies s[j].time < t by {
                assert(s[j].time <= s[s.len() - 1].time);
            }
        } else {
            let u = s.drop_last();
            assert(sorted_by_time(u)) by {
                assert forall|i: int, j: int| 0 <= i <= j < u.len() implies #[trigger] u[i].time
                    <= #[trigger] u[j].time by {
                    assert(u[i] == s[i] && u[j] == s[j]);
                }
            }
            lemma_first_not_before(u, t);
            assert forall|j: int| 0 <= j < first_not_before(s, t) implies s[j].time < t by {
                assert(u[j] == s[j]);
            }
            assert forall|j: int| first_not_before(s, t) <= j < s.len() implies s[j].time >= t by {
                if j < u.len() {
                    assert(u[j] == s[j]);
                }
            }
        }
    }
}

/// The index of the first event not earlier than `t`, found by binary search.
pub fn partition_point(events: &Vec<Event>, t: i64) -> (r: usize)
    requires
        sorted_by_time(events_view(events@)),
    ensures
        r == first_not_before(events_view(events@), t as int),
{
    let ghost s = events_view(events@);
    proof {
        lemma_first_not_before(s, t as int);
    }
    let mut lo: usize = 0;
    let mut hi: usize = events.len();
    while lo < hi
        invariant
            s == events_view(events@),
            sorted_by_time(s),
            0 <= lo <= hi <= events@.len(),
            forall|j: int| 0 <= j < lo ==> s[j].time < t,
            forall|j: int| hi <= j < s.len() ==> s[j].time >= t,
        decreases hi - lo,
    {
        let mid = lo + (hi - lo) / 2;
        assert(s[mid as int] == events@[mid as int]@);
        if events[mid].time < t {
            proof {
                assert forall|j: int| 0 <= j < mid + 1 implies s[j].time < t by {
                    assert(s[j].time <= s[mid as int].time);
                }
            }
            lo = mid + 1;
        } else {
            proof {
                assert forall|j: int| mid <= j < s.len() implies s[j].time >= t by {
                    assert(s[mid as int].time <= s[j].time);
                }
            }
            hi = mid;
        }
    }
    proof {
        let f = first_not_before(s, t as int);
        if lo < f {
            assert(s[lo as int].time < t);
        }
        if f < lo {
            assert(s[f].time >= t);
            assert(s[f].time < t);
        }
    }
    lo
}

/// The environment of an expression evaluated against the parameters of a
/// partial result and the attributes of an event.
pub open spec fn tuple_env(params: Map<(usize, usize), SpecValue>, data: Seq<SpecValue>) -> EvalEnv {
    EvalEnv { attrs: Some(data), aggr: None, params: Some(params) }
}

/// Binds the parameters declared by predicate `idx` against an event: each
/// parameter is evaluated with the ones bound before it.
pub open spec fn bind_params(ps: Seq<ParameterDeclaration>, idx: usize, res: SpecResult, data: Seq<SpecValue>) -> Option<SpecResult>
    decreases ps.len(),
{
    if ps.len() == 0 {
        Some(res)
    } else {
        match bind_params(ps.drop_last(), idx, res, data) {
            Some(r) => match eval(ps.last().expression, tuple_env(r.params, data)) {
                Some(v) => Some(SpecResult { params: r.params.insert((idx, (ps.len() - 1) as usize), v), events: r.events }),
                None => None,
            },
            None => None,
        }
    }
}

/// What an event of the window gives: the partial result extended with its
/// parameters and the event when the global constraints hold (`Some(None)`
/// when they do not), `None` when an evaluation fails.
pub open spec fn candidate(ps: Seq<ParameterDeclaration>, global: Seq<Expression>, idx: usize, res: SpecResult, e: SpecEvent) -> Option<Option<SpecResult>> {
    match bind_params(ps, idx, res, e.data) {
        Some(r) => match all_hold(global, tuple_env(r.params, e.data)) {
            Some(true) => Some(Some(SpecResult { params: r.params, events: r.events.insert(idx, e) })),
            Some(false) => Some(None),
            None => None,
        },
        None => None,
    }
}

/// The results of every event of the window, in order.
pub open spec fn select_each(ps: Seq<ParameterDeclaration>, global: Seq<Expression>, idx: usize, res: SpecResult, w: Seq<SpecEvent>) -> Option<Seq<SpecResult>>
    decreases w.len(),
{
    if w.len() == 0 {
        Some(Seq::empty())
    } else {
        match select_each(ps, global, idx, res, w.drop_last()) {
            Some(acc) => match candidate(ps, global, idx, res, w.last()) {
                Some(Some(r)) => Some(acc.push(r)),
                Some(None) => Some(acc),
                None => None,
            },
            None => None,
        }
    }
}

/// The result of the earliest event of the window that gives one; events
/// after it are not looked at.
pub open spec fn select_first(ps: Seq<ParameterDeclaration>, global: Seq<Expression>, idx: usize, res: SpecResult, w: Seq<SpecEvent>) -> Option<Seq<SpecResult>>
    decreases w.len(),
{
    if w.len() == 0 {
        Some(Seq::empty())
    } else {
        match candidate(ps, global, idx, res, w[0]) {
            Some(Some(r)) => Some(seq![r]),
            Some(None) => select_first(ps, global, idx, res, w.drop_first()),
            None => None,
        }
    }
}

/// The result of the latest event of the window that gives one; events
/// before it are not looked at.
pub open spec fn select_last(ps: Seq<ParameterDeclaration>, global: Seq<Expression>, idx: usize, res: SpecResult, w: Seq<SpecEvent>) -> Option<Seq<SpecResult>>
    decreases w.len(),
{
    if w.len() == 0 {
        Some(Seq::empty())
    } else {
        match candidate(ps, global, idx, res, w.last()) {
            Some(Some(r)) => Some(seq![r]),
            Some(None) => select_last(ps, global, idx, res, w.drop_last()),
            None => None,
        }
    }
}

/// The events of the window that satisfy the global constraints.
pub open spec fn filter_global(global: Seq<Expression>, params: Map<(usize, usize), SpecValue>, w: Seq<SpecEvent>) -> Option<Seq<SpecEvent>>
    decreases w.len(),
{
    if w.len() == 0 {
        Some(Seq::empty())
    } else {
        match filter_global(global, params, w.drop_last()) {
            Some(acc) => match all_hold(global, tuple_env(params, w.last().data)) {
                Some(true) => Some(acc.push(w.last())),
                Some(false) => Some(acc),
                None => None,
            },
            None => None,
        }
    }
}

/// Whether some event of the window satisfies the global constraints,
/// looking at the events in order up to the first that does.
pub open spec fn any_global(global: Seq<Expression>, params: Map<(usize, usize), SpecValue>, w: Seq<SpecEvent>) -> Option<bool>
    decreases w.len(),
{
    if w.len() == 0 {
        Some(false)
    } else {
        match all_hold(global, tuple_env(params, w[0].data)) {
            Some(true) => Some(true),
            Some(false) => any_global(global, params, w.drop_first()),
            None => None,
        }
    }
}

/// The model of a stack.
pub struct StackModel {
    pub idx: usize,
    pub ty_id: usize,
    pub ty: SpecPredicateType,
    pub local: Seq<Expression>,
    pub global: Seq<Expression>,
    pub timing: Timing,
    pub types: Seq<BasicType>,
    pub events: Seq<SpecEvent>,
}

/// The lower and upper ends of the time window of a partial result.
pub open spec fn window_bounds(timing: Timing, res: SpecResult) -> Option<(int, int)> {
    if !res.events.contains_key(timing.upper) {
        None
    } else {
        let upper = res.events[timing.upper].time as int;
        match timing.bound {
            TimingBound::Within { window } => if i64::MIN <= upper - window <= i64::MAX {
                Some((upper - window, upper))
            } else {
                None
            },
            TimingBound::Between { lower } => if res.events.contains_key(lower) {
                Some((res.events[lower].time as int, upper))
            } else {
                None
            },
        }
    }
}

/// The events of the stack inside the time window of a partial result: not
/// earlier than its lower end and earlier than its upper end.
pub open spec fn window_of(m: StackModel, res: SpecResult) -> Option<Seq<SpecEvent>> {
    match window_bounds(m.timing, res) {
        Some((l, u)) => {
            let lo = first_not_before(m.events, l);
            let hi = first_not_before(m.events, u);
            if lo <= hi {
                Some(m.events.subrange(lo, hi))
            } else {
                None
            }
        },
        None => None,
    }
}

/// What evaluating a stack against a partial result gives: the extended
/// partial results, or `None` when the evaluation fails.
pub open spec fn stack_evaluate(m: StackModel, res: SpecResult) -> Option<Seq<SpecResult>> {
    match window_of(m, res) {
        Some(w) => match m.ty {
            SpecPredicateType::Event { selection, parameters, .. } => match selection {
                EventSelection::Each => select_each(parameters, m.global, m.idx, res, w),
                EventSelection::First => select_first(parameters, m.global, m.idx, res, w),
                EventSelection::Last => select_last(parameters, m.global, m.idx, res, w),
            },
            SpecPredicateType::EventAggregate { aggregator, parameter, .. } => match filter_global(m.global, res.params, w) {
                Some(sel) => match aggregate_value(aggregator, sel, m.types) {
                    Some(Some(v)) => match eval(parameter.expression, EvalEnv { attrs: None, aggr: Some(v), params: Some(res.params) }) {
                        Some(x) => Some(seq![SpecResult { params: res.params.insert((m.idx, 0), x), events: res.events }]),
                        None => None,
                    },
                    Some(None) => Some(Seq::empty()),
                    None => None,
                },
                None => None,
            },
            SpecPredicateType::EventNegation { .. } => match any_global(m.global, res.params, w) {
                Some(true) => Some(Seq::empty()),
                Some(false) => Some(seq![res]),
                None => None,
            },
            _ => None,
        },
        None => None,
    }
}

/// Whether an event satisfies the local constraints of a stack: its type is
/// the stack's and the constraints that refer to no parameter hold.
pub open spec fn locally_satisfied(m: StackModel, e: SpecEvent) -> Option<bool> {
    if e.ty_id != m.ty_id {
        Some(false)
    } else {
        all_hold(m.local, EvalEnv { attrs: Some(e.data), aggr: None, params: None })
    }
}

/// The models of a list of partial results.
pub open spec fn results_view(v: Seq<PartialResult>) -> Seq<SpecResult> {
    v.map_values(|r: PartialResult| r@)
}

/// The stack of events of a non-trigger event predicate.
#[derive(Debug)]
pub struct Stack {
    idx: usize,
    tuple: TupleDeclaration,
    predicate: Predicate,
    local_exprs: Vec<Expression>,
    global_exprs: Vec<Expression>,
    timing: Timing,
    events: Vec<Event>,
}

impl Stack {
    /// The model of the stack.
    pub closed spec fn model(&self) -> StackModel {
        StackModel {
            idx: self.idx,
            ty_id: self.predicate.tuple.ty_id,
            ty: self.predicate.ty@,
            local: self.local_exprs@,
            global: self.global_exprs@,
            timing: self.timing,
            types: attribute_types(self.tuple),
            events: events_view(self.events@),
        }
    }

    /// The invariant of a stack: its events are in chronological order.
    pub closed spec fn wf(&self) -> bool {
        &&& sorted_by_time(events_view(self.events@))
        &&& predicate_well_typed(self.predicate.ty@, attribute_types(self.tuple))
    }
}


/// Whether an aggregate predicate reads a numeric attribute its tuple has;
/// any other predicate is.
pub open spec fn predicate_well_typed(ty: SpecPredicateType, types: Seq<BasicType>) -> bool {
    match ty {
        SpecPredicateType::EventAggregate { aggregator, .. } => aggregator_well_typed(aggregator, types),
        SpecPredicateType::StaticAggregate { aggregator, .. } => aggregator_well_typed(aggregator, types),
        _ => true,
    }
}

/// The constraints that refer to no parameter, in order.
pub open spec fn local_part(v: Seq<Expression>) -> Seq<Expression>
    decreases v.len(),
{
    if v.len() == 0 {
        v
    } else if expr_is_local(v.last()) {
        local_part(v.drop_last()).push(v.last())
    } else {
        local_part(v.drop_last())
    }
}

/// The constraints that refer to some parameter, in order.
pub open spec fn global_part(v: Seq<Expression>) -> Seq<Expression>
    decreases v.len(),
{
    if v.len() == 0 {
        v
    } else if !expr_is_local(v.last()) {
        global_part(v.drop_last()).push(v.last())
    } else {
        global_part(v.drop_last())
    }
}

/// The time window of an event predicate type.
pub open spec fn event_timing(ty: SpecPredicateType) -> Option<Timing> {
    match ty {
        SpecPredicateType::Event { timing, .. } => Some(timing),
        SpecPredicateType::EventAggregate { timing, .. } => Some(timing),
        SpecPredicateType::EventNegation { timing } => Some(timing),
        _ => None,
    }
}

/// A stack model with other events.
pub open spec fn with_events(m: StackModel, events: Seq<SpecEvent>) -> StackModel {
    StackModel { events, ..m }
}

impl Stack {
    /// The stack of predicate `idx`, when it is an event predicate that is
    /// not the trigger: event, event aggregate or event negation.
    pub fn new(idx: usize, tuple: &TupleDeclaration, predicate: &Predicate) -> (r: Option<Stack>)
        ensures
            r is Some <==> event_timing(predicate.ty@) is Some,
            r matches Some(s) ==> (s.wf() <==> predicate_well_typed(predicate.ty@, attribute_types(*tuple))) && s.model() == (StackModel {
                idx,
                ty_id: predicate.tuple.ty_id,
                ty: predicate.ty@,
                local: local_part(predicate.tuple.constraints@),
                global: global_part(predicate.tuple.constraints@),
                timing: event_timing(predicate.ty@)->0,
                types: attribute_types(*tuple),
                events: Seq::empty(),
            }),
    {
        let timing = match &predicate.ty {
            PredicateType::Event { timing, .. } => *timing,
            PredicateType::EventAggregate { timing, .. } => *timing,
            PredicateType::EventNegation { timing } => *timing,
            _ => return None,
        };
        let constraints = &predicate.tuple.constraints;
        let mut local_exprs: Vec<Expression> = Vec::new();
        let mut global_exprs: Vec<Expression> = Vec::new();
        let mut i: usize = 0;
        proof {
            assert(constraints@.subrange(0, 0) =~= Seq::<Expression>::empty());
        }
        while i < constraints.len()
            invariant
                i <= constraints@.len(),
                local_exprs@ == local_part(constraints@.subrange(0, i as int)),
                global_exprs@ == global_part(constraints@.subrange(0, i as int)),
            decreases constraints@.len() - i,
        {
            proof {
                let pre = constraints@.subrange(0, i + 1);
                assert(pre.drop_last() =~= constraints@.subrange(0, i as int));
                assert(pre.last() == constraints@[i as int]);
            }
            if constraints[i].is_local() {
                local_exprs.push(constraints[i].clone());
            } else {
                global_exprs.push(constraints[i].clone());
            }
            i = i + 1;
        }
        proof {
            assert(constraints@.subrange(0, constraints@.len() as int) =~= constraints@);
        }
        let s = Stack {
            idx,
            tuple: tuple.clone(),
            predicate: predicate.clone(),
            local_exprs,
            global_exprs,
            timing,
            events: Vec::new(),
        };
        proof {
            assert(events_view(s.events@) =~= Seq::<SpecEvent>::empty());
        }
        Some(s)
    }

    /// Whether an event satisfies the type and the local constraints.
    fn is_locally_satisfied(&self, event: &Event) -> (r: Option<bool>)
        ensures
            r == locally_satisfied(self.model(), event@),
    {
        if event.tuple.ty_id != self.predicate.tuple.ty_id {
            Some(false)
        } else {
            let context = SimpleContext::new(&event.tuple);
            all_satisfied(&context, &self.local_exprs)
        }
    }

    /// Keeps `event` when it satisfies the type and the local constraints of
    /// the predicate. Events must come in chronological order. Gives `false`
    /// when a local constraint cannot be evaluated.
    pub fn process(&mut self, event: &Event) -> (ok: bool)
        requires
            old(self).wf(),
            forall|i: int| 0 <= i < old(self).model().events.len() ==> #[trigger] old(self).model().events[i].time <= event.time,
        ensures
            final(self).wf(),
            ok == (locally_satisfied(old(self).model(), event@) is Some),
            final(self).model() == (if locally_satisfied(old(self).model(), event@) == Some(true) {
                with_events(old(self).model(), old(self).model().events.push(event@))
            } else {
                old(self).model()
            }),
    {
        match self.is_locally_satisfied(event) {
            Some(true) => {
                let ghost before = self.events@;
                self.events.push(event.clone());
                proof {
                    assert(events_view(self.events@) =~= events_view(before).push(event@));
                    let s = events_view(self.events@);
                    assert forall|i: int, j: int| 0 <= i <= j < s.len() implies #[trigger] s[i].time
                        <= #[trigger] s[j].time by {
                        if j == s.len() - 1 {
                            if i < j {
                                assert(s[i] == events_view(before)[i]);
                            }
                        } else {
                            assert(s[i] == events_view(before)[i]);
                            assert(s[j] == events_view(before)[j]);
                        }
                    }
                }
                true
            },
            Some(false) => true,
            None => false,
        }
    }
}


/// The model of an optional partial result.
pub open spec fn opt_result_view(o: Option<PartialResult>) -> Option<SpecResult> {
    match o {
        Some(r) => Some(r@),
        None => None,
    }
}

/// Once binding a prefix of the parameters fails, binding them all fails.
proof fn lemma_bind_params_none(ps: Seq<ParameterDeclaration>, k: int, idx: usize, res: SpecResult, data: Seq<SpecValue>)
    requires
        0 <= k <= ps.len(),
        bind_params(ps.subrange(0, k), idx, res, data) is None,
    ensures
        bind_params(ps, idx, res, data) is None,
    decreases ps.len() - k,
{
    if k < ps.len() {
        assert(ps.subrange(0, k + 1).drop_last() =~= ps.subrange(0, k));
        lemma_bind_params_none(ps, k + 1, idx, res, data);
    } else {
        assert(ps.subrange(0, k) =~= ps);
    }
}

/// Once selecting over a prefix of the window fails, selecting over all of
/// it fails.
proof fn lemma_select_each_none(ps: Seq<ParameterDeclaration>, g: Seq<Expression>, idx: usize, res: SpecResult, w: Seq<SpecEvent>, k: int)
    requires
        0 <= k <= w.len(),
        select_each(ps, g, idx, res, w.subrange(0, k)) is None,
    ensures
        select_each(ps, g, idx, res, w) is None,
    decreases w.len() - k,
{
    if k < w.len() {
        assert(w.subrange(0, k + 1).drop_last() =~= w.subrange(0, k));
        lemma_select_each_none(ps, g, idx, res, w, k + 1);
    } else {
        assert(w.subrange(0, k) =~= w);
    }
}

/// Once filtering a prefix of the window fails, filtering all of it fails.
proof fn lemma_filter_global_none(g: Seq<Expression>, params: Map<(usize, usize), SpecValue>, w: Seq<SpecEvent>, k: int)
    requires
        0 <= k <= w.len(),
        filter_global(g, params, w.subrange(0, k)) is None,
    ensures
        filter_global(g, params, w) is None,
    decreases w.len() - k,
{
    if k < w.len() {
        assert(w.subrange(0, k + 1).drop_last() =~= w.subrange(0, k));
        lemma_filter_global_none(g, params, w, k + 1);
    } else {
        assert(w.subrange(0, k) =~= w);
    }
}

impl Stack {
    /// Binds the parameters declared by the predicate against an event.
    fn bind_parameters(&self, ps: &Vec<ParameterDeclaration>, result: &PartialResult, evt: &Event) -> (r: Option<PartialResult>)
        ensures
            opt_result_view(r) == bind_params(ps@, self.model().idx, result@, evt@.data),
    {
        let mut res = result.clone();
        let mut i: usize = 0;
        proof {
            assert(ps@.subrange(0, 0) =~= Seq::<ParameterDeclaration>::empty());
        }
        while i < ps.len()
            invariant
                i <= ps@.len(),
                bind_params(ps@.subrange(0, i as int), self.model().idx, result@, evt@.data) == Some(res@),
            decreases ps@.len() - i,
        {
            proof {
                let pre = ps@.subrange(0, i + 1);
                assert(pre.drop_last() =~= ps@.subrange(0, i as int));
                assert(pre.last() == ps@[i as int]);
            }
            let val = {
                let context = CompleteContext::new(&res, CurrentValue::Tuple(&evt.tuple));
                evaluate_expression(&context, &ps[i].expression)
            };
            match val {
                Some(v) => {
                    res = res.insert_parameter((self.idx, i), v);
                },
                None => {
                    proof {
                        lemma_bind_params_none(ps@, i + 1, self.model().idx, result@, evt@.data);
                    }
                    return None;
                },
            }
            i = i + 1;
        }
        proof {
            assert(ps@.subrange(0, ps@.len() as int) =~= ps@);
        }
        Some(res)
    }

    /// What an event gives: the extended result when the global constraints
    /// hold.
    fn candidate(&self, ps: &Vec<ParameterDeclaration>, result: &PartialResult, evt: &Event) -> (r: Option<Option<PartialResult>>)
        ensures
            match r {
                Some(o) => candidate(ps@, self.model().global, self.model().idx, result@, evt@) == Some(opt_result_view(o)),
                None => candidate(ps@, self.model().global, self.model().idx, result@, evt@) is None,
            },
    {
        match self.bind_parameters(ps, result, evt) {
            Some(res) => {
                let holds = {
                    let context = CompleteContext::new(&res, CurrentValue::Tuple(&evt.tuple));
                    all_satisfied(&context, &self.global_exprs)
                };
                match holds {
                    Some(true) => Some(Some(res.insert_event(self.idx, evt.clone()))),
                    Some(false) => Some(None),
                    None => None,
                }
            },
            None => None,
        }
    }

    /// The window of events between `lo` and `hi`.
    pub closed spec fn window(&self, lo: int, hi: int) -> Seq<SpecEvent> {
        events_view(self.events@).subrange(lo, hi)
    }

    /// The results of every event of the window.
    fn select_each(&self, ps: &Vec<ParameterDeclaration>, result: &PartialResult, lo: usize, hi: usize) -> (r: Option<Vec<PartialResult>>)
        requires
            lo <= hi <= self.model().events.len(),
        ensures
            match r {
                Some(v) => select_each(ps@, self.model().global, self.model().idx, result@, self.window(lo as int, hi as int)) == Some(results_view(v@)),
                None => select_each(ps@, self.model().global, self.model().idx, result@, self.window(lo as int, hi as int)) is None,
            },
    {
        let ghost w = self.window(lo as int, hi as int);
        let mut out: Vec<PartialResult> = Vec::new();
        let mut k: usize = lo;
        proof {
            assert(w.subrange(0, 0) =~= Seq::<SpecEvent>::empty());
            assert(results_view(out@) =~= Seq::<SpecResult>::empty());
        }
        while k < hi
            invariant
                lo <= k <= hi <= self.model().events.len(),
                w == self.window(lo as int, hi as int),
                select_each(ps@, self.model().global, self.model().idx, result@, w.subrange(0, k - lo)) == Some(results_view(out@)),
            decreases hi - k,
        {
            proof {
                let pre = w.subrange(0, k - lo + 1);
                assert(pre.drop_last() =~= w.subrange(0, k - lo));
                assert(pre.last() == self.events@[k as int]@);
            }
            match self.candidate(ps, result, &self.events[k]) {
                Some(Some(r)) => {
                    let ghost before = out@;
                    out.push(r);
                    proof {
                        assert(results_view(out@) =~= results_view(before).push(r@));
                    }
                },
                Some(None) => {},
                None => {
                    proof {
                        lemma_select_each_none(ps@, self.model().global, self.model().idx, result@, w, k - lo + 1);
                    }
                    return None;
                },
            }
            k = k + 1;
        }
        proof {
            assert(w.subrange(0, k - lo) =~= w);
        }
        Some(out)
    }

    /// The result of the earliest event of the window that gives one.
    fn select_first(&self, ps: &Vec<ParameterDeclaration>, result: &PartialResult, lo: usize, hi: usize) -> (r: Option<Vec<PartialResult>>)
        requires
            lo <= hi <= self.model().events.len(),
        ensures
            match r {
                Some(v) => select_first(ps@, self.model().global, self.model().idx, result@, self.window(lo as int, hi as int)) == Some(results_view(v@)),
                None => select_first(ps@, self.model().global, self.model().idx, result@, self.window(lo as int, hi as int)) is None,
            },
    {
        let ghost w = self.window(lo as int, hi as int);
        let mut k: usize = lo;
        proof {
            assert(w.subrange(0, w.len() as int) =~= w);
        }
        while k < hi
            invariant
                lo <= k <= hi <= self.model().events.len(),
                w == self.window(lo as int, hi as int),
                select_first(ps@, self.model().global, self.model().idx, result@, w) == select_first(ps@, self.model().global, self.model().idx, result@, w.subrange(k - lo, w.len() as int)),
            decreases hi - k,
        {
            proof {
                let suf = w.subrange(k - lo, w.len() as int);
                assert(suf.drop_first() =~= w.subrange(k - lo + 1, w.len() as int));
                assert(suf[0] == self.events@[k as int]@);
            }
            match self.candidate(ps, result, &self.events[k]) {
                Some(Some(r)) => {
                    let mut out: Vec<PartialResult> = Vec::new();
                    out.push(r);
                    proof {
                        assert(results_view(out@) =~= seq![r@]);
                    }
                    return Some(out);
                },
                Some(None) => {},
                None => {
                    return None;
                },
            }
            k = k + 1;
        }
        let out: Vec<PartialResult> = Vec::new();
        proof {
            assert(w.subrange(k - lo, w.len() as int) =~= Seq::<SpecEvent>::empty());
            assert(results_view(out@) =~= Seq::<SpecResult>::empty());
        }
        Some(out)
    }

    /// The result of the latest event of the window that gives one.
    fn select_last(&self, ps: &Vec<ParameterDeclaration>, result: &PartialResult, lo: usize, hi: usize) -> (r: Option<Vec<PartialResult>>)
        requires
            lo <= hi <= self.model().events.len(),
        ensures
            match r {
                Some(v) => select_last(ps@, self.model().global, self.model().idx, result@, self.window(lo as int, hi as int)) == Some(results_view(v@)),
                None => select_last(ps@, self.model().global, self.model().idx, result@, self.window(lo as int, hi as int)) is None,
            },
    {
        let ghost w = self.window(lo as int, hi as int);
        let mut k: usize = hi;
        proof {
            assert(w.subrange(0, w.len() as int) =~= w);
        }
        while k > lo
            invariant
                lo <= k <= hi <= self.model().events.len(),
                w == self.window(lo as int, hi as int),
                select_last(ps@, self.model().global, self.model().idx, result@, w) == select_last(ps@, self.model().global, self.model().idx, result@, w.subrange(0, k - lo)),
            decreases k - lo,
        {
            proof {
                let pre = w.subrange(0, k - lo);
                assert(pre.drop_last() =~= w.subrange(0, k - lo - 1));
                assert(pre.last() == self.events@[k - 1]@);
            }
            match self.candidate(ps, result, &self.events[k - 1]) {
                Some(Some(r)) => {
                    let mut out: Vec<PartialResult> = Vec::new();
                    out.push(r);
                    proof {
                        assert(results_view(out@) =~= seq![r@]);
                    }
                    return Some(out);
                },
                Some(None) => {},
                None => {
                    return None;
                },
            }
            k = k - 1;
        }
        let out: Vec<PartialResult> = Vec::new();
        proof {
            assert(w.subrange(0, 0) =~= Seq::<SpecEvent>::empty());
            assert(results_view(out@) =~= Seq::<SpecResult>::empty());
        }
        Some(out)
    }

    /// The events of the window that satisfy the global constraints.
    fn filter_global(&self, result: &PartialResult, lo: usize, hi: usize) -> (r: Option<Vec<Event>>)
        requires
            lo <= hi <= self.model().events.len(),
        ensures
            match r {
                Some(v) => filter_global(self.model().global, result@.params, self.window(lo as int, hi as int)) == Some(events_view(v@)),
                None => filter_global(self.model().global, result@.params, self.window(lo as int, hi as int)) is None,
            },
    {
        let ghost w = self.window(lo as int, hi as int);
        let mut out: Vec<Event> = Vec::new();
        let mut k: usize = lo;
        proof {
            assert(w.subrange(0, 0) =~= Seq::<SpecEvent>::empty());
            assert(events_view(out@) =~= Seq::<SpecEvent>::empty());
        }
        while k < hi
            invariant
                lo <= k <= hi <= self.model().events.len(),
                w == self.window(lo as int, hi as int),
                filter_global(self.model().global, result@.params, w.subrange(0, k - lo)) == Some(events_view(out@)),
            decreases hi - k,
        {
            proof {
                let pre = w.subrange(0, k - lo + 1);
                assert(pre.drop_last() =~= w.subrange(0, k - lo));
                assert(pre.last() == self.events@[k as int]@);
            }
            let holds = {
                let context = CompleteContext::new(result, CurrentValue::Tuple(&self.events[k].tuple));
                all_satisfied(&context, &self.global_exprs)
            };
            match holds {
                Some(true) => {
                    let ghost before = out@;
                    let e = self.events[k].clone();
                    out.push(e);
                    proof {
                        assert(events_view(out@) =~= events_view(before).push(self.events@[k as int]@));
                    }
                },
                Some(false) => {},
                None => {
                    proof {
                        lemma_filter_global_none(self.model().global, result@.params, w, k - lo + 1);
                    }
                    return None;
                },
            }
            k = k + 1;
        }
        proof {
            assert(w.subrange(0, k - lo) =~= w);
        }
        Some(out)
    }

    /// Whether some event of the window satisfies the global constraints.
    fn any_global(&self, result: &PartialResult, lo: usize, hi: usize) -> (r: Option<bool>)
        requires
            lo <= hi <= self.model().events.len(),
        ensures
            r == any_global(self.model().global, result@.params, self.window(lo as int, hi as int)),
    {
        let ghost w = self.window(lo as int, hi as int);
        let mut k: usize = lo;
        proof {
            assert(w.subrange(0, w.len() as int) =~= w);
        }
        while k < hi
            invariant
                lo <= k <= hi <= self.model().events.len(),
                w == self.window(lo as int, hi as int),
                any_global(self.model().global, result@.params, w) == any_global(self.model().global, result@.params, w.subrange(k - lo, w.len() as int)),
            decreases hi - k,
        {
            proof {
                let suf = w.subrange(k - lo, w.len() as int);
                assert(suf.drop_first() =~= w.subrange(k - lo + 1, w.len() as int));
                assert(suf[0] == self.events@[k as int]@);
            }
            let holds = {
                let context = CompleteContext::new(result, CurrentValue::Tuple(&self.events[k].tuple));
                all_satisfied(&context, &self.global_exprs)
            };
            match holds {
                Some(true) => return Some(true),
                Some(false) => {},
                None => return None,
            }
            k = k + 1;
        }
        proof {
            assert(w.subrange(k - lo, w.len() as int) =~= Seq::<SpecEvent>::empty());
        }
        Some(false)
    }

    /// Evaluates the predicate against a partial result: the results it
    /// extends to with the events of its time window, or `None` when the
    /// evaluation fails.
    pub fn evaluate(&self, result: &PartialResult) -> (r: Option<Vec<PartialResult>>)
        requires
            self.wf(),
        ensures
            match r {
                Some(v) => stack_evaluate(self.model(), result@) == Some(results_view(v@)),
                None => stack_evaluate(self.model(), result@) is None,
            },
    {
        let upper_time = match result.find_time(self.timing.upper) {
            Some(t) => t,
            None => return None,
        };
        let lower_time = match self.timing.bound {
            TimingBound::Within { window } => match upper_time.checked_sub(window) {
                Some(t) => t,
                None => return None,
            },
            TimingBound::Between { lower } => match result.find_time(lower) {
                Some(t) => t,
                None => return None,
            },
        };
        let hi = partition_point(&self.events, upper_time);
        let lo = partition_point(&self.events, lower_time);
        if lo > hi {
            return None;
        }
        proof {
            lemma_first_not_before(events_view(self.events@), upper_time as int);
            assert(window_of(self.model(), result@) == Some(self.window(lo as int, hi as int)));
        }
        match &self.predicate.ty {
            PredicateType::Event { selection, parameters, .. } => match selection {
                EventSelection::Each => self.select_each(parameters, result, lo, hi),
                EventSelection::First => self.select_first(parameters, result, lo, hi),
                EventSelection::Last => self.select_last(parameters, result, lo, hi),
            },
            PredicateType::EventAggregate { aggregator, parameter, .. } => {
                let selected = match self.filter_global(result, lo, hi) {
                    Some(v) => v,
                    None => return None,
                };
                match compute_aggregate(aggregator, &selected, &self.tuple.attributes) {
                    Some(Some(v)) => {
                        let val = {
                            let context = CompleteContext::new(result, CurrentValue::Aggr(&v));
                            evaluate_expression(&context, &parameter.expression)
                        };
                        match val {
                            Some(x) => {
                                let extended = result.clone().insert_parameter((self.idx, 0), x);
                                let mut out: Vec<PartialResult> = Vec::new();
                                out.push(extended);
                                proof {
                                    assert(results_view(out@) =~= seq![extended@]);
                                }
                                Some(out)
                            },
                            None => None,
                        }
                    },
                    Some(None) => {
                        let out: Vec<PartialResult> = Vec::new();
                        proof {
                            assert(results_view(out@) =~= Seq::<SpecResult>::empty());
                        }
                        Some(out)
                    },
                    None => None,
                }
            },
            PredicateType::EventNegation { .. } => match self.any_global(result, lo, hi) {
                Some(true) => {
                    let out: Vec<PartialResult> = Vec::new();
                    proof {
                        assert(results_view(out@) =~= Seq::<SpecResult>::empty());
                    }
                    Some(out)
                },
                Some(false) => {
                    let mut out: Vec<PartialResult> = Vec::new();
                    out.push(result.clone());
                    proof {
                        assert(results_view(out@) =~= seq![result@]);
                    }
                    Some(out)
                },
                None => None,
            },
            _ => None,
        }
    }
}


/// The time before which a stack forgets its events, given the times of the
/// predicates before it: `None` when a needed time is missing or the window
/// reaches beyond the representable times.
pub open spec fn removal_time(timing: Timing, times: Map<usize, i64>) -> Option<int> {
    match timing.bound {
        TimingBound::Within { window } => if times.contains_key(timing.upper) && i64::MIN <= times[timing.upper] - window <= i64::MAX {
            Some(times[timing.upper] - window)
        } else {
            None
        },
        TimingBound::Between { lower } => if times.contains_key(lower) {
            Some(times[lower] as int)
        } else {
            None
        },
    }
}

/// The index of the first event equal to `e` from index `k` on.
pub open spec fn first_index_from(s: Seq<SpecEvent>, e: SpecEvent, k: int) -> Option<int>
    decreases s.len() - k,
{
    if k < 0 || k >= s.len() {
        None
    } else if s[k] == e {
        Some(k)
    } else {
        first_index_from(s, e, k + 1)
    }
}

/// The time of the first of a list of events, if any.
pub open spec fn first_time(s: Seq<SpecEvent>) -> Option<i64> {
    if s.len() > 0 {
        Some(s[0].time)
    } else {
        None
    }
}

impl Stack {
    /// Forgets the events earlier than the window can ever reach again, and
    /// gives the time of the oldest event kept (`Some(None)` when none is
    /// kept); `None` when the removal time cannot be computed.
    pub fn remove_old(&mut self, times: &HashMap<usize, i64>) -> (r: Option<Option<i64>>)
        requires
            old(self).wf(),
        ensures
            final(self).wf(),
            match removal_time(old(self).model().timing, times@) {
                Some(t) => {
                    let kept = old(self).model().events.subrange(first_not_before(old(self).model().events, t), old(self).model().events.len() as int);
                    &&& final(self).model() == with_events(old(self).model(), kept)
                    &&& r == Some(first_time(kept))
                },
                None => r is None && final(self).model() == old(self).model(),
            },
    {
        broadcast use vstd::std_specs::hash::group_hash_axioms;
        let time = match self.timing.bound {
            TimingBound::Within { window } => match times.get(&self.timing.upper) {
                Some(t) => match t.checked_sub(window) {
                    Some(x) => x,
                    None => return None,
                },
                None => return None,
            },
            TimingBound::Between { lower } => match times.get(&lower) {
                Some(t) => *t,
                None => return None,
            },
        };
        let index = partition_point(&self.events, time);
        let ghost before = events_view(self.events@);
        proof {
            lemma_first_not_before(before, time as int);
        }
        let kept = self.events.split_off(index);
        self.events = kept;
        proof {
            assert(events_view(self.events@) =~= before.subrange(index as int, before.len() as int));
            let s = events_view(self.events@);
            assert forall|i: int, j: int| 0 <= i <= j < s.len() implies #[trigger] s[i].time
                <= #[trigger] s[j].time by {
                assert(s[i] == before[i + index] && s[j] == before[j + index]);
            }
        }
        if self.events.len() > 0 {
            Some(Some(self.events[0].time))
        } else {
            Some(None)
        }
    }

    /// Removes a consumed event: the first event equal to it among those not
    /// earlier than it. Gives `false`, leaving the stack as it was, when no
    /// such event is there.
    pub fn consume(&mut self, event: &Event) -> (ok: bool)
        requires
            old(self).wf(),
        ensures
            final(self).wf(),
            ({
                let s = old(self).model().events;
                match first_index_from(s, event@, first_not_before(s, event.time as int)) {
                    Some(j) => ok && final(self).model() == with_events(old(self).model(), s.remove(j)),
                    None => !ok && final(self).model() == old(self).model(),
                }
            }),
    {
        let ghost s = events_view(self.events@);
        let start = partition_point(&self.events, event.time);
        match self.find_from(event, start) {
            Some(k) => {
                let ghost j0 = k as int;
                self.events.remove(k);
                proof {
                    assert(events_view(self.events@) =~= s.remove(j0));
                    let t = events_view(self.events@);
                    assert forall|a: int, b: int| 0 <= a <= b < t.len() implies #[trigger] t[a].time
                        <= #[trigger] t[b].time by {
                        let a0 = if a < j0 { a } else { a + 1 };
                        let b0 = if b < j0 { b } else { b + 1 };
                        assert(t[a] == s[a0] && t[b] == s[b0]);
                    }
                }
                true
            },
            None => false,
        }
    }

    /// The index of the first event equal to `event` from index `start` on.
    fn find_from(&self, event: &Event, start: usize) -> (r: Option<usize>)
        ensures
            match r {
                Some(k) => k < self.model().events.len() && first_index_from(self.model().events, event@, start as int) == Some(k as int),
                None => first_index_from(self.model().events, event@, start as int) is None,
            },
    {
        let ghost s = events_view(self.events@);
        let mut k: usize = start;
        while k < self.events.len()
            invariant
                s == events_view(self.events@),
                start <= k,
                first_index_from(s, event@, start as int) == first_index_from(s, event@, k as int),
            decreases self.events@.len() - k,
        {
            proof {
                assert(s[k as int] == self.events@[k as int]@);
            }
            if same_event(&self.events[k], event) {
                return Some(k);
            }
            k = k + 1;
        }
        None
    }
}

impl Stack {
    /// The index of the stack's predicate in its rule.
    pub fn idx(&self) -> (r: usize)
        ensures
            r == self.model().idx,
    {
        self.idx
    }
}


/// The provider of the stacks of a rule's event predicates.
#[derive(Clone, Copy, Debug)]
pub struct StackProvider;

impl StackProvider {
    /// The stack of predicate `idx` when it is an event predicate, which a
    /// stack can serve; the parameter types are not needed for that.
    pub fn provide(&self, idx: usize, tuple: &TupleDeclaration, predicate: &Predicate, parameters_ty: &LinearMap<(usize, usize), BasicType>) -> (r: Option<Stack>)
        ensures
            r is Some <==> event_timing(predicate.ty@) is Some,
            r matches Some(s) ==> (s.wf() <==> predicate_well_typed(predicate.ty@, attribute_types(*tuple))) && s.model() == (StackModel {
                idx,
                ty_id: predicate.tuple.ty_id,
                ty: predicate.ty@,
                local: local_part(predicate.tuple.constraints@),
                global: global_part(predicate.tuple.constraints@),
                timing: event_timing(predicate.ty@)->0,
                types: attribute_types(*tuple),
                events: Seq::empty(),
            }),
    {
        Stack::new(idx, tuple, predicate)
    }
}

/// A first selection gives the result of the earliest event of the window
/// that gives one, and nothing exactly when no event gives one; it fails
/// only where an evaluation fails.
pub proof fn law_select_first(ps: Seq<ParameterDeclaration>, global: Seq<Expression>, idx: usize, res: SpecResult, w: Seq<SpecEvent>)
    ensures
        (forall|j: int| 0 <= j < w.len() ==> #[trigger] candidate(ps, global, idx, res, w[j]) is Some)
            ==> select_first(ps, global, idx, res, w) is Some,
        select_first(ps, global, idx, res, w) matches Some(rs) ==> {
            &&& rs.len() <= 1
            &&& (rs.len() == 0 <==> forall|j: int| 0 <= j < w.len() ==> #[trigger] candidate(ps, global, idx, res, w[j]) == Some(None::<SpecResult>))
            &&& rs.len() == 1 ==> exists|j: int| 0 <= j < w.len() && #[trigger] candidate(ps, global, idx, res, w[j]) == Some(Some(rs[0]))
                && forall|k: int| 0 <= k < j ==> #[trigger] candidate(ps, global, idx, res, w[k]) == Some(None::<SpecResult>)
        },
    decreases w.len(),
{
    if w.len() > 0 {
        let t = w.drop_first();
        law_select_first(ps, global, idx, res, t);
        assert forall|j: int| 0 <= j < t.len() implies #[trigger] t[j] == w[j + 1] by {}
        if forall|j: int| 0 <= j < w.len() ==> #[trigger] candidate(ps, global, idx, res, w[j]) is Some {
            assert forall|j: int| 0 <= j < t.len() implies #[trigger] candidate(ps, global, idx, res, t[j]) is Some by {
                assert(candidate(ps, global, idx, res, w[j + 1]) is Some);
            }
        }
        match candidate(ps, global, idx, res, w[0]) {
            Some(Some(r)) => {
                let rs = seq![r];
                assert(rs[0] == r);
                assert(candidate(ps, global, idx, res, w[0]) == Some(Some(rs[0])));
            },
            Some(None) => {
                if let Some(rs) = select_first(ps, global, idx, res, t) {
                    if rs.len() == 0 {
                        assert forall|j: int| 0 <= j < w.len() implies #[trigger] candidate(ps, global, idx, res, w[j]) == Some(None::<SpecResult>) by {
                            if j > 0 {
                                assert(candidate(ps, global, idx, res, t[j - 1]) == Some(None::<SpecResult>));
                            }
                        }
                    } else {
                        let j = choose|j: int| 0 <= j < t.len() && #[trigger] candidate(ps, global, idx, res, t[j]) == Some(Some(rs[0]))
                            && forall|k: int| 0 <= k < j ==> #[trigger] candidate(ps, global, idx, res, t[k]) == Some(None::<SpecResult>);
                        assert(candidate(ps, global, idx, res, w[j + 1]) == Some(Some(rs[0])));
                        assert forall|k: int| 0 <= k < j + 1 implies #[trigger] candidate(ps, global, idx, res, w[k]) == Some(None::<SpecResult>) by {
                            if k > 0 {
                                assert(candidate(ps, global, idx, res, t[k - 1]) == Some(None::<SpecResult>));
                            }
                        }
                        assert(candidate(ps, global, idx, res, t[j]) == Some(Some(rs[0])));
                        assert(!(candidate(ps, global, idx, res, w[j + 1]) == Some(None::<SpecResult>)));
                    }
                }
            },
            None => {},
        }
    }
}

/// A last selection gives the result of the latest event of the window
/// that gives one, and nothing exactly when no event gives one; it fails
/// only where an evaluation fails.
pub proof fn law_select_last(ps: Seq<ParameterDeclaration>, global: Seq<Expression>, idx: usize, res: SpecResult, w: Seq<SpecEvent>)
    ensures
        (forall|j: int| 0 <= j < w.len() ==> #[trigger] candidate(ps, global, idx, res, w[j]) is Some)
            ==> select_last(ps, global, idx, res, w) is Some,
        select_last(ps, global, idx, res, w) matches Some(rs) ==> {
            &&& rs.len() <= 1
            &&& (rs.len() == 0 <==> forall|j: int| 0 <= j < w.len() ==> #[trigger] candidate(ps, global, idx, res, w[j]) == Some(None::<SpecResult>))
            &&& rs.len() == 1 ==> exists|j: int| 0 <= j < w.len() && #[trigger] candidate(ps, global, idx, res, w[j]) == Some(Some(rs[0]))
                && forall|k: int| j < k < w.len() ==> #[trigger] candidate(ps, global, idx, res, w[k]) == Some(None::<SpecResult>)
        },
    decreases w.len(),
{
    if w.len() > 0 {
        let t = w.drop_last();
        let n = w.len() - 1;
        law_select_last(ps, global, idx, res, t);
        assert forall|j: int| 0 <= j < t.len() implies #[trigger] t[j] == w[j] by {}
        assert(w.last() == w[n]);
        if forall|j: int| 0 <= j < w.len() ==> #[trigger] candidate(ps, global, idx, res, w[j]) is Some {
            assert forall|j: int| 0 <= j < t.len() implies #[trigger] candidate(ps, global, idx, res, t[j]) is Some by {
                assert(candidate(ps, global, idx, res, w[j]) is Some);
            }
            assert(candidate(ps, global, idx, res, w[n]) is Some);
        }
        match candidate(ps, global, idx, res, w[n]) {
            Some(Some(r)) => {
                let rs = seq![r];
                assert(rs[0] == r);
                assert(candidate(ps, global, idx, res, w[n]) == Some(Some(rs[0])));
            },
            Some(None) => {
                if let Some(rs) = select_last(ps, global, idx, res, t) {
                    if rs.len() == 0 {
                        assert forall|j: int| 0 <= j < w.len() implies #[trigger] candidate(ps, global, idx, res, w[j]) == Some(None::<SpecResult>) by {
                            if j < n {
                                assert(candidate(ps, global, idx, res, t[j]) == Some(None::<SpecResult>));
                            }
                        }
                    } else {
                        let j = choose|j: int| 0 <= j < t.len() && #[trigger] candidate(ps, global, idx, res, t[j]) == Some(Some(rs[0]))
                            && forall|k: int| j < k < t.len() ==> #[trigger] candidate(ps, global, idx, res, t[k]) == Some(None::<SpecResult>);
                        assert(candidate(ps, global, idx, res, w[j]) == Some(Some(rs[0])));
                        assert forall|k: int| j < k < w.len() implies #[trigger] candidate(ps, global, idx, res, w[k]) == Some(None::<SpecResult>) by {
                            if k < n {
                                assert(candidate(ps, global, idx, res, t[k]) == Some(None::<SpecResult>));
                            }
                        }
                        assert(!(candidate(ps, global, idx, res, w[j]) == Some(None::<SpecResult>)));
                    }
                }
            },
            None => {},
        }
    }
}

/// An each selection gives, in order, the result of every event of the
/// window that gives one: each result comes from an event of the window,
/// every event that gives a result gives one, and it fails only where an
/// evaluation fails.
pub proof fn law_select_each(ps: Seq<ParameterDeclaration>, global: Seq<Expression>, idx: usize, res: SpecResult, w: Seq<SpecEvent>)
    ensures
        (forall|j: int| 0 <= j < w.len() ==> #[trigger] candidate(ps, global, idx, res, w[j]) is Some)
            ==> select_each(ps, global, idx, res, w) is Some,
        select_each(ps, global, idx, res, w) matches Some(rs) ==> {
            &&& rs.len() <= w.len()
            &&& forall|k: int| 0 <= k < rs.len() ==> exists|j: int| 0 <= j < w.len() && #[trigger] candidate(ps, global, idx, res, w[j]) == Some(Some(#[trigger] rs[k]))
            &&& (forall|j: int| 0 <= j < w.len() ==> #[trigger] candidate(ps, global, idx, res, w[j]) is Some && candidate(ps, global, idx, res, w[j])->0 is Some) ==> rs.len() == w.len()
            &&& (forall|j: int| 0 <= j < w.len() ==> #[trigger] candidate(ps, global, idx, res, w[j]) == Some(None::<SpecResult>)) ==> rs.len() == 0
        },
    decreases w.len(),
{
    if w.len() > 0 {
        let t = w.drop_last();
        let n = w.len() - 1;
        law_select_each(ps, global, idx, res, t);
        assert forall|j: int| 0 <= j < t.len() implies #[trigger] t[j] == w[j] by {}
        assert(w.last() == w[n]);
        if forall|j: int| 0 <= j < w.len() ==> #[trigger] candidate(ps, global, idx, res, w[j]) is Some {
            assert forall|j: int| 0 <= j < t.len() implies #[trigger] candidate(ps, global, idx, res, t[j]) is Some by {
                assert(candidate(ps, global, idx, res, w[j]) is Some);
            }
            assert(candidate(ps, global, idx, res, w[n]) is Some);
        }
        if let Some(rs) = select_each(ps, global, idx, res, w) {
            let acc = select_each(ps, global, idx, res, t)->0;
            assert forall|k: int| 0 <= k < rs.len() implies exists|j: int| 0 <= j < w.len() && #[trigger] candidate(ps, global, idx, res, w[j]) == Some(Some(#[trigger] rs[k])) by {
                if k < acc.len() {
                    assert(rs[k] == acc[k]);
                    let j = choose|j: int| 0 <= j < t.len() && #[trigger] candidate(ps, global, idx, res, t[j]) == Some(Some(#[trigger] acc[k]));
                    assert(candidate(ps, global, idx, res, w[j]) == Some(Some(rs[k])));
                } else {
                    assert(candidate(ps, global, idx, res, w[n]) == Some(Some(rs[k])));
                }
            }
            if forall|j: int| 0 <= j < w.len() ==> #[trigger] candidate(ps, global, idx, res, w[j]) is Some && candidate(ps, global, idx, res, w[j])->0 is Some {
                assert forall|j: int| 0 <= j < t.len() implies #[trigger] candidate(ps, global, idx, res, t[j]) is Some && candidate(ps, global, idx, res, t[j])->0 is Some by {
                    assert(candidate(ps, global, idx, res, w[j]) is Some);
                }
                assert(candidate(ps, global, idx, res, w[n]) is Some);
            }
            if forall|j: int| 0 <= j < w.len() ==> #[trigger] candidate(ps, global, idx, res, w[j]) == Some(None::<SpecResult>) {
                assert forall|j: int| 0 <= j < t.len() implies #[trigger] candidate(ps, global, idx, res, t[j]) == Some(None::<SpecResult>) by {
                    assert(candidate(ps, global, idx, res, w[j]) == Some(None::<SpecResult>));
                }
                assert(candidate(ps, global, idx, res, w[n]) == Some(None::<SpecResult>));
            }
        }
    }
}

} // verus!
