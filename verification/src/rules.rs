//! The evaluation of a rule: its trigger, the stacks of its other
//! predicates, its filters and the events it emits.

use vstd::prelude::*;
use std::collections::HashMap;
use crate::evaluation::{CompleteContext, CurrentValue, EvalEnv, EvaluationContext, all_hold, all_satisfied, eval, evaluate_expression};
use crate::expressions::{Expression, SpecValue, Value};
use crate::predicates::{Predicate, PredicateType, SpecPredicate, SpecPredicateType};
use crate::rule_processor::{PartialResult, SpecResult};
use crate::aggregators::events_view;
use crate::stack::{
    Stack, StackModel, candidate, first_not_before, first_time, locally_satisfied, opt_result_view,
    removal_time, results_view, stack_evaluate, with_events,
};
use crate::tuples::{Event, EventTemplate, Rule, SpecEvent, Tuple, values_view};

verus! {

/// The empty partial result.
pub open spec fn empty_result() -> SpecResult {
    SpecResult { params: Map::empty(), events: Map::empty() }
}

/// What the trigger predicate makes of an event: the initial partial result
/// when the event has the trigger's type and satisfies its constraints
/// (`Some(None)` otherwise), `None` when an evaluation fails or the
/// predicate is not a trigger.
pub open spec fn trigger_evaluate(p: SpecPredicate, e: SpecEvent) -> Option<Option<SpecResult>> {
    if e.ty_id != p.ty_id {
        Some(None)
    } else {
        match p.ty {
            SpecPredicateType::Trigger { parameters } => candidate(parameters, p.constraints, 0, empty_result(), e),
            _ => None,
        }
    }
}

/// The first predicate of a rule, which starts its evaluation.
#[derive(Debug)]
pub struct Trigger {
    predicate: Predicate,
}

impl Trigger {
    /// The trigger's predicate.
    pub closed spec fn predicate_model(&self) -> SpecPredicate {
        self.predicate@
    }

    pub fn new(predicate: &Predicate) -> (r: Self)
        ensures
            r.predicate_model() == predicate@,
    {
        Trigger { predicate: predicate.clone() }
    }

    /// The initial partial result an event gives, if any.
    pub fn evaluate(&self, event: &Event) -> (r: Option<Option<PartialResult>>)
        ensures
            match r {
                Some(o) => trigger_evaluate(self.predicate_model(), event@) == Some(opt_result_view(o)),
                None => trigger_evaluate(self.predicate_model(), event@) is None,
            },
    {
        if event.tuple.ty_id != self.predicate.tuple.ty_id {
            return Some(None);
        }
        let parameters = match &self.predicate.ty {
            PredicateType::Trigger { parameters } => parameters,
            _ => return None,
        };
        let mut res = PartialResult::new();
        let mut i: usize = 0;
        let ghost ps = parameters@;
        proof {
            assert(ps.subrange(0, 0) =~= Seq::<crate::predicates::ParameterDeclaration>::empty());
        }
        while i < parameters.len()
            invariant
                ps == parameters@,
                self.predicate_model().ty == (SpecPredicateType::Trigger { parameters: ps }),
                event@.ty_id == self.predicate_model().ty_id,
                i <= ps.len(),
                crate::stack::bind_params(ps.subrange(0, i as int), 0, empty_result(), event@.data) == Some(res@),
            decreases ps.len() - i,
        {
            proof {
                let pre = ps.subrange(0, i + 1);
                assert(pre.drop_last() =~= ps.subrange(0, i as int));
                assert(pre.last() == ps[i as int]);
            }
            let val = {
                let context = CompleteContext::new(&res, CurrentValue::Tuple(&event.tuple));
                evaluate_expression(&context, &parameters[i].expression)
            };
            match val {
                Some(v) => {
                    res = res.insert_parameter((0, i), v);
                },
                None => {
                    proof {
                        lemma_bind_none(ps, i + 1, event@.data);
                        assert(crate::stack::bind_params(ps, 0, empty_result(), event@.data) is None);
                        assert(candidate(ps, self.predicate_model().constraints, 0, empty_result(), event@) is None);
                    }
                    return None;
                },
            }
            i = i + 1;
        }
        proof {
            assert(ps.subrange(0, ps.len() as int) =~= ps);
        }
        let holds = {
            let context = CompleteContext::new(&res, CurrentValue::Tuple(&event.tuple));
            all_satisfied(&context, &self.predicate.tuple.constraints)
        };
        match holds {
            Some(true) => Some(Some(res.insert_event(0, event.clone()))),
            Some(false) => Some(None),
            None => None,
        }
    }
}

/// Once binding a prefix of the trigger's parameters fails, binding them
/// all fails.
proof fn lemma_bind_none(ps: Seq<crate::predicates::ParameterDeclaration>, k: int, data: Seq<SpecValue>)
    requires
        0 <= k <= ps.len(),
        crate::stack::bind_params(ps.subrange(0, k), 0, empty_result(), data) is None,
    ensures
        crate::stack::bind_params(ps, 0, empty_result(), data) is None,
    decreases ps.len() - k,
{
    if k < ps.len() {
        assert(ps.subrange(0, k + 1).drop_last() =~= ps.subrange(0, k));
        lemma_bind_none(ps, k + 1, data);
    } else {
        assert(ps.subrange(0, k) =~= ps);
    }
}


/// The stacks after an event went through them: each keeps the event when
/// it satisfies its local constraints; `None` when one fails to evaluate.
pub open spec fn process_stacks(ms: Seq<StackModel>, e: SpecEvent) -> Option<Seq<StackModel>>
    decreases ms.len(),
{
    if ms.len() == 0 {
        Some(Seq::empty())
    } else {
        match process_stacks(ms.drop_last(), e) {
            Some(done) => {
                let m = ms.last();
                match locally_satisfied(m, e) {
                    Some(true) => Some(done.push(with_events(m, m.events.push(e)))),
                    Some(false) => Some(done.push(m)),
                    None => None,
                }
            },
            None => None,
        }
    }
}

/// The stacks after forgetting old events, in order, each bounded by the
/// times of the predicates before it (the trigger's time for predicate 0,
/// and for a stack the time of its oldest event kept, or the trigger's time
/// when it keeps none), and the times collected.
pub open spec fn removal_prefix(ms: Seq<StackModel>, tt: i64) -> Option<(Seq<StackModel>, Map<usize, i64>)>
    decreases ms.len(),
{
    if ms.len() == 0 {
        Some((Seq::empty(), Map::empty().insert(0usize, tt)))
    } else {
        match removal_prefix(ms.drop_last(), tt) {
            Some((done, times)) => {
                let m = ms.last();
                match removal_time(m.timing, times) {
                    Some(t) => {
                        let kept = m.events.subrange(first_not_before(m.events, t), m.events.len() as int);
                        let time = match first_time(kept) {
                            Some(x) => x,
                            None => tt,
                        };
                        Some((done.push(with_events(m, kept)), times.insert(m.idx, time)))
                    },
                    None => None,
                }
            },
            None => None,
        }
    }
}

/// The results a stack extends a list of partial results to, in order.
pub open spec fn eval_all(m: StackModel, rs: Seq<SpecResult>) -> Option<Seq<SpecResult>>
    decreases rs.len(),
{
    if rs.len() == 0 {
        Some(Seq::empty())
    } else {
        match eval_all(m, rs.drop_last()) {
            Some(acc) => match stack_evaluate(m, rs.last()) {
                Some(more) => Some(acc + more),
                None => None,
            },
            None => None,
        }
    }
}

/// The results of passing the initial results through every stack in turn.
pub open spec fn chain(ms: Seq<StackModel>, rs: Seq<SpecResult>) -> Option<Seq<SpecResult>>
    decreases ms.len(),
{
    if ms.len() == 0 {
        Some(rs)
    } else {
        match chain(ms.drop_last(), rs) {
            Some(x) => eval_all(ms.last(), x),
            None => None,
        }
    }
}

/// The environment of a complete result: its parameters only.
pub open spec fn result_env(r: SpecResult) -> EvalEnv {
    EvalEnv { attrs: None, aggr: None, params: Some(r.params) }
}

/// The values of a list of expressions, `None` when one fails.
pub open spec fn eval_list(v: Seq<Expression>, env: EvalEnv) -> Option<Seq<SpecValue>>
    decreases v.len(),
{
    if v.len() == 0 {
        Some(Seq::empty())
    } else {
        match eval_list(v.drop_last(), env) {
            Some(acc) => match eval(v.last(), env) {
                Some(x) => Some(acc.push(x)),
                None => None,
            },
            None => None,
        }
    }
}

/// The events emitted for the complete results that satisfy the filters:
/// the template's type, its expressions' values, and the time of the
/// triggering event.
pub open spec fn emit(filters: Seq<Expression>, ty: usize, template: Seq<Expression>, time: i64, rs: Seq<SpecResult>) -> Option<Seq<SpecEvent>>
    decreases rs.len(),
{
    if rs.len() == 0 {
        Some(Seq::empty())
    } else {
        match emit(filters, ty, template, time, rs.drop_last()) {
            Some(acc) => match all_hold(filters, result_env(rs.last())) {
                Some(true) => match eval_list(template, result_env(rs.last())) {
                    Some(data) => Some(acc.push(SpecEvent { ty_id: ty, data, time })),
                    None => None,
                },
                Some(false) => Some(acc),
                None => None,
            },
            None => None,
        }
    }
}

/// The model of a rule under evaluation.
pub struct RuleModel {
    pub trigger: SpecPredicate,
    pub stacks: Seq<StackModel>,
    pub filters: Seq<Expression>,
    pub template_ty: usize,
    pub template: Seq<Expression>,
    pub types: Seq<usize>,
}

/// The tuple types of a list of predicates, in order.
pub open spec fn pred_ty_ids(v: Seq<Predicate>) -> Seq<usize> {
    v.map_values(|p: Predicate| p.tuple.ty_id)
}

/// What processing an event does to a rule: the new state and the events
/// emitted, or `None` when an evaluation fails.
pub open spec fn rule_process(m: RuleModel, e: SpecEvent) -> Option<(RuleModel, Seq<SpecEvent>)> {
    match process_stacks(m.stacks, e) {
        Some(ms1) => match trigger_evaluate(m.trigger, e) {
            Some(None) => Some((RuleModel { stacks: ms1, ..m }, Seq::empty())),
            Some(Some(init)) => match removal_prefix(ms1, e.time) {
                Some((ms2, _)) => match chain(ms2, seq![init]) {
                    Some(rs) => match emit(m.filters, m.template_ty, m.template, e.time, rs) {
                        Some(evs) => Some((RuleModel { stacks: ms2, ..m }, evs)),
                        None => None,
                    },
                    None => None,
                },
                None => None,
            },
            None => None,
        },
        None => None,
    }
}

/// Whether an event at time `t` comes in chronological order for a rule:
/// no event its stacks hold is later.
pub open spec fn in_order(m: RuleModel, t: i64) -> bool {
    forall|k: int, i: int| 0 <= k < m.stacks.len() && 0 <= i < m.stacks[k].events.len() ==> #[trigger] m.stacks[k].events[i].time <= t
}

/// The models of a list of stacks.
pub open spec fn stack_models(v: Seq<Stack>) -> Seq<StackModel> {
    v.map_values(|s: Stack| s.model())
}

/// A rule with its trigger and the stacks of its other predicates.
#[derive(Debug)]
pub struct RuleStacks {
    trigger: Trigger,
    processors: Vec<Stack>,
    rule: Rule,
}

impl RuleStacks {
    /// The model of the rule under evaluation.
    pub closed spec fn model(&self) -> RuleModel {
        RuleModel {
            trigger: self.trigger.predicate_model(),
            stacks: stack_models(self.processors@),
            filters: self.rule.filters@,
            template_ty: self.rule.event_template.ty_id,
            template: self.rule.event_template.attributes@,
            types: pred_ty_ids(self.rule.predicates@),
        }
    }

    /// The invariant: every stack keeps its events in chronological order.
    pub closed spec fn wf(&self) -> bool {
        forall|k: int| 0 <= k < self.processors@.len() ==> #[trigger] self.processors@[k].wf()
    }

    pub fn new(trigger: Trigger, processors: Vec<Stack>, rule: Rule) -> (r: Self)
        requires
            forall|k: int| 0 <= k < processors@.len() ==> #[trigger] processors@[k].wf(),
        ensures
            r.wf(),
            r.model() == (RuleModel {
                trigger: trigger.predicate_model(),
                stacks: stack_models(processors@),
                filters: rule.filters@,
                template_ty: rule.event_template.ty_id,
                template: rule.event_template.attributes@,
                types: pred_ty_ids(rule.predicates@),
            }),
    {
        RuleStacks { trigger, processors, rule }
    }

    /// The tuple types of the rule's predicates, in order.
    pub fn predicate_types(&self) -> (r: Vec<usize>)
        ensures
            r@ == self.model().types,
    {
        let mut r: Vec<usize> = Vec::new();
        let mut i: usize = 0;
        while i < self.rule.predicates.len()
            invariant
                i <= self.rule.predicates@.len(),
                r@ == pred_ty_ids(self.rule.predicates@).subrange(0, i as int),
            decreases self.rule.predicates@.len() - i,
        {
            r.push(self.rule.predicates[i].tuple.ty_id);
            proof {
                assert(pred_ty_ids(self.rule.predicates@).subrange(0, i + 1) =~= pred_ty_ids(self.rule.predicates@).subrange(0, i as int).push(self.rule.predicates@[i as int].tuple.ty_id));
            }
            i = i + 1;
        }
        proof {
            assert(pred_ty_ids(self.rule.predicates@).subrange(0, i as int) =~= pred_ty_ids(self.rule.predicates@));
        }
        r
    }
}


/// Once processing a prefix of the stacks fails, processing them all fails.
proof fn lemma_process_none(ms: Seq<StackModel>, k: int, e: SpecEvent)
    requires
        0 <= k <= ms.len(),
        process_stacks(ms.subrange(0, k), e) is None,
    ensures
        process_stacks(ms, e) is None,
    decreases ms.len() - k,
{
    if k < ms.len() {
        assert(ms.subrange(0, k + 1).drop_last() =~= ms.subrange(0, k));
        lemma_process_none(ms, k + 1, e);
    } else {
        assert(ms.subrange(0, k) =~= ms);
    }
}

/// Once forgetting old events fails on a prefix of the stacks, it fails on
/// them all.
proof fn lemma_removal_none(ms: Seq<StackModel>, k: int, tt: i64)
    requires
        0 <= k <= ms.len(),
        removal_prefix(ms.subrange(0, k), tt) is None,
    ensures
        removal_prefix(ms, tt) is None,
    decreases ms.len() - k,
{
    if k < ms.len() {
        assert(ms.subrange(0, k + 1).drop_last() =~= ms.subrange(0, k));
        lemma_removal_none(ms, k + 1, tt);
    } else {
        assert(ms.subrange(0, k) =~= ms);
    }
}

/// Once extending a prefix of the results fails, extending them all fails.
proof fn lemma_eval_all_none(m: StackModel, rs: Seq<SpecResult>, k: int)
    requires
        0 <= k <= rs.len(),
        eval_all(m, rs.subrange(0, k)) is None,
    ensures
        eval_all(m, rs) is None,
    decreases rs.len() - k,
{
    if k < rs.len() {
        assert(rs.subrange(0, k + 1).drop_last() =~= rs.subrange(0, k));
        lemma_eval_all_none(m, rs, k + 1);
    } else {
        assert(rs.subrange(0, k) =~= rs);
    }
}

/// Once chaining through a prefix of the stacks fails, chaining through
/// them all fails.
proof fn lemma_chain_none(ms: Seq<StackModel>, rs: Seq<SpecResult>, k: int)
    requires
        0 <= k <= ms.len(),
        chain(ms.subrange(0, k), rs) is None,
    ensures
        chain(ms, rs) is None,
    decreases ms.len() - k,
{
    if k < ms.len() {
        assert(ms.subrange(0, k + 1).drop_last() =~= ms.subrange(0, k));
        lemma_chain_none(ms, rs, k + 1);
    } else {
        assert(ms.subrange(0, k) =~= ms);
    }
}

/// Once emitting for a prefix of the results fails, emitting for them all
/// fails.
proof fn lemma_emit_none(filters: Seq<Expression>, ty: usize, template: Seq<Expression>, time: i64, rs: Seq<SpecResult>, k: int)
    requires
        0 <= k <= rs.len(),
        emit(filters, ty, template, time, rs.subrange(0, k)) is None,
    ensures
        emit(filters, ty, template, time, rs) is None,
    decreases rs.len() - k,
{
    if k < rs.len() {
        assert(rs.subrange(0, k + 1).drop_last() =~= rs.subrange(0, k));
        lemma_emit_none(filters, ty, template, time, rs, k + 1);
    } else {
        assert(rs.subrange(0, k) =~= rs);
    }
}

/// Once evaluating a prefix of a list of expressions fails, evaluating the
/// whole list fails.
proof fn lemma_eval_list_none(v: Seq<Expression>, env: EvalEnv, k: int)
    requires
        0 <= k <= v.len(),
        eval_list(v.subrange(0, k), env) is None,
    ensures
        eval_list(v, env) is None,
    decreases v.len() - k,
{
    if k < v.len() {
        assert(v.subrange(0, k + 1).drop_last() =~= v.subrange(0, k));
        lemma_eval_list_none(v, env, k + 1);
    } else {
        assert(v.subrange(0, k) =~= v);
    }
}

/// The values of a list of expressions, in order; `None` exactly where
/// [`eval_list`] fails.
pub fn evaluate_all<C: EvaluationContext>(context: &C, expressions: &Vec<Expression>) -> (r: Option<Vec<Value>>)
    ensures
        match r {
            Some(v) => eval_list(expressions@, context.env()) == Some(values_view(v@)),
            None => eval_list(expressions@, context.env()) is None,
        },
{
    let mut out: Vec<Value> = Vec::new();
    let mut i: usize = 0;
    proof {
        assert(expressions@.subrange(0, 0) =~= Seq::<Expression>::empty());
        assert(values_view(out@) =~= Seq::<SpecValue>::empty());
    }
    while i < expressions.len()
        invariant
            i <= expressions@.len(),
            eval_list(expressions@.subrange(0, i as int), context.env()) == Some(values_view(out@)),
        decreases expressions@.len() - i,
    {
        proof {
            let pre = expressions@.subrange(0, i + 1);
            assert(pre.drop_last() =~= expressions@.subrange(0, i as int));
            assert(pre.last() == expressions@[i as int]);
        }
        match evaluate_expression(context, &expressions[i]) {
            Some(v) => {
                let ghost before = out@;
                out.push(v);
                proof {
                    assert(values_view(out@) =~= values_view(before).push(v@));
                }
            },
            None => {
                proof {
                    lemma_eval_list_none(expressions@, context.env(), i + 1);
                }
                return None;
            },
        }
        i = i + 1;
    }
    proof {
        assert(expressions@.subrange(0, expressions@.len() as int) =~= expressions@);
    }
    Some(out)
}

/// The results a stack extends a list of partial results to, in order;
/// `None` exactly where [`eval_all`] fails.
fn extend_all(stack: &Stack, results: &Vec<PartialResult>) -> (r: Option<Vec<PartialResult>>)
    requires
        stack.wf(),
    ensures
        match r {
            Some(v) => eval_all(stack.model(), results_view(results@)) == Some(results_view(v@)),
            None => eval_all(stack.model(), results_view(results@)) is None,
        },
{
    let ghost rs = results_view(results@);
    let mut out: Vec<PartialResult> = Vec::new();
    let mut j: usize = 0;
    proof {
        assert(rs.subrange(0, 0) =~= Seq::<SpecResult>::empty());
        assert(results_view(out@) =~= Seq::<SpecResult>::empty());
    }
    while j < results.len()
        invariant
            stack.wf(),
            rs == results_view(results@),
            j <= results@.len(),
            eval_all(stack.model(), rs.subrange(0, j as int)) == Some(results_view(out@)),
        decreases results@.len() - j,
    {
        proof {
            let pre = rs.subrange(0, j + 1);
            assert(pre.drop_last() =~= rs.subrange(0, j as int));
            assert(pre.last() == results@[j as int]@);
        }
        match stack.evaluate(&results[j]) {
            Some(more) => {
                let ghost before = out@;
                let mut more = more;
                let ghost added = more@;
                out.append(&mut more);
                proof {
                    assert(results_view(out@) =~= results_view(before) + results_view(added));
                }
            },
            None => {
                proof {
                    lemma_eval_all_none(stack.model(), rs, j + 1);
                }
                return None;
            },
        }
        j = j + 1;
    }
    proof {
        assert(rs.subrange(0, rs.len() as int) =~= rs);
    }
    Some(out)
}

impl RuleStacks {
    /// Passes an event to every stack in turn.
    fn process_all(&mut self, event: &Event) -> (ok: bool)
        requires
            old(self).wf(),
            in_order(old(self).model(), event.time),
        ensures
            final(self).wf(),
            final(self).trigger == old(self).trigger,
            final(self).rule == old(self).rule,
            ok == (process_stacks(old(self).model().stacks, event@) is Some),
            ok ==> process_stacks(old(self).model().stacks, event@) == Some(stack_models(final(self).processors@)),
            stacks_until(stack_models(final(self).processors@), event.time),
    {
        let ghost ms = self.model().stacks;
        let ghost start = self.processors@;
        let mut i: usize = 0;
        proof {
            assert(ms.subrange(0, 0) =~= Seq::<StackModel>::empty());
            assert(stack_models(self.processors@).subrange(0, 0) =~= Seq::<StackModel>::empty());
        }
        while i < self.processors.len()
            invariant
                self.trigger == old(self).trigger,
                self.rule == old(self).rule,
                start == old(self).processors@,
                ms == stack_models(start),
                in_order(old(self).model(), event.time),
                self.processors@.len() == start.len(),
                i <= start.len(),
                forall|k: int| 0 <= k < start.len() ==> #[trigger] self.processors@[k].wf(),
                forall|k: int| i <= k < start.len() ==> #[trigger] self.processors@[k] == start[k],
                process_stacks(ms.subrange(0, i as int), event@) == Some(stack_models(self.processors@).subrange(0, i as int)),
                stacks_until(stack_models(self.processors@), event.time),
            decreases start.len() - i,
        {
            let ghost before = self.processors@;
            proof {
                let pre = ms.subrange(0, i + 1);
                assert(pre.drop_last() =~= ms.subrange(0, i as int));
                assert(pre.last() == start[i as int].model());
                assert forall|j: int| 0 <= j < start[i as int].model().events.len() implies
                    #[trigger] start[i as int].model().events[j].time <= event.time by {
                    assert(old(self).model().stacks[i as int] == start[i as int].model());
                    assert(old(self).model().stacks[i as int].events[j].time <= event.time);
                }
            }
            let ok = self.processors[i].process(event);
            proof {
                assert forall|k: int| 0 <= k < start.len() implies #[trigger] self.processors@[k].wf() by {
                    if k != i {
                        assert(self.processors@[k] == before[k]);
                    }
                }
                let now = stack_models(self.processors@);
                let was = stack_models(before);
                assert forall|k: int, j: int| 0 <= k < now.len() && 0 <= j < now[k].events.len() implies #[trigger] now[k].events[j].time <= event.time by {
                    if k != i {
                        assert(self.processors@[k] == before[k]);
                        assert(now[k] == was[k]);
                        assert(was[k].events[j].time <= event.time);
                    } else if j < was[k].events.len() {
                        assert(was[k].events[j].time <= event.time);
                    }
                }
            }
            if !ok {
                proof {
                    lemma_process_none(ms, i + 1, event@);
                }
                return false;
            }
            proof {
                assert(stack_models(self.processors@).subrange(0, i + 1) =~= stack_models(before).subrange(0, i as int).push(self.processors@[i as int].model()));
            }
            i = i + 1;
        }
        proof {
            assert(ms.subrange(0, ms.len() as int) =~= ms);
            assert(stack_models(self.processors@).subrange(0, i as int) =~= stack_models(self.processors@));
        }
        true
    }
}


impl RuleStacks {
    /// Forgets, stack by stack, the events that no later evaluation can
    /// reach, the first bounded by the time of the trigger.
    fn remove_old_events(&mut self, trigger_time: i64) -> (ok: bool)
        requires
            old(self).wf(),
            stacks_until(stack_models(old(self).processors@), trigger_time),
        ensures
            stacks_until(stack_models(final(self).processors@), trigger_time),
            final(self).wf(),
            final(self).trigger == old(self).trigger,
            final(self).rule == old(self).rule,
            ok == (removal_prefix(old(self).model().stacks, trigger_time) is Some),
            ok ==> (removal_prefix(old(self).model().stacks, trigger_time) matches Some((ms2, _)) && ms2 == stack_models(final(self).processors@)),
    {
        broadcast use vstd::std_specs::hash::group_hash_axioms;
        let ghost ms = self.model().stacks;
        let ghost start = self.processors@;
        let mut times: HashMap<usize, i64> = HashMap::new();
        times.insert(0, trigger_time);
        let mut i: usize = 0;
        proof {
            assert(ms.subrange(0, 0) =~= Seq::<StackModel>::empty());
            assert(stack_models(self.processors@).subrange(0, 0) =~= Seq::<StackModel>::empty());
            assert(times@ =~= Map::<usize, i64>::empty().insert(0usize, trigger_time));
        }
        while i < self.processors.len()
            invariant
                self.trigger == old(self).trigger,
                self.rule == old(self).rule,
                start == old(self).processors@,
                ms == stack_models(start),
                self.processors@.len() == start.len(),
                i <= start.len(),
                forall|k: int| 0 <= k < start.len() ==> #[trigger] self.processors@[k].wf(),
                forall|k: int| i <= k < start.len() ==> #[trigger] self.processors@[k] == start[k],
                removal_prefix(ms.subrange(0, i as int), trigger_time) == Some((stack_models(self.processors@).subrange(0, i as int), times@)),
                stacks_until(stack_models(self.processors@), trigger_time),
            decreases start.len() - i,
        {
            let ghost before = self.processors@;
            proof {
                let pre = ms.subrange(0, i + 1);
                assert(pre.drop_last() =~= ms.subrange(0, i as int));
                assert(pre.last() == start[i as int].model());
            }
            let oldest = self.processors[i].remove_old(&times);
            proof {
                assert forall|k: int| 0 <= k < start.len() implies #[trigger] self.processors@[k].wf() by {
                    if k != i {
                        assert(self.processors@[k] == before[k]);
                    }
                }
                let now = stack_models(self.processors@);
                let was = stack_models(before);
                let wm = before[i as int].model();
                assert(was[i as int] == wm);
                if let Some(rt) = crate::stack::removal_time(wm.timing, times@) {
                    crate::stack::lemma_first_not_before_bounds(wm.events, rt);
                }
                assert forall|k: int, j: int| 0 <= k < now.len() && 0 <= j < now[k].events.len() implies #[trigger] now[k].events[j].time <= trigger_time by {
                    if k != i {
                        assert(self.processors@[k] == before[k]);
                        assert(now[k] == was[k]);
                        assert(was[k].events[j].time <= trigger_time);
                    } else {
                        match crate::stack::removal_time(wm.timing, times@) {
                            Some(rt) => {
                                let lo = crate::stack::first_not_before(wm.events, rt);
                                assert(now[k].events[j] == wm.events[lo + j]);
                                assert(was[k].events[lo + j].time <= trigger_time);
                            },
                            None => {
                                assert(was[k].events[j].time <= trigger_time);
                            },
                        }
                    }
                }
            }
            let time = match oldest {
                Some(Some(t)) => t,
                Some(None) => trigger_time,
                None => {
                    proof {
                        lemma_removal_none(ms, i + 1, trigger_time);
                    }
                    return false;
                },
            };
            let idx = self.processors[i].idx();
            times.insert(idx, time);
            proof {
                assert(stack_models(self.processors@).subrange(0, i + 1) =~= stack_models(before).subrange(0, i as int).push(self.processors@[i as int].model()));
            }
            i = i + 1;
        }
        proof {
            assert(ms.subrange(0, ms.len() as int) =~= ms);
            assert(stack_models(self.processors@).subrange(0, i as int) =~= stack_models(self.processors@));
        }
        true
    }

    /// Passes the initial result through every stack in turn: the complete
    /// results, or `None` when an evaluation fails.
    fn get_partial_results(&self, initial: PartialResult) -> (r: Option<Vec<PartialResult>>)
        requires
            self.wf(),
        ensures
            match r {
                Some(v) => chain(self.model().stacks, seq![initial@]) == Some(results_view(v@)),
                None => chain(self.model().stacks, seq![initial@]) is None,
            },
    {
        let ghost ms = self.model().stacks;
        let ghost init = initial@;
        let mut current: Vec<PartialResult> = Vec::new();
        current.push(initial);
        let mut k: usize = 0;
        proof {
            assert(ms.subrange(0, 0) =~= Seq::<StackModel>::empty());
            assert(results_view(current@) =~= seq![init]);
        }
        while k < self.processors.len()
            invariant
                self.wf(),
                ms == self.model().stacks,
                init == initial@,
                k <= self.processors@.len(),
                chain(ms.subrange(0, k as int), seq![init]) == Some(results_view(current@)),
            decreases self.processors@.len() - k,
        {
            proof {
                let pre = ms.subrange(0, k + 1);
                assert(pre.drop_last() =~= ms.subrange(0, k as int));
                assert(pre.last() == self.processors@[k as int].model());
                assert(self.processors@[k as int].wf());
            }
            match extend_all(&self.processors[k], &current) {
                Some(next) => {
                    current = next;
                },
                None => {
                    proof {
                        lemma_chain_none(ms, seq![init], k + 1);
                    }
                    return None;
                },
            }
            k = k + 1;
        }
        proof {
            assert(ms.subrange(0, ms.len() as int) =~= ms);
        }
        Some(current)
    }

    /// The events emitted for the complete results that satisfy the rule's
    /// filters, at the given time; `None` when an evaluation fails.
    fn generate_events(&self, time: i64, results: &Vec<PartialResult>) -> (r: Option<Vec<Event>>)
        ensures
            match r {
                Some(v) => emit(self.model().filters, self.model().template_ty, self.model().template, time, results_view(results@)) == Some(events_view(v@)),
                None => emit(self.model().filters, self.model().template_ty, self.model().template, time, results_view(results@)) is None,
            },
    {
        let ghost rs = results_view(results@);
        let ghost m = self.model();
        let mut out: Vec<Event> = Vec::new();
        let mut j: usize = 0;
        proof {
            assert(rs.subrange(0, 0) =~= Seq::<SpecResult>::empty());
            assert(events_view(out@) =~= Seq::<SpecEvent>::empty());
        }
        while j < results.len()
            invariant
                m == self.model(),
                rs == results_view(results@),
                j <= results@.len(),
                emit(m.filters, m.template_ty, m.template, time, rs.subrange(0, j as int)) == Some(events_view(out@)),
            decreases results@.len() - j,
        {
            proof {
                let pre = rs.subrange(0, j + 1);
                assert(pre.drop_last() =~= rs.subrange(0, j as int));
                assert(pre.last() == results@[j as int]@);
            }
            let context = CompleteContext::new(&results[j], CurrentValue::Empty);
            proof {
                assert(context.env() == result_env(results@[j as int]@));
            }
            match all_satisfied(&context, &self.rule.filters) {
                Some(true) => match evaluate_all(&context, &self.rule.event_template.attributes) {
                    Some(data) => {
                        let ghost before = out@;
                        let ev = Event { tuple: Tuple { ty_id: self.rule.event_template.ty_id, data }, time };
                        out.push(ev);
                        proof {
                            assert(events_view(out@) =~= events_view(before).push(ev@));
                        }
                    },
                    None => {
                        proof {
                            lemma_emit_none(m.filters, m.template_ty, m.template, time, rs, j + 1);
                        }
                        return None;
                    },
                },
                Some(false) => {},
                None => {
                    proof {
                        lemma_emit_none(m.filters, m.template_ty, m.template, time, rs, j + 1);
                    }
                    return None;
                },
            }
            j = j + 1;
        }
        proof {
            assert(rs.subrange(0, rs.len() as int) =~= rs);
        }
        Some(out)
    }

    /// Processes an event: every stack keeps it when it satisfies the stack's
    /// local constraints; when it satisfies the trigger, the stacks forget
    /// their old events and the rule emits one event per complete result
    /// that satisfies its filters, at the time of the triggering event.
    /// Events must come in chronological order. `None` when an evaluation
    /// fails (a constraint that is not a boolean, a missing value, an
    /// integer overflow): the stacks are then left in a consistent state.
    pub fn process(&mut self, event: &Event) -> (r: Option<Vec<Event>>)
        requires
            old(self).wf(),
            in_order(old(self).model(), event.time),
        ensures
            final(self).wf(),
            in_order(final(self).model(), event.time),
            final(self).model().types == old(self).model().types,
            match r {
                Some(evs) => rule_process(old(self).model(), event@) == Some((final(self).model(), events_view(evs@))),
                None => rule_process(old(self).model(), event@) is None,
            },
    {
        let ghost m = self.model();
        if !self.process_all(event) {
            return None;
        }
        let ghost m1 = self.model();
        proof {
            assert(m1 == RuleModel { stacks: m1.stacks, ..m });
        }
        match self.trigger.evaluate(event) {
            None => None,
            Some(None) => {
                let out: Vec<Event> = Vec::new();
                proof {
                    assert(events_view(out@) =~= Seq::<SpecEvent>::empty());
                }
                Some(out)
            },
            Some(Some(initial)) => {
                if !self.remove_old_events(event.time) {
                    return None;
                }
                let ghost m2 = self.model();
                proof {
                    assert(m2 == RuleModel { stacks: m2.stacks, ..m });
                }
                let results = match self.get_partial_results(initial) {
                    Some(v) => v,
                    None => return None,
                };
                self.generate_events(event.time, &results)
            },
        }
    }
}


/// The stacks kept by a successful removal of old events.
pub open spec fn kept_stacks(ms: Seq<StackModel>, tt: i64) -> Seq<StackModel> {
    match removal_prefix(ms, tt) {
        Some((kept, _)) => kept,
        None => ms,
    }
}

/// The times collected by a successful removal of old events.
pub open spec fn kept_times(ms: Seq<StackModel>, tt: i64) -> Map<usize, i64> {
    match removal_prefix(ms, tt) {
        Some((_, times)) => times,
        None => Map::empty(),
    }
}

/// The state of a rule after it processed an event successfully.
pub open spec fn next_rule(m: RuleModel, e: SpecEvent) -> RuleModel {
    match rule_process(m, e) {
        Some((next, _)) => next,
        None => m,
    }
}

/// The events a rule emitted processing an event successfully.
pub open spec fn emitted(m: RuleModel, e: SpecEvent) -> Seq<SpecEvent> {
    match rule_process(m, e) {
        Some((_, evs)) => evs,
        None => Seq::empty(),
    }
}

/// Whether no stack of a list holds an event later than `t`.
pub open spec fn stacks_until(ms: Seq<StackModel>, t: i64) -> bool {
    forall|k: int, i: int| 0 <= k < ms.len() && 0 <= i < ms[k].events.len() ==> #[trigger] ms[k].events[i].time <= t
}

/// Passing an event no later than `t` to stacks that hold nothing later than
/// `t` leaves them holding nothing later than `t`.
proof fn lemma_process_stacks_until(ms: Seq<StackModel>, e: SpecEvent, t: i64)
    requires
        stacks_until(ms, t),
        e.time <= t,
        process_stacks(ms, e) is Some,
    ensures
        process_stacks(ms, e)->0.len() == ms.len(),
        stacks_until(process_stacks(ms, e)->0, t),
    decreases ms.len(),
{
    if ms.len() > 0 {
        let pre = ms.drop_last();
        assert forall|k: int, i: int| 0 <= k < pre.len() && 0 <= i < pre[k].events.len() implies #[trigger] pre[k].events[i].time <= t by {
            assert(pre[k] == ms[k]);
            assert(ms[k].events[i].time <= t);
        }
        lemma_process_stacks_until(pre, e, t);
        let done = process_stacks(pre, e)->0;
        let m = ms.last();
        let out = process_stacks(ms, e)->0;
        assert forall|k: int, i: int| 0 <= k < out.len() && 0 <= i < out[k].events.len() implies #[trigger] out[k].events[i].time <= t by {
            if k < done.len() {
                assert(out[k] == done[k]);
                assert(done[k].events[i].time <= t);
            } else {
                assert(ms[ms.len() - 1] == m);
                if i < m.events.len() {
                    assert(m.events[i].time <= t);
                }
            }
        }
    }
}

/// Forgetting old events leaves stacks that held nothing later than `t`
/// holding nothing later than `t`.
proof fn lemma_removal_until(ms: Seq<StackModel>, tt: i64, t: i64)
    requires
        stacks_until(ms, t),
        removal_prefix(ms, tt) is Some,
    ensures
        kept_stacks(ms, tt).len() == ms.len(),
        stacks_until(kept_stacks(ms, tt), t),
    decreases ms.len(),
{
    if ms.len() > 0 {
        let pre = ms.drop_last();
        assert forall|k: int, i: int| 0 <= k < pre.len() && 0 <= i < pre[k].events.len() implies #[trigger] pre[k].events[i].time <= t by {
            assert(pre[k] == ms[k]);
            assert(ms[k].events[i].time <= t);
        }
        lemma_removal_until(pre, tt, t);
        let done = kept_stacks(pre, tt);
        let times = kept_times(pre, tt);
        let m = ms.last();
        let out = kept_stacks(ms, tt);
        let r = removal_time(m.timing, times)->0;
        let lo = first_not_before(m.events, r);
        crate::stack::lemma_first_not_before_bounds(m.events, r);
        assert forall|k: int, i: int| 0 <= k < out.len() && 0 <= i < out[k].events.len() implies #[trigger] out[k].events[i].time <= t by {
            if k < done.len() {
                assert(out[k] == done[k]);
                assert(done[k].events[i].time <= t);
            } else {
                assert(ms[ms.len() - 1] == m);
                assert(out[k].events[i] == m.events[lo + i]);
                assert(m.events[lo + i].time <= t);
            }
        }
    }
}

/// Every event emitted carries the given time.
proof fn lemma_emit_time(filters: Seq<Expression>, ty: usize, template: Seq<Expression>, time: i64, rs: Seq<SpecResult>)
    requires
        emit(filters, ty, template, time, rs) is Some,
    ensures
        forall|i: int| 0 <= i < emit(filters, ty, template, time, rs)->0.len() ==> #[trigger] emit(filters, ty, template, time, rs)->0[i].time == time,
    decreases rs.len(),
{
    if rs.len() > 0 {
        lemma_emit_time(filters, ty, template, time, rs.drop_last());
    }
}

/// Processing an event keeps a rule in order for the event's time, and every
/// event the rule emits carries that time.
pub proof fn lemma_rule_process_in_order(m: RuleModel, e: SpecEvent)
    requires
        in_order(m, e.time),
        rule_process(m, e) is Some,
    ensures
        in_order(next_rule(m, e), e.time),
        next_rule(m, e).types == m.types,
        forall|i: int| 0 <= i < emitted(m, e).len() ==> #[trigger] emitted(m, e)[i].time == e.time,
{
    assert(stacks_until(m.stacks, e.time)) by {
        assert forall|k: int, i: int| 0 <= k < m.stacks.len() && 0 <= i < m.stacks[k].events.len() implies #[trigger] m.stacks[k].events[i].time <= e.time by {
            assert(m.stacks[k].events[i].time <= e.time);
        }
    }
    lemma_process_stacks_until(m.stacks, e, e.time);
    let ms1 = process_stacks(m.stacks, e)->0;
    match trigger_evaluate(m.trigger, e) {
        Some(Some(init)) => {
            lemma_removal_until(ms1, e.time, e.time);
            let ms2 = kept_stacks(ms1, e.time);
            let rs = chain(ms2, seq![init])->0;
            lemma_emit_time(m.filters, m.template_ty, m.template, e.time, rs);
            let m2 = next_rule(m, e);
            assert(m2.stacks == ms2);
            assert forall|k: int, i: int| 0 <= k < m2.stacks.len() && 0 <= i < m2.stacks[k].events.len() implies #[trigger] m2.stacks[k].events[i].time <= e.time by {
                assert(ms2[k].events[i].time <= e.time);
            }
        },
        _ => {
            let m2 = next_rule(m, e);
            assert forall|k: int, i: int| 0 <= k < m2.stacks.len() && 0 <= i < m2.stacks[k].events.len() implies #[trigger] m2.stacks[k].events[i].time <= e.time by {
                assert(ms1[k].events[i].time <= e.time);
            }
        },
    }
}

/// A rule emits only for complete results on which every filter holds:
/// each emitted event has the template's type, the triggering time and the
/// template's values on one such result, at most one event per result, and
/// nothing at all when the filters fail on every result.
pub proof fn law_emit_filtered(filters: Seq<Expression>, ty: usize, template: Seq<Expression>, time: i64, rs: Seq<SpecResult>)
    ensures
        emit(filters, ty, template, time, rs) matches Some(evs) ==> {
            &&& evs.len() <= rs.len()
            &&& forall|k: int| 0 <= k < evs.len() ==> (#[trigger] evs[k]).ty_id == ty && evs[k].time == time
                && exists|i: int| 0 <= i < rs.len() && all_hold(filters, result_env(#[trigger] rs[i])) == Some(true)
                    && eval_list(template, result_env(rs[i])) == Some(evs[k].data)
            &&& (forall|i: int| 0 <= i < rs.len() ==> all_hold(filters, result_env(#[trigger] rs[i])) == Some(false)) ==> evs.len() == 0
        },
    decreases rs.len(),
{
    if rs.len() > 0 {
        let p = rs.drop_last();
        law_emit_filtered(filters, ty, template, time, p);
        if let Some(evs) = emit(filters, ty, template, time, rs) {
            let acc = emit(filters, ty, template, time, p)->0;
            let last = rs.len() - 1;
            assert(rs[last] == rs.last());
            assert forall|k: int| 0 <= k < evs.len() implies (#[trigger] evs[k]).ty_id == ty && evs[k].time == time
                && exists|i: int| 0 <= i < rs.len() && all_hold(filters, result_env(#[trigger] rs[i])) == Some(true)
                    && eval_list(template, result_env(rs[i])) == Some(evs[k].data) by {
                if k < acc.len() {
                    assert(evs[k] == acc[k]);
                    let i = choose|i: int| 0 <= i < p.len() && all_hold(filters, result_env(#[trigger] p[i])) == Some(true)
                        && eval_list(template, result_env(p[i])) == Some(acc[k].data);
                    assert(rs[i] == p[i]);
                } else {
                    assert(all_hold(filters, result_env(rs[last])) == Some(true));
                }
            }
            if forall|i: int| 0 <= i < rs.len() ==> all_hold(filters, result_env(#[trigger] rs[i])) == Some(false) {
                assert forall|i: int| 0 <= i < p.len() implies all_hold(filters, result_env(#[trigger] p[i])) == Some(false) by {
                    assert(p[i] == rs[i]);
                }
                assert(all_hold(filters, result_env(rs[last])) == Some(false));
            }
        }
    }
}

} // verus!
