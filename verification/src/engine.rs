//! The engine: the declared tuple types, the defined rules, the
//! subscriptions, and the publication of events through the rules.

use vstd::prelude::*;
use std::collections::HashMap;
use crate::aggregators::events_view;
use crate::predicates::{Predicate, PredicateType};
use crate::rule_checks::{checked_rule, predicates_view, reaches_bad_aggregate, rule_check};
use crate::rules::{RuleModel, RuleStacks, Trigger, in_order, pred_ty_ids, rule_process, stack_models};
use crate::stack::{Stack, StackModel, event_timing, global_part, local_part, predicate_well_typed};
use crate::tuples::{Event, Rule, SpecEvent, TupleDeclaration, attribute_types};

verus! {

/// How deep a cascade of derived events may go: an event published while
/// handling events derived this many times over makes the publication fail.
/// The bound is the largest `usize`, so no cascade a machine can hold
/// reaches it; it is there so that the cascade is proved to end.
pub const MAX_CASCADE: usize = usize::MAX;

/// The indices of the rules that mention tuple type `t`, in the order the
/// rules were defined.
pub open spec fn route(ms: Seq<RuleModel>, t: usize) -> Seq<usize>
    decreases ms.len(),
{
    if ms.len() == 0 {
        Seq::empty()
    } else if ms.last().types.contains(t) {
        route(ms.drop_last(), t).push((ms.len() - 1) as usize)
    } else {
        route(ms.drop_last(), t)
    }
}

/// Passes an event to the rules `ks`, in order: the rules after it and the
/// events they emitted, in order; `None` when one fails.
pub open spec fn run_rules(ms: Seq<RuleModel>, ks: Seq<usize>, e: SpecEvent) -> Option<(Seq<RuleModel>, Seq<SpecEvent>)>
    decreases ks.len(),
{
    if ks.len() == 0 {
        Some((ms, Seq::empty()))
    } else {
        match run_rules(ms, ks.drop_last(), e) {
            Some((ms1, out)) => {
                let k = ks.last();
                if k < ms1.len() {
                    match rule_process(ms1[k as int], e) {
                        Some((m2, evs)) => Some((ms1.update(k as int, m2), out + evs)),
                        None => None,
                    }
                } else {
                    None
                }
            },
            None => None,
        }
    }
}

/// Publishes an event: it is delivered, the rules that mention its type
/// process it, and the events they derive are published in turn, in order,
/// at most `fuel` levels deep. The rules after it and every event delivered,
/// in delivery order; `None` when a rule fails or the cascade is too deep.
pub open spec fn publish_cascade(ms: Seq<RuleModel>, e: SpecEvent, fuel: nat) -> Option<(Seq<RuleModel>, Seq<SpecEvent>)>
    decreases fuel, 0int, 0int,
{
    match run_rules(ms, route(ms, e.ty_id), e) {
        Some((ms1, derived)) => if derived.len() == 0 {
            Some((ms1, seq![e]))
        } else if fuel == 0 {
            None
        } else {
            match publish_list(ms1, derived, (fuel - 1) as nat) {
                Some((ms2, d)) => Some((ms2, seq![e] + d)),
                None => None,
            }
        },
        None => None,
    }
}

/// Publishes a list of events in order, each with its cascade.
pub open spec fn publish_list(ms: Seq<RuleModel>, evs: Seq<SpecEvent>, fuel: nat) -> Option<(Seq<RuleModel>, Seq<SpecEvent>)>
    decreases fuel, 1int, evs.len(),
{
    if evs.len() == 0 {
        Some((ms, Seq::empty()))
    } else {
        match publish_list(ms, evs.drop_last(), fuel) {
            Some((ms1, d1)) => match publish_cascade(ms1, evs.last(), fuel) {
                Some((ms2, d2)) => Some((ms2, d1 + d2)),
                None => None,
            },
            None => None,
        }
    }
}

/// The first tuple type of `order` named `name`.
pub open spec fn first_named(order: Seq<usize>, tuples: Map<usize, TupleDeclaration>, name: Seq<char>) -> Option<usize>
    decreases order.len(),
{
    if order.len() == 0 {
        None
    } else if tuples[order[0]].name@ == name {
        Some(order[0])
    } else {
        first_named(order.drop_first(), tuples, name)
    }
}

/// The index of the first attribute named `name`.
pub open spec fn attribute_index(attrs: Seq<crate::tuples::AttributeDeclaration>, name: Seq<char>, k: int) -> Option<usize>
    decreases attrs.len() - k,
{
    if k < 0 || k >= attrs.len() {
        None
    } else if attrs[k].name@ == name {
        Some(k as usize)
    } else {
        attribute_index(attrs, name, k + 1)
    }
}

/// The model of the engine.
pub struct EngineModel {
    /// The declared tuple types, by identifier.
    pub tuples: Map<usize, TupleDeclaration>,
    /// The identifiers of the declared tuple types, in declaration order.
    pub order: Seq<usize>,
    /// The rules, in definition order.
    pub rules: Seq<RuleModel>,
    /// The subscriptions, in increasing order.
    pub listeners: Seq<usize>,
    /// The last subscription identifier given.
    pub last_id: usize,
    /// The time of the last event published.
    pub last_time: i64,
}

/// The models of a list of rules.
pub open spec fn rule_models(v: Seq<RuleStacks>) -> Seq<RuleModel> {
    v.map_values(|r: RuleStacks| r.model())
}

/// A complex event processing engine.
#[derive(Debug)]
pub struct TRex {
    tuples: HashMap<usize, TupleDeclaration>,
    order: Vec<usize>,
    rules: Vec<RuleStacks>,
    reverse_index: HashMap<usize, Vec<usize>>,
    listeners: Vec<usize>,
    last_id: usize,
    last_time: i64,
}

impl TRex {
    /// The model of the engine.
    pub closed spec fn model(&self) -> EngineModel {
        EngineModel {
            tuples: self.tuples@,
            order: self.order@,
            rules: rule_models(self.rules@),
            listeners: self.listeners@,
            last_id: self.last_id,
            last_time: self.last_time,
        }
    }

    /// The invariant: every rule is consistent and holds no event later than
    /// the last one published; the reverse index lists, for each tuple type,
    /// the rules that mention it; the declaration order lists each declared
    /// type once; the subscriptions are increasing and were all given.
    pub closed spec fn wf(&self) -> bool {
        &&& forall|k: int| 0 <= k < self.rules@.len() ==> #[trigger] self.rules@[k].wf()
        &&& forall|k: int| 0 <= k < self.rules@.len() ==> in_order(#[trigger] self.rules@[k].model(), self.last_time)
        &&& forall|t: usize| #[trigger] self.reverse_index@.contains_key(t) ==> self.reverse_index@[t]@ == route(rule_models(self.rules@), t)
        &&& forall|t: usize| !self.reverse_index@.contains_key(t) ==> #[trigger] route(rule_models(self.rules@), t) == Seq::<usize>::empty()
        &&& self.order@.no_duplicates()
        &&& forall|i: int| 0 <= i < self.order@.len() ==> self.tuples@.contains_key(#[trigger] self.order@[i])
        &&& forall|k: usize| #[trigger] self.tuples@.contains_key(k) ==> self.order@.contains(k)
        &&& forall|i: int, j: int| 0 <= i < j < self.listeners@.len() ==> #[trigger] self.listeners@[i] < #[trigger] self.listeners@[j]
        &&& forall|i: int| 0 <= i < self.listeners@.len() ==> #[trigger] self.listeners@[i] <= self.last_id
    }
}

/// No rule mentions anything among no rules.
proof fn lemma_route_empty(t: usize)
    ensures
        route(Seq::<RuleModel>::empty(), t) == Seq::<usize>::empty(),
{
}

impl TRex {
    /// An engine with nothing declared, defined or subscribed.
    pub fn new() -> (r: Self)
        ensures
            r.wf(),
            r.model() == (EngineModel {
                tuples: Map::empty(),
                order: Seq::empty(),
                rules: Seq::empty(),
                listeners: Seq::empty(),
                last_id: 0,
                last_time: i64::MIN,
            }),
    {
        let r = TRex {
            tuples: HashMap::new(),
            order: Vec::new(),
            rules: Vec::new(),
            reverse_index: HashMap::new(),
            listeners: Vec::new(),
            last_id: 0,
            last_time: i64::MIN,
        };
        proof {
            assert(rule_models(r.rules@) =~= Seq::<RuleModel>::empty());
            assert forall|t: usize| !r.reverse_index@.contains_key(t) implies #[trigger] route(rule_models(r.rules@), t) == Seq::<usize>::empty() by {
                lemma_route_empty(t);
            }
            assert(r.tuples@ =~= Map::<usize, TupleDeclaration>::empty());
        }
        r
    }

    /// Whether a tuple type with this identifier is declared.
    pub fn is_declared(&self, id: usize) -> (r: bool)
        ensures
            r == self.model().tuples.contains_key(id),
    {
        broadcast use vstd::std_specs::hash::group_hash_axioms;
        self.tuples.contains_key(&id)
    }

    /// The time of the last event published; events must be published in
    /// chronological order.
    pub fn last_time(&self) -> (r: i64)
        ensures
            r == self.model().last_time,
    {
        self.last_time
    }

    /// Declares a tuple type, which must not be declared yet.
    pub fn declare(&mut self, tuple: TupleDeclaration)
        requires
            old(self).wf(),
            !old(self).model().tuples.contains_key(tuple.id),
        ensures
            final(self).wf(),
            final(self).model() == (EngineModel {
                tuples: old(self).model().tuples.insert(tuple.id, tuple),
                order: old(self).model().order.push(tuple.id),
                ..old(self).model()
            }),
    {
        broadcast use vstd::std_specs::hash::group_hash_axioms;
        let id = tuple.id;
        let ghost before = self.order@;
        self.tuples.insert(id, tuple);
        self.order.push(id);
        proof {
            assert forall|i: int| 0 <= i < self.order@.len() implies self.tuples@.contains_key(#[trigger] self.order@[i]) by {
                if i < before.len() {
                    assert(self.order@[i] == before[i]);
                }
            }
            assert forall|k: usize| #[trigger] self.tuples@.contains_key(k) implies self.order@.contains(k) by {
                if k == id {
                    assert(self.order@[before.len() as int] == id);
                } else {
                    assert(before.contains(k));
                    let j = choose|j: int| 0 <= j < before.len() && before[j] == k;
                    assert(self.order@[j] == k);
                }
            }
            assert(!before.contains(id));
            assert forall|i: int, j: int| 0 <= i < self.order@.len() && 0 <= j < self.order@.len() && i != j implies self.order@[i] != self.order@[j] by {
                if i < before.len() && j < before.len() {
                    assert(self.order@[i] == before[i] && self.order@[j] == before[j]);
                } else if i < before.len() {
                    assert(self.order@[i] == before[i]);
                    assert(before.contains(before[i]));
                } else if j < before.len() {
                    assert(self.order@[j] == before[j]);
                    assert(before.contains(before[j]));
                }
            }
        }
    }
}


/// The index of the first occurrence of `x` in `s` from index `k` on.
pub open spec fn position_from(s: Seq<usize>, x: usize, k: int) -> Option<int>
    decreases s.len() - k,
{
    if k < 0 || k >= s.len() {
        None
    } else if s[k] == x {
        Some(k)
    } else {
        position_from(s, x, k + 1)
    }
}

/// Where `position_from` finds nothing, the value does not occur from `k` on.
proof fn lemma_position_none(s: Seq<usize>, x: usize, k: int)
    requires
        0 <= k,
        position_from(s, x, k) is None,
    ensures
        forall|i: int| k <= i < s.len() ==> s[i] != x,
    decreases s.len() - k,
{
    if k < s.len() {
        lemma_position_none(s, x, k + 1);
    }
}

impl TRex {
    /// The last subscription identifier given.
    pub fn last_id(&self) -> (r: usize)
        ensures
            r == self.model().last_id,
    {
        self.last_id
    }

    /// Subscribes a listener: its identifier, one more than the last given.
    pub fn subscribe(&mut self) -> (r: usize)
        requires
            old(self).wf(),
            old(self).model().last_id < usize::MAX,
        ensures
            final(self).wf(),
            r == old(self).model().last_id + 1,
            final(self).model() == (EngineModel {
                listeners: old(self).model().listeners.push(r),
                last_id: r,
                ..old(self).model()
            }),
    {
        self.last_id = self.last_id + 1;
        self.listeners.push(self.last_id);
        self.last_id
    }

    /// Unsubscribes a listener; whether it was subscribed.
    pub fn unsubscribe(&mut self, listener_id: usize) -> (r: bool)
        requires
            old(self).wf(),
        ensures
            final(self).wf(),
            match position_from(old(self).model().listeners, listener_id, 0) {
                Some(j) => r && final(self).model() == (EngineModel {
                    listeners: old(self).model().listeners.remove(j),
                    ..old(self).model()
                }),
                None => !r && final(self).model() == old(self).model(),
            },
    {
        let ghost s = self.listeners@;
        let mut k: usize = 0;
        while k < self.listeners.len()
            invariant
                *self == *old(self),
                old(self).wf(),
                s == self.listeners@,
                k <= s.len(),
                position_from(s, listener_id, 0) == position_from(s, listener_id, k as int),
            decreases s.len() - k,
        {
            if self.listeners[k] == listener_id {
                self.listeners.remove(k);
                proof {
                    let t = self.listeners@;
                    assert forall|i: int, j: int| 0 <= i < j < t.len() implies #[trigger] t[i] < #[trigger] t[j] by {
                        let i0 = if i < k { i } else { i + 1 };
                        let j0 = if j < k { j } else { j + 1 };
                        assert(t[i] == s[i0] && t[j] == s[j0]);
                    }
                    assert forall|i: int| 0 <= i < t.len() implies #[trigger] t[i] <= self.last_id by {
                        let i0 = if i < k { i } else { i + 1 };
                        assert(t[i] == s[i0]);
                    }
                }
                return true;
            }
            k = k + 1;
        }
        false
    }

    /// The identifier of the first declared tuple type with this name.
    pub fn tuple_id(&self, name: &str) -> (r: Option<usize>)
        requires
            self.wf(),
        ensures
            r == first_named(self.model().order, self.model().tuples, name@),
    {
        broadcast use vstd::std_specs::hash::group_hash_axioms;
        let wanted = name.to_owned();
        let ghost o = self.order@;
        let mut i: usize = 0;
        proof {
            assert(o.subrange(0, o.len() as int) =~= o);
        }
        while i < self.order.len()
            invariant
                self.wf(),
                o == self.order@,
                wanted@ == name@,
                i <= o.len(),
                first_named(o, self.tuples@, name@) == first_named(o.subrange(i as int, o.len() as int), self.tuples@, name@),
            decreases o.len() - i,
        {
            let ghost rest = o.subrange(i as int, o.len() as int);
            proof {
                assert(rest.drop_first() =~= o.subrange(i + 1, o.len() as int));
                assert(rest[0] == o[i as int]);
                assert(self.tuples@.contains_key(o[i as int]));
            }
            let id = self.order[i];
            match self.tuples.get(&id) {
                Some(t) => {
                    if t.name == wanted {
                        return Some(id);
                    }
                },
                None => {},
            }
            i = i + 1;
        }
        None
    }

    /// The index of the first attribute named `attr_name` of the first
    /// declared tuple type named `tuple_name`.
    pub fn tupleattr_id(&self, tuple_name: &str, attr_name: &str) -> (r: Option<usize>)
        requires
            self.wf(),
        ensures
            r == (match first_named(self.model().order, self.model().tuples, tuple_name@) {
                Some(id) => attribute_index(self.model().tuples[id].attributes@, attr_name@, 0),
                None => None,
            }),
    {
        broadcast use vstd::std_specs::hash::group_hash_axioms;
        let id = match self.tuple_id(tuple_name) {
            Some(id) => id,
            None => return None,
        };
        proof {
            lemma_first_named_declared(self.order@, self.tuples@, tuple_name@);
        }
        let tuple = match self.tuples.get(&id) {
            Some(t) => t,
            None => return None,
        };
        let wanted = attr_name.to_owned();
        let mut k: usize = 0;
        while k < tuple.attributes.len()
            invariant
                wanted@ == attr_name@,
                first_named(self.model().order, self.model().tuples, tuple_name@) == Some(id),
                self.tuples@.contains_key(id),
                self.tuples@[id] == *tuple,
                k <= tuple.attributes@.len(),
                attribute_index(tuple.attributes@, attr_name@, 0) == attribute_index(tuple.attributes@, attr_name@, k as int),
            decreases tuple.attributes@.len() - k,
        {
            if tuple.attributes[k].name == wanted {
                return Some(k);
            }
            k = k + 1;
        }
        None
    }
}

/// The tuple type `first_named` finds is one of the order.
proof fn lemma_first_named_declared(order: Seq<usize>, tuples: Map<usize, TupleDeclaration>, name: Seq<char>)
    requires
        forall|i: int| 0 <= i < order.len() ==> tuples.contains_key(#[trigger] order[i]),
    ensures
        first_named(order, tuples, name) matches Some(id) ==> tuples.contains_key(id),
    decreases order.len(),
{
    if order.len() > 0 {
        assert(tuples.contains_key(order[0]));
        let rest = order.drop_first();
        assert forall|i: int| 0 <= i < rest.len() implies tuples.contains_key(#[trigger] rest[i]) by {
            assert(rest[i] == order[i + 1]);
        }
        lemma_first_named_declared(rest, tuples, name);
    }
}


/// The model of the stack a non-trigger predicate starts with: no events.
pub open spec fn initial_stack(idx: usize, p: Predicate, d: TupleDeclaration) -> StackModel {
    StackModel {
        idx,
        ty_id: p.tuple.ty_id,
        ty: p.ty@,
        local: local_part(p.tuple.constraints@),
        global: global_part(p.tuple.constraints@),
        timing: event_timing(p.ty@)->0,
        types: attribute_types(d),
        events: Seq::empty(),
    }
}

/// The model of a rule just defined: its first predicate triggers it, and
/// each other predicate gets an empty stack.
pub open spec fn initial_rule(rule: Rule, tuples: Map<usize, TupleDeclaration>) -> RuleModel {
    let ps = rule.predicates@;
    RuleModel {
        trigger: ps[0]@,
        stacks: Seq::new(
            (ps.len() - 1) as nat,
            |k: int| initial_stack((k + 1) as usize, ps[k + 1], tuples[ps[k + 1].tuple.ty_id]),
        ),
        filters: rule.filters@,
        template_ty: rule.event_template.ty_id,
        template: rule.event_template.attributes@,
        types: pred_ty_ids(ps),
    }
}

/// Whether a rule can be defined: it has a first predicate, the other
/// predicates are event predicates (the engine keeps their events in
/// stacks), and it type-checks against the declared tuple types.
pub open spec fn definable(rule: Rule, tuples: Map<usize, TupleDeclaration>) -> bool {
    &&& rule.predicates@.len() > 0
    &&& forall|k: int| 1 <= k < rule.predicates@.len() ==> #[trigger] event_timing(rule.predicates@[k].ty@) is Some
    &&& !reaches_bad_aggregate(predicates_view(rule.predicates@), tuples)
    &&& rule_check(rule, tuples) is Ok
}

/// The rule under evaluation a definition makes: a trigger for the first
/// predicate and a stack for each of the others.
fn provide(rule: Rule, tuples: &HashMap<usize, TupleDeclaration>) -> (r: RuleStacks)
    requires
        rule.predicates@.len() > 0,
        forall|k: int| 1 <= k < rule.predicates@.len() ==> #[trigger] event_timing(rule.predicates@[k].ty@) is Some,
        forall|k: int| 1 <= k < rule.predicates@.len() ==> tuples@.contains_key(#[trigger] rule.predicates@[k].tuple.ty_id),
        forall|k: int| 1 <= k < rule.predicates@.len() ==> #[trigger] predicate_well_typed(rule.predicates@[k].ty@, attribute_types(tuples@[rule.predicates@[k].tuple.ty_id])),
    ensures
        r.wf(),
        r.model() == initial_rule(rule, tuples@),
{
    broadcast use vstd::std_specs::hash::group_hash_axioms;
    let ghost ps = rule.predicates@;
    let mut processors: Vec<Stack> = Vec::new();
    let mut i: usize = 1;
    while i < rule.predicates.len()
        invariant
            ps == rule.predicates@,
            forall|k: int| 1 <= k < ps.len() ==> #[trigger] event_timing(ps[k].ty@) is Some,
            forall|k: int| 1 <= k < ps.len() ==> tuples@.contains_key(#[trigger] ps[k].tuple.ty_id),
            forall|k: int| 1 <= k < ps.len() ==> #[trigger] predicate_well_typed(ps[k].ty@, attribute_types(tuples@[ps[k].tuple.ty_id])),
            1 <= i <= ps.len(),
            processors@.len() == i - 1,
            forall|k: int| 0 <= k < processors@.len() ==> #[trigger] processors@[k].wf(),
            forall|k: int| 0 <= k < processors@.len() ==> #[trigger] processors@[k].model() == initial_stack((k + 1) as usize, ps[k + 1], tuples@[ps[k + 1].tuple.ty_id]),
        decreases ps.len() - i,
    {
        proof {
            assert(event_timing(ps[i as int].ty@) is Some);
            assert(tuples@.contains_key(ps[i as int].tuple.ty_id));
            assert(predicate_well_typed(ps[i as int].ty@, attribute_types(tuples@[ps[i as int].tuple.ty_id])));
        }
        if let Some(tuple) = tuples.get(&rule.predicates[i].tuple.ty_id) {
            if let Some(stack) = Stack::new(i, tuple, &rule.predicates[i]) {
                processors.push(stack);
            }
        }
        i = i + 1;
    }
    let trigger = Trigger::new(&rule.predicates[0]);
    let r = RuleStacks::new(trigger, processors, rule);
    proof {
        assert(stack_models(processors@) =~= initial_rule(rule, tuples@).stacks);
    }
    r
}

/// Every rule `route` lists is one of the rules.
proof fn lemma_route_bound(ms: Seq<RuleModel>, t: usize)
    ensures
        forall|j: int| 0 <= j < route(ms, t).len() ==> #[trigger] route(ms, t)[j] < ms.len(),
    decreases ms.len(),
{
    if ms.len() > 0 {
        let r0 = route(ms.drop_last(), t);
        lemma_route_bound(ms.drop_last(), t);
        assert forall|j: int| 0 <= j < route(ms, t).len() implies #[trigger] route(ms, t)[j] < ms.len() by {
            if j < r0.len() {
                assert(route(ms, t)[j] == r0[j]);
            }
        }
    }
}

/// The rules that mention a type, once one more rule is defined.
proof fn lemma_route_push(ms: Seq<RuleModel>, m: RuleModel, t: usize)
    ensures
        route(ms.push(m), t) == (if m.types.contains(t) {
            route(ms, t).push(ms.len() as usize)
        } else {
            route(ms, t)
        }),
{
    assert(ms.push(m).drop_last() =~= ms);
}

/// The rules that mention a type do not change while the rules' types do
/// not.
pub proof fn lemma_route_same_types(ms: Seq<RuleModel>, ns: Seq<RuleModel>, t: usize)
    requires
        ms.len() == ns.len(),
        forall|k: int| 0 <= k < ms.len() ==> #[trigger] ms[k].types == ns[k].types,
    ensures
        route(ms, t) == route(ns, t),
    decreases ms.len(),
{
    if ms.len() > 0 {
        assert forall|k: int| 0 <= k < ms.drop_last().len() implies #[trigger] ms.drop_last()[k].types == ns.drop_last()[k].types by {
            assert(ms[k].types == ns[k].types);
        }
        lemma_route_same_types(ms.drop_last(), ns.drop_last(), t);
        assert(ms.last().types == ns.last().types);
    }
}

/// What a prefix one longer contains.
proof fn lemma_prefix_contains(s: Seq<usize>, i: int, t: usize)
    requires
        0 <= i < s.len(),
    ensures
        s.subrange(0, i + 1).contains(t) <==> (s.subrange(0, i).contains(t) || s[i] == t),
{
    let a = s.subrange(0, i);
    let b = s.subrange(0, i + 1);
    if b.contains(t) {
        let j = choose|j: int| 0 <= j < b.len() && b[j] == t;
        if j < i {
            assert(a[j] == t);
        }
    }
    if a.contains(t) {
        let j = choose|j: int| 0 <= j < a.len() && a[j] == t;
        assert(b[j] == t);
    }
    if s[i] == t {
        assert(b[i] == t);
    }
}

/// Whether a predicate type is that of an event predicate.
fn is_event_predicate(ty: &PredicateType) -> (r: bool)
    ensures
        r == (event_timing(ty@) is Some),
{
    match ty {
        PredicateType::Event { .. } | PredicateType::EventAggregate { .. } | PredicateType::EventNegation { .. } => true,
        _ => false,
    }
}

impl TRex {
    /// Whether a rule can be defined: it has predicates, all but the first
    /// are event predicates, and it type-checks against the declared tuples
    /// without reaching an aggregate over a missing attribute.
    pub fn can_define(&self, rule: &Rule) -> (r: bool)
        requires
            self.wf(),
        ensures
            r == definable(*rule, self.model().tuples),
    {
        if rule.predicates.len() == 0 {
            return false;
        }
        let mut k: usize = 1;
        while k < rule.predicates.len()
            invariant
                1 <= k <= rule.predicates@.len(),
                forall|j: int| 1 <= j < k ==> #[trigger] event_timing(rule.predicates@[j].ty@) is Some,
            decreases rule.predicates@.len() - k,
        {
            if !is_event_predicate(&rule.predicates[k].ty) {
                return false;
            }
            k = k + 1;
        }
        match checked_rule(rule, &self.tuples) {
            Some(Ok(_)) => true,
            _ => false,
        }
    }
}

impl TRex {
    /// Defines a rule: it gets a trigger for its first predicate and an
    /// empty stack for each of the others, and the reverse index lists it
    /// under every tuple type its predicates mention.
    pub fn define(&mut self, rule: Rule)
        requires
            old(self).wf(),
            definable(rule, old(self).model().tuples),
        ensures
            final(self).wf(),
            final(self).model() == (EngineModel {
                rules: old(self).model().rules.push(initial_rule(rule, old(self).model().tuples)),
                ..old(self).model()
            }),
    {
        broadcast use vstd::std_specs::hash::group_hash_axioms;
        proof {
            let ps = predicates_view(rule.predicates@);
            crate::rule_checks::lemma_checked_predicates_declared(ps, self.tuples@);
            crate::rule_checks::lemma_checked_aggregates(ps, self.tuples@);
            assert forall|k: int| 1 <= k < rule.predicates@.len() implies #[trigger] predicate_well_typed(rule.predicates@[k].ty@, attribute_types(self.tuples@[rule.predicates@[k].tuple.ty_id])) by {
                assert(ps[k] == rule.predicates@[k]@);
                assert(predicate_well_typed(ps[k].ty, attribute_types(self.tuples@[ps[k].ty_id])));
            }
            assert forall|k: int| 1 <= k < rule.predicates@.len() implies self.tuples@.contains_key(#[trigger] rule.predicates@[k].tuple.ty_id) by {
                assert(ps[k] == rule.predicates@[k]@);
                assert(self.tuples@.contains_key(ps[k].ty_id));
            }
        }
        let stacks = provide(rule, &self.tuples);
        let n = self.rules.len();
        let types = stacks.predicate_types();
        let ghost ms = rule_models(self.rules@);
        let mut i: usize = 0;
        while i < types.len()
            invariant
                ms == rule_models(self.rules@),
                n == self.rules@.len(),
                self.rules@ == old(self).rules@,
                self.tuples@ == old(self).tuples@,
                self.order@ == old(self).order@,
                self.listeners@ == old(self).listeners@,
                self.last_id == old(self).last_id,
                self.last_time == old(self).last_time,
                i <= types@.len(),
                forall|t: usize| #[trigger] self.reverse_index@.contains_key(t) ==> self.reverse_index@[t]@ == (if types@.subrange(0, i as int).contains(t) {
                    route(ms, t).push(n)
                } else {
                    route(ms, t)
                }),
                forall|t: usize| !self.reverse_index@.contains_key(t) ==> (if types@.subrange(0, i as int).contains(t) {
                    route(ms, t).push(n)
                } else {
                    route(ms, t)
                }) == Seq::<usize>::empty(),
            decreases types@.len() - i,
        {
            let t = types[i];
            proof {
                lemma_route_bound(ms, t);
                assert forall|u: usize| u != t implies (types@.subrange(0, i + 1).contains(u) <==> types@.subrange(0, i as int).contains(u)) by {
                    lemma_prefix_contains(types@, i as int, u);
                }
                lemma_prefix_contains(types@, i as int, t);
            }
            let mut v = match self.reverse_index.remove(&t) {
                Some(v) => v,
                None => Vec::new(),
            };
            if v.len() == 0 || v[v.len() - 1] != n {
                proof {
                    if types@.subrange(0, i as int).contains(t) {
                        assert(v@ == route(ms, t).push(n));
                        assert(v@[v@.len() - 1] == n);
                    }
                }
                v.push(n);
            } else {
                proof {
                    if !types@.subrange(0, i as int).contains(t) {
                        assert(v@ == route(ms, t));
                        assert(v@[v@.len() - 1] < n);
                    }
                }
            }
            self.reverse_index.insert(t, v);
            i = i + 1;
        }
        let ghost m = stacks.model();
        self.rules.push(stacks);
        proof {
            assert(types@.subrange(0, types@.len() as int) =~= types@);
            assert(rule_models(self.rules@) =~= ms.push(m));
            assert forall|t: usize| #[trigger] self.reverse_index@.contains_key(t) implies self.reverse_index@[t]@ == route(rule_models(self.rules@), t) by {
                lemma_route_push(ms, m, t);
            }
            assert forall|t: usize| !self.reverse_index@.contains_key(t) implies #[trigger] route(rule_models(self.rules@), t) == Seq::<usize>::empty() by {
                lemma_route_push(ms, m, t);
            }
            assert forall|k: int| 0 <= k < self.rules@.len() implies #[trigger] self.rules@[k].wf() by {
                if k < n {
                    assert(self.rules@[k] == old(self).rules@[k]);
                }
            }
            assert forall|k: int| 0 <= k < self.rules@.len() implies in_order(#[trigger] self.rules@[k].model(), self.last_time) by {
                if k < n {
                    assert(self.rules@[k] == old(self).rules@[k]);
                }
            }
        }
    }
}


/// Once running a prefix of the rules fails, running them all fails.
proof fn lemma_run_rules_none(ms: Seq<RuleModel>, ks: Seq<usize>, e: SpecEvent, j: int)
    requires
        0 <= j <= ks.len(),
        run_rules(ms, ks.subrange(0, j), e) is None,
    ensures
        run_rules(ms, ks, e) is None,
    decreases ks.len() - j,
{
    if j < ks.len() {
        assert(ks.subrange(0, j + 1).drop_last() =~= ks.subrange(0, j));
        lemma_run_rules_none(ms, ks, e, j + 1);
    } else {
        assert(ks.subrange(0, j) =~= ks);
    }
}

/// Once publishing a prefix of a list fails, publishing the list fails.
proof fn lemma_publish_list_none(ms: Seq<RuleModel>, evs: Seq<SpecEvent>, fuel: nat, j: int)
    requires
        0 <= j <= evs.len(),
        publish_list(ms, evs.subrange(0, j), fuel) is None,
    ensures
        publish_list(ms, evs, fuel) is None,
    decreases evs.len() - j,
{
    if j < evs.len() {
        assert(evs.subrange(0, j + 1).drop_last() =~= evs.subrange(0, j));
        lemma_publish_list_none(ms, evs, fuel, j + 1);
    } else {
        assert(evs.subrange(0, j) =~= evs);
    }
}

/// Whether two engine models agree on everything but the rules.
pub open spec fn same_but_rules(a: EngineModel, b: EngineModel) -> bool {
    &&& a.tuples == b.tuples
    &&& a.order == b.order
    &&& a.listeners == b.listeners
    &&& a.last_id == b.last_id
    &&& a.last_time == b.last_time
}

impl TRex {
    /// Passes an event to the rules that mention its type, in definition
    /// order: the events they derive, in order.
    fn run_rules_for(&mut self, event: &Event) -> (r: Option<Vec<Event>>)
        requires
            old(self).wf(),
            old(self).last_time == event.time,
        ensures
            final(self).wf(),
            same_but_rules(final(self).model(), old(self).model()),
            final(self).model().rules.len() == old(self).model().rules.len(),
            match r {
                Some(d) => run_rules(old(self).model().rules, route(old(self).model().rules, event.tuple.ty_id), event@) == Some((final(self).model().rules, events_view(d@)))
                    && forall|i: int| 0 <= i < d@.len() ==> #[trigger] d@[i].time == event.time,
                None => run_rules(old(self).model().rules, route(old(self).model().rules, event.tuple.ty_id), event@) is None,
            },
    {
        broadcast use vstd::std_specs::hash::group_hash_axioms;
        let ghost ms = rule_models(self.rules@);
        let ghost t = event.tuple.ty_id;
        let empty: Vec<usize> = Vec::new();
        let ks: &Vec<usize> = match self.reverse_index.get(&event.tuple.ty_id) {
            Some(v) => v,
            None => &empty,
        };
        proof {
            lemma_route_bound(ms, t);
        }
        let n = self.rules.len();
        let mut out: Vec<Event> = Vec::new();
        let mut j: usize = 0;
        proof {
            assert(ks@ == route(ms, t));
            assert(ks@.subrange(0, 0) =~= Seq::<usize>::empty());
            assert(events_view(out@) =~= Seq::<SpecEvent>::empty());
        }
        while j < ks.len()
            invariant
                old(self).wf(),
                ms == rule_models(old(self).rules@),
                ks@ == route(ms, t),
                t == event.tuple.ty_id,
                forall|x: int| 0 <= x < ks@.len() ==> #[trigger] ks@[x] < ms.len(),
                n == self.rules@.len(),
                n == ms.len(),
                j <= ks@.len(),
                self.tuples == old(self).tuples,
                self.order == old(self).order,
                self.listeners == old(self).listeners,
                self.last_id == old(self).last_id,
                self.last_time == old(self).last_time,
                self.reverse_index == old(self).reverse_index,
                self.last_time == event.time,
                forall|k: int| 0 <= k < n ==> #[trigger] self.rules@[k].wf(),
                forall|k: int| 0 <= k < n ==> in_order(#[trigger] self.rules@[k].model(), event.time),
                forall|k: int| 0 <= k < n ==> #[trigger] self.rules@[k].model().types == ms[k].types,
                run_rules(ms, ks@.subrange(0, j as int), event@) == Some((rule_models(self.rules@), events_view(out@))),
                forall|i: int| 0 <= i < out@.len() ==> #[trigger] out@[i].time == event.time,
            decreases ks@.len() - j,
        {
            let k = ks[j];
            let ghost before = self.rules@;
            let ghost outb = out@;
            proof {
                let pre = ks@.subrange(0, j + 1);
                assert(pre.drop_last() =~= ks@.subrange(0, j as int));
                assert(pre.last() == k);
                assert(k < n);
                assert(rule_models(before)[k as int] == before[k as int].model());
            }
            match self.rules[k].process(event) {
                Some(evs) => {
                    let mut evs = evs;
                    let ghost added = evs@;
                    proof {
                        lemma_rule_process_in_order_events(before[k as int].model(), event@);
                        assert(crate::rules::emitted(before[k as int].model(), event@) == events_view(added));
                    }
                    out.append(&mut evs);
                    proof {
                        assert(rule_models(self.rules@) =~= rule_models(before).update(k as int, self.rules@[k as int].model()));
                        assert(events_view(out@) =~= events_view(outb) + events_view(added));
                        assert forall|i: int| 0 <= i < out@.len() implies #[trigger] out@[i].time == event.time by {
                            if i >= outb.len() {
                                assert(out@[i] == added[i - outb.len()]);
                                assert(events_view(added)[i - outb.len()] == added[i - outb.len()]@);
                                assert(crate::rules::emitted(before[k as int].model(), event@)[i - outb.len()].time == event.time);
                            }
                        }
                    }
                },
                None => {
                    proof {
                        lemma_run_rules_none(ms, ks@, event@, j + 1);
                    }
                    proof {
                        lemma_wf_rules(self, ms);
                    }
                    return None;
                },
            }
            j = j + 1;
        }
        proof {
            assert(ks@.subrange(0, ks@.len() as int) =~= ks@);
            lemma_wf_rules(self, ms);
        }
        Some(out)
    }
}

/// The events a rule emits carry the time of the event it processed.
proof fn lemma_rule_process_in_order_events(m: RuleModel, e: SpecEvent)
    requires
        in_order(m, e.time),
        rule_process(m, e) is Some,
    ensures
        forall|i: int| 0 <= i < crate::rules::emitted(m, e).len() ==> #[trigger] crate::rules::emitted(m, e)[i].time == e.time,
{
    crate::rules::lemma_rule_process_in_order(m, e);
}

/// An engine whose rules mention the types they mentioned before keeps its
/// reverse index valid.
proof fn lemma_wf_rules(e: &TRex, ms: Seq<RuleModel>)
    requires
        rule_models(e.rules@).len() == ms.len(),
        forall|k: int| 0 <= k < ms.len() ==> #[trigger] e.rules@[k].model().types == ms[k].types,
        forall|t: usize| #[trigger] e.reverse_index@.contains_key(t) ==> e.reverse_index@[t]@ == route(ms, t),
        forall|t: usize| !e.reverse_index@.contains_key(t) ==> #[trigger] route(ms, t) == Seq::<usize>::empty(),
    ensures
        forall|t: usize| #[trigger] e.reverse_index@.contains_key(t) ==> e.reverse_index@[t]@ == route(rule_models(e.rules@), t),
        forall|t: usize| !e.reverse_index@.contains_key(t) ==> #[trigger] route(rule_models(e.rules@), t) == Seq::<usize>::empty(),
{
    let ns = rule_models(e.rules@);
    assert forall|t: usize| #[trigger] route(ns, t) == route(ms, t) by {
        assert forall|k: int| 0 <= k < ms.len() implies #[trigger] ms[k].types == ns[k].types by {
            assert(ns[k] == e.rules@[k].model());
        }
        lemma_route_same_types(ms, ns, t);
    }
}


/// A rule in order for a time is in order for any later time.
proof fn lemma_in_order_later(m: RuleModel, t1: i64, t2: i64)
    requires
        in_order(m, t1),
        t1 <= t2,
    ensures
        in_order(m, t2),
{
    assert forall|k: int, i: int| 0 <= k < m.stacks.len() && 0 <= i < m.stacks[k].events.len() implies #[trigger] m.stacks[k].events[i].time <= t2 by {
        assert(m.stacks[k].events[i].time <= t1);
    }
}

impl TRex {
    /// Publishes an event and, at most `fuel` levels deep, the events it
    /// derives: every event delivered, in delivery order.
    fn cascade(&mut self, event: &Event, fuel: usize) -> (r: Option<Vec<Event>>)
        requires
            old(self).wf(),
            old(self).last_time <= event.time,
        ensures
            final(self).wf(),
            final(self).model().tuples == old(self).model().tuples,
            final(self).model().order == old(self).model().order,
            final(self).model().listeners == old(self).model().listeners,
            final(self).model().last_id == old(self).model().last_id,
            final(self).model().last_time == event.time,
            match r {
                Some(d) => publish_cascade(old(self).model().rules, event@, fuel as nat) == Some((final(self).model().rules, events_view(d@))),
                None => publish_cascade(old(self).model().rules, event@, fuel as nat) is None,
            },
        decreases fuel, 0int, 0int,
    {
        self.last_time = event.time;
        proof {
            assert forall|k: int| 0 <= k < self.rules@.len() implies in_order(#[trigger] self.rules@[k].model(), self.last_time) by {
                lemma_in_order_later(self.rules@[k].model(), old(self).last_time, event.time);
            }
        }
        let ghost ms0 = rule_models(self.rules@);
        let derived = match self.run_rules_for(event) {
            Some(d) => d,
            None => return None,
        };
        let ghost ms1 = rule_models(self.rules@);
        let mut out: Vec<Event> = Vec::new();
        out.push(event.clone());
        if derived.len() == 0 {
            proof {
                assert(events_view(derived@) =~= Seq::<SpecEvent>::empty());
                assert(events_view(out@) =~= seq![event@]);
            }
            return Some(out);
        }
        if fuel == 0 {
            return None;
        }
        proof {
            assert(events_view(derived@).len() > 0);
        }
        match self.cascade_list(&derived, fuel - 1) {
            Some(d) => {
                let mut d = d;
                let ghost dv = d@;
                out.append(&mut d);
                proof {
                    assert(events_view(out@) =~= seq![event@] + events_view(dv));
                }
                Some(out)
            },
            None => None,
        }
    }

    /// Publishes a list of events of one time, in order, each with its
    /// cascade at most `fuel` levels deep.
    fn cascade_list(&mut self, events: &Vec<Event>, fuel: usize) -> (r: Option<Vec<Event>>)
        requires
            old(self).wf(),
            forall|i: int| 0 <= i < events@.len() ==> #[trigger] events@[i].time == events@[0].time,
            events@.len() > 0 ==> old(self).last_time <= events@[0].time,
        ensures
            final(self).wf(),
            final(self).model().tuples == old(self).model().tuples,
            final(self).model().order == old(self).model().order,
            final(self).model().listeners == old(self).model().listeners,
            final(self).model().last_id == old(self).model().last_id,
            events@.len() > 0 ==> final(self).model().last_time == events@[0].time,
            events@.len() == 0 ==> final(self).model().last_time == old(self).model().last_time,
            match r {
                Some(d) => publish_list(old(self).model().rules, events_view(events@), fuel as nat) == Some((final(self).model().rules, events_view(d@))),
                None => publish_list(old(self).model().rules, events_view(events@), fuel as nat) is None,
            },
        decreases fuel, 1int, events@.len(),
    {
        let ghost evs = events_view(events@);
        let ghost ms0 = rule_models(self.rules@);
        let mut out: Vec<Event> = Vec::new();
        let mut i: usize = 0;
        proof {
            assert(evs.subrange(0, 0) =~= Seq::<SpecEvent>::empty());
            assert(events_view(out@) =~= Seq::<SpecEvent>::empty());
        }
        while i < events.len()
            invariant
                evs == events_view(events@),
                ms0 == rule_models(old(self).rules@),
                i <= events@.len(),
                self.wf(),
                self.model().tuples == old(self).model().tuples,
                self.model().order == old(self).model().order,
                self.model().listeners == old(self).model().listeners,
                self.model().last_id == old(self).model().last_id,
                forall|x: int| 0 <= x < events@.len() ==> #[trigger] events@[x].time == events@[0].time,
                i == 0 ==> self.last_time == old(self).last_time,
                i > 0 ==> self.last_time == events@[0].time,
                events@.len() > 0 ==> old(self).last_time <= events@[0].time,
                publish_list(ms0, evs.subrange(0, i as int), fuel as nat) == Some((rule_models(self.rules@), events_view(out@))),
            decreases events@.len() - i,
        {
            proof {
                let pre = evs.subrange(0, i + 1);
                assert(pre.drop_last() =~= evs.subrange(0, i as int));
                assert(pre.last() == events@[i as int]@);
                assert(events@[i as int].time == events@[0].time);
            }
            let ghost outb = out@;
            match self.cascade(&events[i], fuel) {
                Some(d) => {
                    let mut d = d;
                    let ghost dv = d@;
                    out.append(&mut d);
                    proof {
                        assert(events_view(out@) =~= events_view(outb) + events_view(dv));
                    }
                },
                None => {
                    proof {
                        lemma_publish_list_none(ms0, evs, fuel as nat, i + 1);
                    }
                    return None;
                },
            }
            i = i + 1;
        }
        proof {
            assert(evs.subrange(0, evs.len() as int) =~= evs);
        }
        Some(out)
    }

    /// Publishes an event, which must not be earlier than the last one
    /// published: it is delivered, the rules that mention its type process
    /// it, and the events they derive are published in turn, each right
    /// after the event it was derived from, at most [`MAX_CASCADE`] levels
    /// deep. Gives every event to deliver to the listeners, in order, or
    /// `None` when a rule fails to evaluate or the cascade goes too deep.
    pub fn publish(&mut self, event: &Event) -> (r: Option<Vec<Event>>)
        requires
            old(self).wf(),
            old(self).model().last_time <= event.time,
        ensures
            final(self).wf(),
            final(self).model().tuples == old(self).model().tuples,
            final(self).model().order == old(self).model().order,
            final(self).model().listeners == old(self).model().listeners,
            final(self).model().last_id == old(self).model().last_id,
            final(self).model().last_time == event.time,
            match r {
                Some(d) => publish_cascade(old(self).model().rules, event@, MAX_CASCADE as nat) == Some((final(self).model().rules, events_view(d@))),
                None => publish_cascade(old(self).model().rules, event@, MAX_CASCADE as nat) is None,
            },
    {
        self.cascade(event, MAX_CASCADE)
    }
}


/// Publishing an event that no rule mentions delivers that event alone and
/// changes no rule.
pub proof fn law_unrelated_event(ms: Seq<RuleModel>, e: SpecEvent, fuel: nat)
    requires
        route(ms, e.ty_id) == Seq::<usize>::empty(),
    ensures
        publish_cascade(ms, e, fuel) == Some((ms, seq![e])),
{
    assert(run_rules(ms, route(ms, e.ty_id), e) == Some((ms, Seq::<SpecEvent>::empty())));
}

/// The events a successful publication delivers, in order.
pub open spec fn delivered(ms: Seq<RuleModel>, e: SpecEvent, fuel: nat) -> Seq<SpecEvent> {
    match publish_cascade(ms, e, fuel) {
        Some((_, d)) => d,
        None => Seq::empty(),
    }
}

/// A published event is delivered before anything derived from it.
pub proof fn law_event_delivered_first(ms: Seq<RuleModel>, e: SpecEvent, fuel: nat)
    requires
        publish_cascade(ms, e, fuel) is Some,
    ensures
        delivered(ms, e, fuel).len() >= 1,
        delivered(ms, e, fuel)[0] == e,
{
    match run_rules(ms, route(ms, e.ty_id), e) {
        Some((ms1, derived)) => {
            if derived.len() > 0 && fuel > 0 {
                match publish_list(ms1, derived, (fuel - 1) as nat) {
                    Some((_, d)) => {
                        assert((seq![e] + d)[0] == e);
                    },
                    None => {},
                }
            }
        },
        None => {},
    }
}

/// A subscription identifier greater than every current one is found last,
/// and unsubscribing it gives the subscriptions back as they were.
pub proof fn law_subscribe_then_unsubscribe(listeners: Seq<usize>, id: usize)
    requires
        forall|i: int| 0 <= i < listeners.len() ==> #[trigger] listeners[i] < id,
    ensures
        position_from(listeners.push(id), id, 0) == Some(listeners.len() as int),
        listeners.push(id).remove(listeners.len() as int) == listeners,
{
    let s = listeners.push(id);
    assert forall|k: int| 0 <= k < listeners.len() implies #[trigger] s[k] != id by {
        assert(s[k] == listeners[k]);
    }
    lemma_position_last(s, id, 0);
    assert(s.remove(listeners.len() as int) =~= listeners);
}

/// Where only the last element matches, `position_from` finds it.
proof fn lemma_position_last(s: Seq<usize>, x: usize, k: int)
    requires
        0 <= k < s.len(),
        s[s.len() - 1] == x,
        forall|j: int| 0 <= j < s.len() - 1 ==> #[trigger] s[j] != x,
    ensures
        position_from(s, x, k) == Some(s.len() - 1),
    decreases s.len() - k,
{
    if k < s.len() - 1 {
        lemma_position_last(s, x, k + 1);
    }
}

/// Declaring a tuple type under a name no declared type has makes the name
/// find it.
pub proof fn law_declare_then_lookup(order: Seq<usize>, tuples: Map<usize, TupleDeclaration>, d: TupleDeclaration)
    requires
        forall|i: int| 0 <= i < order.len() ==> tuples.contains_key(#[trigger] order[i]),
        forall|i: int| 0 <= i < order.len() ==> #[trigger] tuples[order[i]].name@ != d.name@,
        !tuples.contains_key(d.id),
    ensures
        first_named(order.push(d.id), tuples.insert(d.id, d), d.name@) == Some(d.id),
    decreases order.len(),
{
    let o = order.push(d.id);
    let t = tuples.insert(d.id, d);
    if order.len() == 0 {
        assert(o[0] == d.id);
    } else {
        assert(o[0] == order[0]);
        assert(order[0] != d.id);
        assert(t[o[0]] == tuples[order[0]]);
        let rest = order.drop_first();
        assert forall|i: int| 0 <= i < rest.len() implies tuples.contains_key(#[trigger] rest[i]) by {
            assert(rest[i] == order[i + 1]);
        }
        assert forall|i: int| 0 <= i < rest.len() implies #[trigger] tuples[rest[i]].name@ != d.name@ by {
            assert(rest[i] == order[i + 1]);
        }
        law_declare_then_lookup(rest, tuples, d);
        assert(o.drop_first() =~= rest.push(d.id));
    }
}

/// Looking a tuple type up by name finds a declared type of that name, the
/// first declared; it finds nothing exactly when no declared type has that
/// name.
pub proof fn law_tuple_lookup(order: Seq<usize>, tuples: Map<usize, TupleDeclaration>, name: Seq<char>)
    requires
        forall|i: int| 0 <= i < order.len() ==> tuples.contains_key(#[trigger] order[i]),
    ensures
        match first_named(order, tuples, name) {
            Some(id) => exists|i: int| 0 <= i < order.len() && order[i] == id && tuples[id].name@ == name
                && forall|k: int| 0 <= k < i ==> #[trigger] tuples[order[k]].name@ != name,
            None => forall|i: int| 0 <= i < order.len() ==> #[trigger] tuples[order[i]].name@ != name,
        },
        first_named(order, tuples, name) matches Some(id) ==> tuples.contains_key(id),
    decreases order.len(),
{
    if order.len() > 0 {
        let rest = order.drop_first();
        assert forall|i: int| 0 <= i < rest.len() implies tuples.contains_key(#[trigger] rest[i]) by {
            assert(rest[i] == order[i + 1]);
        }
        law_tuple_lookup(rest, tuples, name);
        if tuples[order[0]].name@ == name {
            assert(order[0] == order[0] && tuples[order[0]].name@ == name);
        } else {
            match first_named(rest, tuples, name) {
                Some(id) => {
                    let i = choose|i: int| 0 <= i < rest.len() && rest[i] == id && tuples[id].name@ == name
                        && forall|k: int| 0 <= k < i ==> #[trigger] tuples[rest[k]].name@ != name;
                    assert(order[i + 1] == id);
                    assert forall|k: int| 0 <= k < i + 1 implies #[trigger] tuples[order[k]].name@ != name by {
                        if k > 0 {
                            assert(order[k] == rest[k - 1]);
                        }
                    }
                },
                None => {
                    assert forall|i: int| 0 <= i < order.len() implies #[trigger] tuples[order[i]].name@ != name by {
                        if i > 0 {
                            assert(order[i] == rest[i - 1]);
                        }
                    }
                },
            }
        }
    }
}

/// Looking an attribute up by name from position `k` finds the first
/// attribute of that name there or after; it finds nothing exactly when no
/// attribute from `k` on has that name.
pub proof fn law_attribute_lookup(attrs: Seq<crate::tuples::AttributeDeclaration>, name: Seq<char>, k: int)
    requires
        0 <= k,
        attrs.len() <= usize::MAX,
    ensures
        match attribute_index(attrs, name, k) {
            Some(j) => k <= j < attrs.len() && attrs[j as int].name@ == name
                && forall|m: int| k <= m < j ==> #[trigger] attrs[m].name@ != name,
            None => forall|m: int| k <= m < attrs.len() ==> #[trigger] attrs[m].name@ != name,
        },
    decreases attrs.len() - k,
{
    if k < attrs.len() && attrs[k].name@ != name {
        law_attribute_lookup(attrs, name, k + 1);
        match attribute_index(attrs, name, k + 1) {
            Some(j) => {
                assert forall|m: int| k <= m < j implies #[trigger] attrs[m].name@ != name by {
                    if m > k {
                        assert(k + 1 <= m < j);
                    }
                }
            },
            None => {
                assert forall|m: int| k <= m < attrs.len() implies #[trigger] attrs[m].name@ != name by {
                    if m > k {
                        assert(k + 1 <= m < attrs.len());
                    }
                }
            },
        }
    }
}

impl TRex {
    /// What the lookups by name find in a consistent engine: a tuple name
    /// finds a declared type of that name (the first declared), and nothing
    /// exactly when no declared type has that name; an attribute name then
    /// finds the first attribute of that type so named, and nothing exactly
    /// when the type has no attribute so named.
    pub proof fn law_lookups(&self, tuple_name: Seq<char>, attr_name: Seq<char>)
        requires
            self.wf(),
        ensures
            match first_named(self.model().order, self.model().tuples, tuple_name) {
                Some(id) => {
                    &&& self.model().tuples.contains_key(id)
                    &&& self.model().tuples[id].name@ == tuple_name
                    &&& match attribute_index(self.model().tuples[id].attributes@, attr_name, 0) {
                        Some(j) => j < self.model().tuples[id].attributes@.len()
                            && self.model().tuples[id].attributes@[j as int].name@ == attr_name
                            && forall|m: int| 0 <= m < j ==> #[trigger] self.model().tuples[id].attributes@[m].name@ != attr_name,
                        None => forall|m: int| 0 <= m < self.model().tuples[id].attributes@.len()
                            ==> #[trigger] self.model().tuples[id].attributes@[m].name@ != attr_name,
                    }
                },
                None => forall|id: usize| #[trigger] self.model().tuples.contains_key(id) ==> self.model().tuples[id].name@ != tuple_name,
            },
    {
        let order = self.order@;
        let tuples = self.tuples@;
        law_tuple_lookup(order, tuples, tuple_name);
        match first_named(order, tuples, tuple_name) {
            Some(id) => {
                assert(tuples[id].attributes@.len() == tuples[id].attributes.len());
                law_attribute_lookup(tuples[id].attributes@, attr_name, 0);
            },
            None => {
                assert forall|id: usize| #[trigger] tuples.contains_key(id) implies tuples[id].name@ != tuple_name by {
                    assert(order.contains(id));
                    let i = choose|i: int| 0 <= i < order.len() && order[i] == id;
                    assert(tuples[order[i]].name@ != tuple_name);
                }
            },
        }
    }
}

} // verus!
