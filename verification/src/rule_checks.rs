//! The type checks a rule goes through before it is defined, and the types
//! they give to the rule's parameters.

use vstd::prelude::*;
use std::collections::HashMap;
use linear_map::LinearMap;
use crate::expressions::{BasicType, Expression, type_of};
use crate::linear_maps::{get_type_value, insert_type_value, new_type_map, type_values};
use crate::operations::binary::{binary_type, binary_type_error};
use crate::operations::unary::{unary_type, unary_type_error};
use crate::operations::{binary, unary};
use crate::predicates::{Aggregator, ParameterDeclaration, Predicate, PredicateType, SpecPredicate, SpecPredicateType};
use crate::tuples::{Rule, TupleDeclaration, TupleType, attribute_types};

verus! {

/// What an expression being typed may refer to besides parameters: nothing,
/// the attributes of a tuple (by their types), or an aggregate (by its type).
pub enum Scope {
    Empty,
    Tuple(Seq<BasicType>),
    Aggr(BasicType),
}

/// The type of an expression, or the error that explains why it has none.
pub open spec fn infer(e: Expression, scope: Scope, params: Map<(usize, usize), BasicType>) -> Result<BasicType, Seq<char>>
    decreases e,
{
    match e {
        Expression::Immediate { value } => Ok(type_of(value@)),
        Expression::Reference { attribute } => match scope {
            Scope::Tuple(ts) => if attribute < ts.len() {
                Ok(ts[attribute as int])
            } else {
                Err("Reference to an unknown attribute"@)
            },
            _ => Err("Reference outside of a tuple"@),
        },
        Expression::Aggregate => match scope {
            Scope::Aggr(t) => Ok(t),
            _ => Err("Aggregate outside of an aggregate computation"@),
        },
        Expression::Parameter { predicate, parameter } => if params.contains_key((predicate, parameter)) {
            Ok(params[(predicate, parameter)])
        } else {
            Err("Reference to an unknown parameter"@)
        },
        Expression::Cast { ty, expression } => match infer(*expression, scope, params) {
            Ok(t) => if ty == BasicType::Float && t == BasicType::Int {
                Ok(BasicType::Float)
            } else {
                Err("Wrong casting"@)
            },
            Err(m) => Err(m),
        },
        Expression::UnaryOperation { operator, expression } => match infer(*expression, scope, params) {
            Ok(t) => match unary_type(operator, t) {
                Some(r) => Ok(r),
                None => Err(unary_type_error(operator)),
            },
            Err(m) => Err(m),
        },
        Expression::BinaryOperation { operator, left, right } => match infer(*left, scope, params) {
            Ok(l) => match infer(*right, scope, params) {
                Ok(r) => match binary_type(operator, l, r) {
                    Some(t) => Ok(t),
                    None => Err(binary_type_error(operator)),
                },
                Err(m) => Err(m),
            },
            Err(m) => Err(m),
        },
    }
}

/// Whether every constraint of a list is boolean, checked in order: the
/// first error met, if any.
pub open spec fn check_constraints(v: Seq<Expression>, scope: Scope, params: Map<(usize, usize), BasicType>) -> Result<(), Seq<char>>
    decreases v.len(),
{
    if v.len() == 0 {
        Ok(())
    } else {
        match check_constraints(v.drop_last(), scope, params) {
            Ok(_) => match infer(v.last(), scope, params) {
                Ok(t) => if t == BasicType::Bool {
                    Ok(())
                } else {
                    Err("Non boolean contraint"@)
                },
                Err(m) => Err(m),
            },
            Err(m) => Err(m),
        }
    }
}

/// The parameter types after typing, in order, the parameters of predicate
/// `i`: parameter `j` is `(i, j)`, and each may refer to those before it.
pub open spec fn bind_types(ps: Seq<ParameterDeclaration>, i: usize, scope: Scope, params: Map<(usize, usize), BasicType>) -> Result<Map<(usize, usize), BasicType>, Seq<char>>
    decreases ps.len(),
{
    if ps.len() == 0 {
        Ok(params)
    } else {
        match bind_types(ps.drop_last(), i, scope, params) {
            Ok(m) => match infer(ps.last().expression, scope, m) {
                Ok(t) => Ok(m.insert((i, (ps.len() - 1) as usize), t)),
                Err(e) => Err(e),
            },
            Err(e) => Err(e),
        }
    }
}

/// Whether the attribute an aggregator reads exists among `ts`.
pub open spec fn aggregate_index_ok(a: Aggregator, ts: Seq<BasicType>) -> bool {
    match a {
        Aggregator::Avg(i) | Aggregator::Sum(i) | Aggregator::Min(i) | Aggregator::Max(i) => i < ts.len(),
        Aggregator::Count => true,
    }
}

/// The type of an aggregate over attributes of types `ts`: a float for an
/// average, the attribute's type for a sum, a minimum or a maximum, an
/// integer for a count; an error for a non-numeric attribute.
pub open spec fn aggregate_type(a: Aggregator, ts: Seq<BasicType>) -> Result<BasicType, Seq<char>> {
    match a {
        Aggregator::Avg(i) => if ts[i as int] == BasicType::Int || ts[i as int] == BasicType::Float {
            Ok(BasicType::Float)
        } else {
            Err("Wrong attribute type in aggregate computation"@)
        },
        Aggregator::Sum(i) | Aggregator::Min(i) | Aggregator::Max(i) => if ts[i as int] == BasicType::Int || ts[i as int] == BasicType::Float {
            Ok(ts[i as int])
        } else {
            Err("Wrong attribute type in aggregate computation"@)
        },
        Aggregator::Count => Ok(BasicType::Int),
    }
}

/// The parameter types after typing predicate `i`, or the first error.
pub open spec fn check_predicate(i: usize, p: SpecPredicate, tuples: Map<usize, TupleDeclaration>, params: Map<(usize, usize), BasicType>) -> Result<Map<(usize, usize), BasicType>, Seq<char>> {
    if !tuples.contains_key(p.ty_id) {
        Err("Predicate refers to unknown tuple"@)
    } else {
        let scope = Scope::Tuple(attribute_types(tuples[p.ty_id]));
        match p.ty {
            SpecPredicateType::Trigger { parameters } | SpecPredicateType::Event { parameters, .. }
            | SpecPredicateType::OrderedStatic { parameters, .. } | SpecPredicateType::UnorderedStatic {
                parameters,
            } => match bind_types(parameters, i, scope, params) {
                Ok(m) => match check_constraints(p.constraints, scope, m) {
                    Ok(_) => Ok(m),
                    Err(e) => Err(e),
                },
                Err(e) => Err(e),
            },
            SpecPredicateType::EventAggregate { aggregator, parameter, .. }
            | SpecPredicateType::StaticAggregate { aggregator, parameter } => match check_constraints(p.constraints, scope, params) {
                Ok(_) => match aggregate_type(aggregator, attribute_types(tuples[p.ty_id])) {
                    Ok(t) => match infer(parameter.expression, Scope::Aggr(t), params) {
                        Ok(pt) => Ok(params.insert((i, 0usize), pt)),
                        Err(e) => Err(e),
                    },
                    Err(e) => Err(e),
                },
                Err(e) => Err(e),
            },
            SpecPredicateType::EventNegation { .. } | SpecPredicateType::StaticNegation => match check_constraints(p.constraints, scope, params) {
                Ok(_) => Ok(params),
                Err(e) => Err(e),
            },
        }
    }
}

/// Whether typing predicate `i` reaches an aggregate over an attribute that
/// its tuple does not have.
pub open spec fn bad_aggregate_at(i: usize, p: SpecPredicate, tuples: Map<usize, TupleDeclaration>, params: Map<(usize, usize), BasicType>) -> bool {
    &&& tuples.contains_key(p.ty_id)
    &&& match p.ty {
        SpecPredicateType::EventAggregate { aggregator, .. } | SpecPredicateType::StaticAggregate { aggregator, .. } => {
            let ts = attribute_types(tuples[p.ty_id]);
            check_constraints(p.constraints, Scope::Tuple(ts), params) is Ok && !aggregate_index_ok(aggregator, ts)
        },
        _ => false,
    }
}

/// The parameter types after typing the predicates in order, or the first
/// error.
pub open spec fn check_predicates(ps: Seq<SpecPredicate>, tuples: Map<usize, TupleDeclaration>) -> Result<Map<(usize, usize), BasicType>, Seq<char>>
    decreases ps.len(),
{
    if ps.len() == 0 {
        Ok(Map::empty())
    } else {
        match check_predicates(ps.drop_last(), tuples) {
            Ok(m) => check_predicate((ps.len() - 1) as usize, ps.last(), tuples, m),
            Err(e) => Err(e),
        }
    }
}

/// Whether typing the predicates in order reaches an aggregate over an
/// attribute that its tuple does not have.
pub open spec fn reaches_bad_aggregate(ps: Seq<SpecPredicate>, tuples: Map<usize, TupleDeclaration>) -> bool
    decreases ps.len(),
{
    if ps.len() == 0 {
        false
    } else {
        ||| reaches_bad_aggregate(ps.drop_last(), tuples)
        ||| (check_predicates(ps.drop_last(), tuples) matches Ok(m) && bad_aggregate_at((ps.len() - 1) as usize, ps.last(), tuples, m))
    }
}

/// Whether each template expression has the type of its attribute, checked
/// in order: the first error met, if any.
pub open spec fn template_types(attrs: Seq<Expression>, ts: Seq<BasicType>, params: Map<(usize, usize), BasicType>) -> Result<(), Seq<char>>
    decreases attrs.len(),
{
    if attrs.len() == 0 {
        Ok(())
    } else {
        match template_types(attrs.drop_last(), ts, params) {
            Ok(_) => match infer(attrs.last(), Scope::Empty, params) {
                Ok(t) => if t == ts[attrs.len() - 1] {
                    Ok(())
                } else {
                    Err("Wrong attribute assignment"@)
                },
                Err(e) => Err(e),
            },
            Err(e) => Err(e),
        }
    }
}

/// Whether the event template fits the declaration of the event it emits.
pub open spec fn check_template(ty_id: usize, attrs: Seq<Expression>, tuples: Map<usize, TupleDeclaration>, params: Map<(usize, usize), BasicType>) -> Result<(), Seq<char>> {
    if !tuples.contains_key(ty_id) {
        Err("The rule produce an unknown event"@)
    } else if tuples[ty_id].ty != TupleType::Event {
        Err("The rule produce a static tuple"@)
    } else if tuples[ty_id].attributes@.len() != attrs.len() {
        Err("Wrong number of attributes in event template"@)
    } else {
        template_types(attrs, attribute_types(tuples[ty_id]), params)
    }
}

/// The models of a list of predicates.
pub open spec fn predicates_view(v: Seq<Predicate>) -> Seq<SpecPredicate> {
    v.map_values(|p: Predicate| p@)
}

/// The outcome of checking a rule: the types of its parameters, or the
/// first error met typing its predicates, then its filters, then its event
/// template.
pub open spec fn rule_check(rule: Rule, tuples: Map<usize, TupleDeclaration>) -> Result<Map<(usize, usize), BasicType>, Seq<char>> {
    match check_predicates(predicates_view(rule.predicates@), tuples) {
        Ok(m) => match check_constraints(rule.filters@, Scope::Empty, m) {
            Ok(_) => match check_template(rule.event_template.ty_id, rule.event_template.attributes@, tuples, m) {
                Ok(_) => Ok(m),
                Err(e) => Err(e),
            },
            Err(e) => Err(e),
        },
        Err(e) => Err(e),
    }
}

/// What the expressions being typed may refer to besides parameters.
#[derive(Debug)]
pub enum CurrentType<'a> {
    Empty,
    Tuple(&'a TupleDeclaration),
    Aggr(BasicType),
}

/// The scope a current type gives.
pub open spec fn scope_of(c: CurrentType) -> Scope {
    match c {
        CurrentType::Empty => Scope::Empty,
        CurrentType::Tuple(t) => Scope::Tuple(attribute_types(*t)),
        CurrentType::Aggr(ty) => Scope::Aggr(ty),
    }
}

/// The state of the type inference of a rule: the current scope and the
/// types of the parameters seen so far.
#[derive(Debug)]
pub struct InferenceContext<'a> {
    current: CurrentType<'a>,
    params: LinearMap<(usize, usize), BasicType>,
}

impl<'a> InferenceContext<'a> {
    /// The current scope.
    pub closed spec fn scope(&self) -> Scope {
        scope_of(self.current)
    }

    /// The types of the parameters seen so far.
    pub closed spec fn param_types(&self) -> Map<(usize, usize), BasicType> {
        type_values(self.params)
    }

    pub fn new() -> (r: Self)
        ensures
            r.scope() == Scope::Empty,
            r.param_types() == Map::<(usize, usize), BasicType>::empty(),
    {
        let params = new_type_map();
        let r = InferenceContext { current: CurrentType::Empty, params };
        proof {
            assert(type_values(r.params) =~= Map::<(usize, usize), BasicType>::empty());
        }
        r
    }

    /// The same context with another scope.
    pub fn set_current(self, current: CurrentType<'a>) -> (r: Self)
        ensures
            r.scope() == scope_of(current),
            r.param_types() == self.param_types(),
    {
        InferenceContext { current, params: self.params }
    }

    /// The same context with an empty scope.
    pub fn reset_current(self) -> (r: Self)
        ensures
            r.scope() == Scope::Empty,
            r.param_types() == self.param_types(),
    {
        InferenceContext { current: CurrentType::Empty, params: self.params }
    }

    /// The same context with one more parameter type.
    pub fn add_parameter(self, idx: (usize, usize), ty: BasicType) -> (r: Self)
        ensures
            r.scope() == self.scope(),
            r.param_types() == self.param_types().insert(idx, ty),
    {
        let mut params = self.params;
        insert_type_value(&mut params, idx, ty);
        InferenceContext { current: self.current, params }
    }

    /// The parameter types collected.
    pub fn get_params(self) -> (r: LinearMap<(usize, usize), BasicType>)
        ensures
            type_values(r) == self.param_types(),
    {
        self.params
    }

    /// The type of an expression in this context, or the first error met.
    pub fn infer_expression(&self, expression: &Expression) -> (r: Result<BasicType, String>)
        ensures
            match r {
                Ok(t) => infer(*expression, self.scope(), self.param_types()) == Ok::<BasicType, Seq<char>>(t),
                Err(m) => infer(*expression, self.scope(), self.param_types()) == Err::<BasicType, Seq<char>>(m@),
            },
        decreases expression,
    {
        match expression {
            Expression::Immediate { value } => Ok(value.get_type()),
            Expression::Reference { attribute } => match self.current {
                CurrentType::Tuple(t) => if *attribute < t.attributes.len() {
                    Ok(t.attributes[*attribute].ty)
                } else {
                    Err(String::from_str("Reference to an unknown attribute"))
                },
                _ => Err(String::from_str("Reference outside of a tuple")),
            },
            Expression::Aggregate => match self.current {
                CurrentType::Aggr(t) => Ok(t),
                _ => Err(String::from_str("Aggregate outside of an aggregate computation")),
            },
            Expression::Parameter { predicate, parameter } => match get_type_value(&self.params, &(*predicate, *parameter)) {
                Some(t) => Ok(t),
                None => Err(String::from_str("Reference to an unknown parameter")),
            },
            Expression::Cast { ty, expression } => match self.infer_expression(expression) {
                Ok(t) => match (ty, t) {
                    (BasicType::Float, BasicType::Int) => Ok(BasicType::Float),
                    _ => Err(String::from_str("Wrong casting")),
                },
                Err(m) => Err(m),
            },
            Expression::UnaryOperation { operator, expression } => match self.infer_expression(expression) {
                Ok(t) => unary::get_type(operator, &t),
                Err(m) => Err(m),
            },
            Expression::BinaryOperation { operator, left, right } => match self.infer_expression(left) {
                Ok(l) => match self.infer_expression(right) {
                    Ok(r) => binary::get_type(operator, &l, &r),
                    Err(m) => Err(m),
                },
                Err(m) => Err(m),
            },
        }
    }
}


/// The type of an aggregate over an attribute of `tuple`, or the error for a
/// non-numeric attribute. The attribute must exist.
pub fn get_type(aggregator: &Aggregator, tuple: &TupleDeclaration) -> (r: Result<BasicType, String>)
    requires
        aggregate_index_ok(*aggregator, attribute_types(*tuple)),
    ensures
        match r {
            Ok(t) => aggregate_type(*aggregator, attribute_types(*tuple)) == Ok::<BasicType, Seq<char>>(t),
            Err(m) => aggregate_type(*aggregator, attribute_types(*tuple)) == Err::<BasicType, Seq<char>>(m@),
        },
{
    match aggregator {
        Aggregator::Avg(i) => match tuple.attributes[*i].ty {
            BasicType::Int | BasicType::Float => Ok(BasicType::Float),
            _ => Err(String::from_str("Wrong attribute type in aggregate computation")),
        },
        Aggregator::Sum(i) | Aggregator::Min(i) | Aggregator::Max(i) => match tuple.attributes[*i].ty {
            BasicType::Int => Ok(BasicType::Int),
            BasicType::Float => Ok(BasicType::Float),
            _ => Err(String::from_str("Wrong attribute type in aggregate computation")),
        },
        Aggregator::Count => Ok(BasicType::Int),
    }
}

/// Checks that every constraint is boolean, in order; the context comes back
/// unchanged, or the first error.
fn type_check_constraints<'a>(constraints: &Vec<Expression>, ctx: InferenceContext<'a>) -> (r: Result<InferenceContext<'a>, String>)
    ensures
        match r {
            Ok(c) => check_constraints(constraints@, ctx.scope(), ctx.param_types()) is Ok && c.scope() == ctx.scope() && c.param_types() == ctx.param_types(),
            Err(m) => check_constraints(constraints@, ctx.scope(), ctx.param_types()) == Err::<(), Seq<char>>(m@),
        },
{
    let ghost scope = ctx.scope();
    let ghost params = ctx.param_types();
    let mut i: usize = 0;
    proof {
        assert(constraints@.subrange(0, 0) =~= Seq::<Expression>::empty());
    }
    while i < constraints.len()
        invariant
            i <= constraints@.len(),
            ctx.scope() == scope,
            ctx.param_types() == params,
            check_constraints(constraints@.subrange(0, i as int), scope, params) is Ok,
        decreases constraints@.len() - i,
    {
        proof {
            let pre = constraints@.subrange(0, i + 1);
            assert(pre.drop_last() =~= constraints@.subrange(0, i as int));
            assert(pre.last() == constraints@[i as int]);
        }
        match ctx.infer_expression(&constraints[i]) {
            Ok(BasicType::Bool) => {},
            Ok(_) => {
                proof {
                    lemma_constraints_err(constraints@, i + 1, scope, params);
                }
                return Err(String::from_str("Non boolean contraint"));
            },
            Err(m) => {
                proof {
                    lemma_constraints_err(constraints@, i + 1, scope, params);
                }
                return Err(m);
            },
        }
        i = i + 1;
    }
    proof {
        assert(constraints@.subrange(0, constraints@.len() as int) =~= constraints@);
    }
    Ok(ctx)
}

/// Once a prefix of the constraints fails to check, the whole list fails
/// with the same error.
proof fn lemma_constraints_err(v: Seq<Expression>, k: int, scope: Scope, params: Map<(usize, usize), BasicType>)
    requires
        0 <= k <= v.len(),
        check_constraints(v.subrange(0, k), scope, params) is Err,
    ensures
        check_constraints(v, scope, params) == check_constraints(v.subrange(0, k), scope, params),
    decreases v.len() - k,
{
    if k < v.len() {
        assert(v.subrange(0, k + 1).drop_last() =~= v.subrange(0, k));
        lemma_constraints_err(v, k + 1, scope, params);
    } else {
        assert(v.subrange(0, k) =~= v);
    }
}

/// Once a prefix of the parameters fails to type, the whole list fails with
/// the same error.
proof fn lemma_bind_types_err(ps: Seq<ParameterDeclaration>, k: int, i: usize, scope: Scope, params: Map<(usize, usize), BasicType>)
    requires
        0 <= k <= ps.len(),
        bind_types(ps.subrange(0, k), i, scope, params) is Err,
    ensures
        bind_types(ps, i, scope, params) == bind_types(ps.subrange(0, k), i, scope, params),
    decreases ps.len() - k,
{
    if k < ps.len() {
        assert(ps.subrange(0, k + 1).drop_last() =~= ps.subrange(0, k));
        lemma_bind_types_err(ps, k + 1, i, scope, params);
    } else {
        assert(ps.subrange(0, k) =~= ps);
    }
}

/// Types the parameters of predicate `i` in order, each added to the context.
fn type_check_parameters<'a>(i: usize, parameters: &Vec<ParameterDeclaration>, start: InferenceContext<'a>) -> (r: Result<InferenceContext<'a>, String>)
    ensures
        match r {
            Ok(c) => bind_types(parameters@, i, start.scope(), start.param_types()) == Ok::<Map<(usize, usize), BasicType>, Seq<char>>(c.param_types()) && c.scope() == start.scope(),
            Err(m) => bind_types(parameters@, i, start.scope(), start.param_types()) == Err::<Map<(usize, usize), BasicType>, Seq<char>>(m@),
        },
{
    let ghost scope = start.scope();
    let ghost params = start.param_types();
    let mut ctx = start;
    let mut j: usize = 0;
    proof {
        assert(parameters@.subrange(0, 0) =~= Seq::<ParameterDeclaration>::empty());
    }
    while j < parameters.len()
        invariant
            j <= parameters@.len(),
            scope == start.scope(),
            params == start.param_types(),
            ctx.scope() == scope,
            bind_types(parameters@.subrange(0, j as int), i, scope, params) == Ok::<Map<(usize, usize), BasicType>, Seq<char>>(ctx.param_types()),
        decreases parameters@.len() - j,
    {
        proof {
            let pre = parameters@.subrange(0, j + 1);
            assert(pre.drop_last() =~= parameters@.subrange(0, j as int));
            assert(pre.last() == parameters@[j as int]);
        }
        match ctx.infer_expression(&parameters[j].expression) {
            Ok(t) => {
                ctx = ctx.add_parameter((i, j), t);
            },
            Err(m) => {
                proof {
                    lemma_bind_types_err(parameters@, j + 1, i, scope, params);
                }
                return Err(m);
            },
        }
        j = j + 1;
    }
    proof {
        assert(parameters@.subrange(0, parameters@.len() as int) =~= parameters@);
    }
    Ok(ctx)
}

/// Whether the attribute an aggregator reads exists in `tuple`.
pub(crate) fn aggregate_fits(aggregator: &Aggregator, tuple: &TupleDeclaration) -> (r: bool)
    ensures
        r == aggregate_index_ok(*aggregator, attribute_types(*tuple)),
{
    match aggregator {
        Aggregator::Avg(i) | Aggregator::Sum(i) | Aggregator::Min(i) | Aggregator::Max(i) => *i < tuple.attributes.len(),
        Aggregator::Count => true,
    }
}

/// Types predicate `i`: its parameters, then its constraints; for an
/// aggregate, its constraints, then the aggregate, then its parameter.
/// `None` where typing reaches an aggregate over a missing attribute.
fn type_check_predicate<'a>(i: usize, pred: &'a Predicate, tuples: &'a HashMap<usize, TupleDeclaration>, ctx: InferenceContext<'a>) -> (r: Option<Result<InferenceContext<'a>, String>>)
    ensures
        r is None <==> bad_aggregate_at(i, pred@, tuples@, ctx.param_types()),
        match r {
            Some(Ok(c)) => check_predicate(i, pred@, tuples@, ctx.param_types()) == Ok::<Map<(usize, usize), BasicType>, Seq<char>>(c.param_types()),
            Some(Err(m)) => check_predicate(i, pred@, tuples@, ctx.param_types()) == Err::<Map<(usize, usize), BasicType>, Seq<char>>(m@),
            None => true,
        },
{
    broadcast use vstd::std_specs::hash::group_hash_axioms;
    let ghost params = ctx.param_types();
    let tuple = match tuples.get(&pred.tuple.ty_id) {
        Some(t) => t,
        None => return Some(Err(String::from_str("Predicate refers to unknown tuple"))),
    };
    match &pred.ty {
        PredicateType::Trigger { parameters } | PredicateType::Event { parameters, .. }
        | PredicateType::OrderedStatic { parameters, .. } | PredicateType::UnorderedStatic { parameters } => {
            Some(match type_check_parameters(i, parameters, ctx.set_current(CurrentType::Tuple(tuple))) {
                Ok(c) => type_check_constraints(&pred.tuple.constraints, c),
                Err(m) => Err(m),
            })
        },
        PredicateType::EventAggregate { aggregator, parameter, .. }
        | PredicateType::StaticAggregate { aggregator, parameter } => {
            let c = match type_check_constraints(&pred.tuple.constraints, ctx.set_current(CurrentType::Tuple(tuple))) {
                Ok(c) => c,
                Err(m) => return Some(Err(m)),
            };
            if !aggregate_fits(aggregator, tuple) {
                return None;
            }
            let ty = match get_type(aggregator, tuple) {
                Ok(t) => t,
                Err(m) => return Some(Err(m)),
            };
            let c = c.set_current(CurrentType::Aggr(ty));
            Some(match c.infer_expression(&parameter.expression) {
                Ok(pt) => Ok(c.add_parameter((i, 0), pt)),
                Err(m) => Err(m),
            })
        },
        PredicateType::EventNegation { .. } | PredicateType::StaticNegation => {
            Some(type_check_constraints(&pred.tuple.constraints, ctx.set_current(CurrentType::Tuple(tuple))))
        },
    }
}


/// Once a prefix of the template fails to type, the whole template fails
/// with the same error.
proof fn lemma_template_err(attrs: Seq<Expression>, k: int, ts: Seq<BasicType>, params: Map<(usize, usize), BasicType>)
    requires
        0 <= k <= attrs.len(),
        template_types(attrs.subrange(0, k), ts, params) is Err,
    ensures
        template_types(attrs, ts, params) == template_types(attrs.subrange(0, k), ts, params),
    decreases attrs.len() - k,
{
    if k < attrs.len() {
        assert(attrs.subrange(0, k + 1).drop_last() =~= attrs.subrange(0, k));
        lemma_template_err(attrs, k + 1, ts, params);
    } else {
        assert(attrs.subrange(0, k) =~= attrs);
    }
}

/// Checks that the event template fits the declaration of the event it
/// emits: a declared event type, as many expressions as attributes, each of
/// its attribute's type.
fn type_check_template<'a>(ty_id: usize, attributes: &Vec<Expression>, tuples: &'a HashMap<usize, TupleDeclaration>, ctx: InferenceContext<'a>) -> (r: Result<InferenceContext<'a>, String>)
    requires
        ctx.scope() == Scope::Empty,
    ensures
        match r {
            Ok(c) => check_template(ty_id, attributes@, tuples@, ctx.param_types()) is Ok && c.param_types() == ctx.param_types(),
            Err(m) => check_template(ty_id, attributes@, tuples@, ctx.param_types()) == Err::<(), Seq<char>>(m@),
        },
{
    broadcast use vstd::std_specs::hash::group_hash_axioms;
    let ghost params = ctx.param_types();
    let tuple = match tuples.get(&ty_id) {
        Some(t) => t,
        None => return Err(String::from_str("The rule produce an unknown event")),
    };
    match tuple.ty {
        TupleType::Event => {},
        _ => return Err(String::from_str("The rule produce a static tuple")),
    }
    if tuple.attributes.len() != attributes.len() {
        return Err(String::from_str("Wrong number of attributes in event template"));
    }
    let ghost ts = attribute_types(*tuple);
    let mut j: usize = 0;
    proof {
        assert(attributes@.subrange(0, 0) =~= Seq::<Expression>::empty());
    }
    while j < attributes.len()
        invariant
            j <= attributes@.len(),
            attributes@.len() == tuple.attributes@.len(),
            tuples@.contains_key(ty_id),
            tuples@[ty_id] == *tuple,
            tuple.ty == TupleType::Event,
            ts == attribute_types(*tuple),
            ctx.scope() == Scope::Empty,
            ctx.param_types() == params,
            template_types(attributes@.subrange(0, j as int), ts, params) is Ok,
        decreases attributes@.len() - j,
    {
        proof {
            let pre = attributes@.subrange(0, j + 1);
            assert(pre.drop_last() =~= attributes@.subrange(0, j as int));
            assert(pre.last() == attributes@[j as int]);
        }
        match ctx.infer_expression(&attributes[j]) {
            Ok(t) => {
                if t != tuple.attributes[j].ty {
                    proof {
                        lemma_template_err(attributes@, j + 1, ts, params);
                    }
                    return Err(String::from_str("Wrong attribute assignment"));
                }
            },
            Err(m) => {
                proof {
                    lemma_template_err(attributes@, j + 1, ts, params);
                }
                return Err(m);
            },
        }
        j = j + 1;
    }
    proof {
        assert(attributes@.subrange(0, attributes@.len() as int) =~= attributes@);
    }
    Ok(ctx)
}

/// Once typing a prefix of the predicates fails, typing them all fails with
/// the same error.
proof fn lemma_predicates_err(ps: Seq<SpecPredicate>, k: int, tuples: Map<usize, TupleDeclaration>)
    requires
        0 <= k <= ps.len(),
        check_predicates(ps.subrange(0, k), tuples) is Err,
    ensures
        check_predicates(ps, tuples) == check_predicates(ps.subrange(0, k), tuples),
    decreases ps.len() - k,
{
    if k < ps.len() {
        assert(ps.subrange(0, k + 1).drop_last() =~= ps.subrange(0, k));
        lemma_predicates_err(ps, k + 1, tuples);
    } else {
        assert(ps.subrange(0, k) =~= ps);
    }
}

/// A prefix of predicates that reaches a bad aggregate makes the whole list
/// reach it.
proof fn lemma_bad_prefix(ps: Seq<SpecPredicate>, k: int, tuples: Map<usize, TupleDeclaration>)
    requires
        0 <= k <= ps.len(),
        reaches_bad_aggregate(ps.subrange(0, k), tuples),
    ensures
        reaches_bad_aggregate(ps, tuples),
    decreases ps.len() - k,
{
    if k < ps.len() {
        assert(ps.subrange(0, k + 1).drop_last() =~= ps.subrange(0, k));
        lemma_bad_prefix(ps, k + 1, tuples);
    } else {
        assert(ps.subrange(0, k) =~= ps);
    }
}

/// Once typing a prefix of the predicates fails before any bad aggregate,
/// no bad aggregate is reached.
proof fn lemma_no_bad_after_err(ps: Seq<SpecPredicate>, k: int, tuples: Map<usize, TupleDeclaration>)
    requires
        0 <= k <= ps.len(),
        check_predicates(ps.subrange(0, k), tuples) is Err,
        !reaches_bad_aggregate(ps.subrange(0, k), tuples),
    ensures
        !reaches_bad_aggregate(ps, tuples),
    decreases ps.len() - k,
{
    if k < ps.len() {
        assert(ps.subrange(0, k + 1).drop_last() =~= ps.subrange(0, k));
        lemma_no_bad_after_err(ps, k + 1, tuples);
    } else {
        assert(ps.subrange(0, k) =~= ps);
    }
}

/// Type-checks a rule against the declared tuples, as [`check_rule`] does,
/// or `None` where the check reaches an aggregate over an attribute its
/// tuple does not have.
pub fn checked_rule(rule: &Rule, tuples: &HashMap<usize, TupleDeclaration>) -> (r: Option<Result<LinearMap<(usize, usize), BasicType>, String>>)
    ensures
        r is None <==> reaches_bad_aggregate(predicates_view(rule.predicates@), tuples@),
        match r {
            Some(Ok(m)) => rule_check(*rule, tuples@) == Ok::<Map<(usize, usize), BasicType>, Seq<char>>(type_values(m)),
            Some(Err(e)) => rule_check(*rule, tuples@) == Err::<Map<(usize, usize), BasicType>, Seq<char>>(e@),
            None => true,
        },
{
    let ghost ps = predicates_view(rule.predicates@);
    let mut ctx = InferenceContext::new();
    let mut i: usize = 0;
    proof {
        assert(ps.subrange(0, 0) =~= Seq::<SpecPredicate>::empty());
    }
    while i < rule.predicates.len()
        invariant
            ps == predicates_view(rule.predicates@),
            i <= ps.len(),
            !reaches_bad_aggregate(ps.subrange(0, i as int), tuples@),
            check_predicates(ps.subrange(0, i as int), tuples@) == Ok::<Map<(usize, usize), BasicType>, Seq<char>>(ctx.param_types()),
        decreases ps.len() - i,
    {
        let ghost params = ctx.param_types();
        proof {
            let pre = ps.subrange(0, i + 1);
            assert(pre.drop_last() =~= ps.subrange(0, i as int));
            assert(pre.last() == rule.predicates@[i as int]@);
        }
        match type_check_predicate(i, &rule.predicates[i], tuples, ctx.reset_current()) {
            Some(Ok(c)) => {
                ctx = c;
            },
            Some(Err(m)) => {
                proof {
                    lemma_predicates_err(ps, i + 1, tuples@);
                    lemma_no_bad_after_err(ps, i + 1, tuples@);
                }
                return Some(Err(m));
            },
            None => {
                proof {
                    assert(bad_aggregate_at(i, ps[i as int], tuples@, params));
                    assert(reaches_bad_aggregate(ps.subrange(0, i + 1), tuples@));
                    lemma_bad_prefix(ps, i + 1, tuples@);
                }
                return None;
            },
        }
        i = i + 1;
    }
    proof {
        assert(ps.subrange(0, ps.len() as int) =~= ps);
    }
    let ctx = match type_check_constraints(&rule.filters, ctx.reset_current()) {
        Ok(c) => c,
        Err(m) => return Some(Err(m)),
    };
    let ctx = match type_check_template(rule.event_template.ty_id, &rule.event_template.attributes, tuples, ctx.reset_current()) {
        Ok(c) => c,
        Err(m) => return Some(Err(m)),
    };
    Some(Ok(ctx.get_params()))
}

/// Type-checks a rule against the declared tuples: its predicates in order,
/// then its filters, then its event template. Gives the types of its
/// parameters, or the first error met.
pub fn check_rule(rule: &Rule, tuples: &HashMap<usize, TupleDeclaration>) -> (r: Result<LinearMap<(usize, usize), BasicType>, String>)
    requires
        !reaches_bad_aggregate(predicates_view(rule.predicates@), tuples@),
    ensures
        match r {
            Ok(m) => rule_check(*rule, tuples@) == Ok::<Map<(usize, usize), BasicType>, Seq<char>>(type_values(m)),
            Err(e) => rule_check(*rule, tuples@) == Err::<Map<(usize, usize), BasicType>, Seq<char>>(e@),
        },
{
    match checked_rule(rule, tuples) {
        Some(r) => r,
        None => {
            proof {
                assert(false);
            }
            Err(String::new())
        },
    }
}


/// Whether an evaluation environment agrees with the scope and parameter
/// types an expression was typed in: the attributes, the aggregate and every
/// typed parameter are there, with the types the checks gave them.
pub open spec fn env_agrees(env: crate::evaluation::EvalEnv, scope: Scope, params: Map<(usize, usize), BasicType>) -> bool {
    &&& match scope {
        Scope::Tuple(ts) => env.attrs matches Some(a) && a.len() == ts.len() && forall|k: int| 0 <= k < ts.len() ==> #[trigger] type_of(a[k]) == ts[k],
        Scope::Aggr(t) => env.aggr matches Some(v) && type_of(v) == t,
        Scope::Empty => true,
    }
    &&& forall|k: (usize, usize)| #[trigger] params.contains_key(k) ==> (env.params matches Some(m) && m.contains_key(k) && type_of(m[k]) == params[k])
}

/// The type checks are sound: an expression typed `t` in a scope evaluates,
/// in any environment that agrees with that scope and those parameter
/// types, to a value of type `t` whenever its evaluation succeeds.
pub proof fn law_inference_sound(e: Expression, scope: Scope, params: Map<(usize, usize), BasicType>, env: crate::evaluation::EvalEnv)
    requires
        infer(e, scope, params) is Ok,
        env_agrees(env, scope, params),
        crate::evaluation::eval(e, env) is Some,
    ensures
        type_of(crate::evaluation::eval(e, env)->0) == infer(e, scope, params)->Ok_0,
    decreases e,
{
    match e {
        Expression::Reference { attribute } => {
            match scope {
                Scope::Tuple(ts) => {
                    assert(type_of(env.attrs->0[attribute as int]) == ts[attribute as int]);
                },
                _ => {},
            }
        },
        Expression::Parameter { predicate, parameter } => {
            assert(params.contains_key((predicate, parameter)));
        },
        Expression::UnaryOperation { operator, expression } => {
            law_inference_sound(*expression, scope, params, env);
            let v = crate::evaluation::eval(*expression, env)->0;
            crate::operations::unary::lemma_unary_type_sound(operator, v);
        },
        Expression::BinaryOperation { operator, left, right } => {
            law_inference_sound(*left, scope, params, env);
            law_inference_sound(*right, scope, params, env);
            let l = crate::evaluation::eval(*left, env)->0;
            let r = crate::evaluation::eval(*right, env)->0;
            crate::operations::binary::lemma_binary_type_sound(operator, l, r);
        },
        _ => {},
    }
}


/// Predicates that type-check all refer to declared tuple types.
pub proof fn lemma_checked_predicates_declared(ps: Seq<SpecPredicate>, tuples: Map<usize, TupleDeclaration>)
    requires
        check_predicates(ps, tuples) is Ok,
    ensures
        forall|k: int| 0 <= k < ps.len() ==> tuples.contains_key(#[trigger] ps[k].ty_id),
    decreases ps.len(),
{
    if ps.len() > 0 {
        lemma_checked_predicates_declared(ps.drop_last(), tuples);
        assert forall|k: int| 0 <= k < ps.len() implies tuples.contains_key(#[trigger] ps[k].ty_id) by {
            if k < ps.len() - 1 {
                assert(ps.drop_last()[k] == ps[k]);
            }
        }
    }
}

/// Predicates that type-check without reaching a bad aggregate aggregate
/// only numeric attributes their tuples have.
pub proof fn lemma_checked_aggregates(ps: Seq<SpecPredicate>, tuples: Map<usize, TupleDeclaration>)
    requires
        check_predicates(ps, tuples) is Ok,
        !reaches_bad_aggregate(ps, tuples),
    ensures
        forall|k: int| 0 <= k < ps.len() ==> #[trigger] crate::stack::predicate_well_typed(ps[k].ty, attribute_types(tuples[ps[k].ty_id])),
    decreases ps.len(),
{
    if ps.len() > 0 {
        let pre = ps.drop_last();
        let k = ps.len() - 1;
        match check_predicates(pre, tuples) {
            Ok(m) => {
                lemma_checked_aggregates(pre, tuples);
                assert(check_predicate(k as usize, ps.last(), tuples, m) is Ok);
                assert(!bad_aggregate_at(k as usize, ps.last(), tuples, m));
                assert forall|j: int| 0 <= j < ps.len() implies #[trigger] crate::stack::predicate_well_typed(ps[j].ty, attribute_types(tuples[ps[j].ty_id])) by {
                    if j < k {
                        assert(pre[j] == ps[j]);
                    }
                }
            },
            Err(_) => {},
        }
    }
}

} // verus!
