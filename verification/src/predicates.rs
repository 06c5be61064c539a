//! The predicates of a rule: which tuples they select, how, and within which
//! time window.

use vstd::prelude::*;
use crate::expressions::{Expression, expr_params, lemma_expr_params_finite};
use crate::pairs::{merge_sorted, strictly_sorted};

verus! {

/// A copy of a list of expressions.
pub fn clone_expressions(v: &Vec<Expression>) -> (r: Vec<Expression>)
    ensures
        r@ == v@,
{
    let mut r: Vec<Expression> = Vec::new();
    let mut i: usize = 0;
    while i < v.len()
        invariant
            i <= v@.len(),
            r@ == v@.subrange(0, i as int),
        decreases v@.len() - i,
    {
        r.push(v[i].clone());
        proof {
            assert(v@.subrange(0, i + 1) == v@.subrange(0, i as int).push(v@[i as int]));
        }
        i = i + 1;
    }
    proof {
        assert(v@.subrange(0, v@.len() as int) == v@);
    }
    r
}

/// Which of the matching events an event predicate selects.
#[derive(Clone, Copy, Debug, PartialEq, Eq, Structural)]
pub enum EventSelection {
    Each,
    First,
    Last,
}

/// The aggregate an aggregate predicate computes, with the attribute index
/// it is computed on.
#[derive(Clone, Copy, Debug, PartialEq, Eq, Structural)]
pub enum Aggregator {
    Avg(usize),
    Sum(usize),
    Max(usize),
    Min(usize),
    Count,
}

/// A named parameter defined by a predicate.
#[derive(Debug)]
pub struct ParameterDeclaration {
    pub name: String,
    pub expression: Expression,
}

impl Clone for ParameterDeclaration {
    fn clone(&self) -> (r: Self)
        ensures
            r == *self,
    {
        ParameterDeclaration { name: self.name.clone(), expression: self.expression.clone() }
    }
}

/// A copy of a list of parameter declarations.
pub fn clone_parameters(v: &Vec<ParameterDeclaration>) -> (r: Vec<ParameterDeclaration>)
    ensures
        r@ == v@,
{
    let mut r: Vec<ParameterDeclaration> = Vec::new();
    let mut i: usize = 0;
    while i < v.len()
        invariant
            i <= v@.len(),
            r@ == v@.subrange(0, i as int),
        decreases v@.len() - i,
    {
        r.push(v[i].clone());
        proof {
            assert(v@.subrange(0, i + 1) == v@.subrange(0, i as int).push(v@[i as int]));
        }
        i = i + 1;
    }
    proof {
        assert(v@.subrange(0, v@.len() as int) == v@);
    }
    r
}

/// The lower end of a time window: a fixed length before the upper event
/// (in nanoseconds), or the time of another predicate's event.
#[derive(Clone, Copy, Debug, PartialEq, Eq, Structural)]
pub enum TimingBound {
    Within { window: i64 },
    Between { lower: usize },
}

/// A time window: it ends at the time of the event of predicate `upper`.
#[derive(Clone, Copy, Debug, PartialEq, Eq, Structural)]
pub struct Timing {
    pub upper: usize,
    pub bound: TimingBound,
}

#[derive(Clone, Copy, Debug, PartialEq, Eq, Structural)]
pub enum Order {
    Asc,
    Desc,
}

/// An ordering criterion of an ordered static predicate.
#[derive(Clone, Copy, Debug, PartialEq, Eq, Structural)]
pub struct AttributeOrdering {
    pub attribute: usize,
    pub direction: Order,
}

#[derive(Debug)]
pub enum PredicateType {
    Trigger { parameters: Vec<ParameterDeclaration> },
    Event { selection: EventSelection, parameters: Vec<ParameterDeclaration>, timing: Timing },
    OrderedStatic { parameters: Vec<ParameterDeclaration>, ordering: Vec<AttributeOrdering> },
    UnorderedStatic { parameters: Vec<ParameterDeclaration> },
    EventAggregate { aggregator: Aggregator, parameter: ParameterDeclaration, timing: Timing },
    StaticAggregate { aggregator: Aggregator, parameter: ParameterDeclaration },
    EventNegation { timing: Timing },
    StaticNegation,
}

/// The model of a predicate type: its lists seen as sequences.
pub enum SpecPredicateType {
    Trigger { parameters: Seq<ParameterDeclaration> },
    Event { selection: EventSelection, parameters: Seq<ParameterDeclaration>, timing: Timing },
    OrderedStatic { parameters: Seq<ParameterDeclaration>, ordering: Seq<AttributeOrdering> },
    UnorderedStatic { parameters: Seq<ParameterDeclaration> },
    EventAggregate { aggregator: Aggregator, parameter: ParameterDeclaration, timing: Timing },
    StaticAggregate { aggregator: Aggregator, parameter: ParameterDeclaration },
    EventNegation { timing: Timing },
    StaticNegation,
}

impl View for PredicateType {
    type V = SpecPredicateType;

    open spec fn view(&self) -> SpecPredicateType {
        match self {
            PredicateType::Trigger { parameters } => SpecPredicateType::Trigger { parameters: parameters@ },
            PredicateType::Event { selection, parameters, timing } => SpecPredicateType::Event {
                selection: *selection,
                parameters: parameters@,
                timing: *timing,
            },
            PredicateType::OrderedStatic { parameters, ordering } => SpecPredicateType::OrderedStatic {
                parameters: parameters@,
                ordering: ordering@,
            },
            PredicateType::UnorderedStatic { parameters } => SpecPredicateType::UnorderedStatic {
                parameters: parameters@,
            },
            PredicateType::EventAggregate { aggregator, parameter, timing } =>
                SpecPredicateType::EventAggregate {
                aggregator: *aggregator,
                parameter: *parameter,
                timing: *timing,
            },
            PredicateType::StaticAggregate { aggregator, parameter } =>
                SpecPredicateType::StaticAggregate { aggregator: *aggregator, parameter: *parameter },
            PredicateType::EventNegation { timing } => SpecPredicateType::EventNegation { timing: *timing },
            PredicateType::StaticNegation => SpecPredicateType::StaticNegation,
        }
    }
}

/// The model of a predicate: its type and the constrained tuple, lists seen
/// as sequences.
pub struct SpecPredicate {
    pub ty: SpecPredicateType,
    pub ty_id: usize,
    pub constraints: Seq<Expression>,
    pub alias: String,
}

impl View for Predicate {
    type V = SpecPredicate;

    open spec fn view(&self) -> SpecPredicate {
        SpecPredicate {
            ty: self.ty@,
            ty_id: self.tuple.ty_id,
            constraints: self.tuple.constraints@,
            alias: self.tuple.alias,
        }
    }
}

impl Clone for PredicateType {
    fn clone(&self) -> (r: Self)
        ensures
            r@ == self@,
    {
        match self {
            PredicateType::Trigger { parameters } => PredicateType::Trigger {
                parameters: clone_parameters(parameters),
            },
            PredicateType::Event { selection, parameters, timing } => PredicateType::Event {
                selection: *selection,
                parameters: clone_parameters(parameters),
                timing: *timing,
            },
            PredicateType::OrderedStatic { parameters, ordering } => {
                let mut o: Vec<AttributeOrdering> = Vec::new();
                let mut i: usize = 0;
                while i < ordering.len()
                    invariant
                        i <= ordering@.len(),
                        o@ == ordering@.subrange(0, i as int),
                    decreases ordering@.len() - i,
                {
                    o.push(ordering[i]);
                    proof {
                        assert(ordering@.subrange(0, i + 1) == ordering@.subrange(0, i as int).push(
                            ordering@[i as int],
                        ));
                    }
                    i = i + 1;
                }
                proof {
                    assert(ordering@.subrange(0, ordering@.len() as int) == ordering@);
                }
                PredicateType::OrderedStatic { parameters: clone_parameters(parameters), ordering: o }
            },
            PredicateType::UnorderedStatic { parameters } => PredicateType::UnorderedStatic {
                parameters: clone_parameters(parameters),
            },
            PredicateType::EventAggregate { aggregator, parameter, timing } =>
                PredicateType::EventAggregate {
                aggregator: *aggregator,
                parameter: parameter.clone(),
                timing: *timing,
            },
            PredicateType::StaticAggregate { aggregator, parameter } =>
                PredicateType::StaticAggregate { aggregator: *aggregator, parameter: parameter.clone() },
            PredicateType::EventNegation { timing } => PredicateType::EventNegation { timing: *timing },
            PredicateType::StaticNegation => PredicateType::StaticNegation,
        }
    }
}

/// A tuple type with the constraints its attributes must satisfy.
#[derive(Debug)]
pub struct ConstrainedTuple {
    pub ty_id: usize,
    pub constraints: Vec<Expression>,
    pub alias: String,
}

impl Clone for ConstrainedTuple {
    fn clone(&self) -> (r: Self)
        ensures
            r.ty_id == self.ty_id,
            r.constraints@ == self.constraints@,
            r.alias == self.alias,
    {
        ConstrainedTuple {
            ty_id: self.ty_id,
            constraints: clone_expressions(&self.constraints),
            alias: self.alias.clone(),
        }
    }
}

#[derive(Debug)]
pub struct Predicate {
    pub ty: PredicateType,
    pub tuple: ConstrainedTuple,
}

impl Clone for Predicate {
    fn clone(&self) -> (r: Self)
        ensures
            r@ == self@,
    {
        Predicate { ty: self.ty.clone(), tuple: self.tuple.clone() }
    }
}

/// The parameters referred to by a list of expressions.
pub open spec fn exprs_params(v: Seq<Expression>) -> Set<(usize, usize)>
    decreases v.len(),
{
    if v.len() == 0 {
        Set::empty()
    } else {
        exprs_params(v.drop_last()).union(expr_params(v.last()))
    }
}

/// The expressions of a list of parameter declarations.
pub open spec fn param_exprs(v: Seq<ParameterDeclaration>) -> Seq<Expression> {
    v.map_values(|p: ParameterDeclaration| p.expression)
}

/// The parameters referred to by the parameter declarations of a predicate
/// type.
pub open spec fn predicate_type_params(ty: PredicateType) -> Set<(usize, usize)> {
    match ty {
        PredicateType::Trigger { parameters } => exprs_params(param_exprs(parameters@)),
        PredicateType::Event { parameters, .. } => exprs_params(param_exprs(parameters@)),
        PredicateType::OrderedStatic { parameters, .. } => exprs_params(param_exprs(parameters@)),
        PredicateType::UnorderedStatic { parameters } => exprs_params(param_exprs(parameters@)),
        PredicateType::EventAggregate { parameter, .. } => expr_params(parameter.expression),
        PredicateType::StaticAggregate { parameter, .. } => expr_params(parameter.expression),
        _ => Set::empty(),
    }
}

/// The parameters a predicate refers to, in its parameter declarations and
/// in its constraints.
pub open spec fn predicate_params(p: Predicate) -> Set<(usize, usize)> {
    predicate_type_params(p.ty).union(exprs_params(p.tuple.constraints@))
}

/// The sorted, deduplicated parameters referred to by a list of expressions.
fn used_parameters_of(v: &Vec<Expression>) -> (r: Vec<(usize, usize)>)
    ensures
        strictly_sorted(r@),
        r@.to_set() == exprs_params(v@),
{
    let mut r: Vec<(usize, usize)> = Vec::new();
    let mut i: usize = 0;
    proof {
        assert(r@.to_set() =~= Set::empty());
        assert(v@.subrange(0, 0) =~= Seq::<Expression>::empty());
    }
    while i < v.len()
        invariant
            i <= v@.len(),
            strictly_sorted(r@),
            r@.to_set() == exprs_params(v@.subrange(0, i as int)),
        decreases v@.len() - i,
    {
        let p = v[i].get_parameters();
        r = merge_sorted(&r, &p);
        proof {
            assert(v@.subrange(0, i + 1).drop_last() =~= v@.subrange(0, i as int));
        }
        i = i + 1;
    }
    proof {
        assert(v@.subrange(0, v@.len() as int) =~= v@);
    }
    r
}

/// The sorted, deduplicated parameters referred to by parameter declarations.
fn used_parameters_of_params(v: &Vec<ParameterDeclaration>) -> (r: Vec<(usize, usize)>)
    ensures
        strictly_sorted(r@),
        r@.to_set() == exprs_params(param_exprs(v@)),
{
    let mut r: Vec<(usize, usize)> = Vec::new();
    let mut i: usize = 0;
    proof {
        assert(r@.to_set() =~= Set::empty());
        assert(param_exprs(v@).subrange(0, 0) =~= Seq::<Expression>::empty());
    }
    while i < v.len()
        invariant
            i <= v@.len(),
            strictly_sorted(r@),
            r@.to_set() == exprs_params(param_exprs(v@).subrange(0, i as int)),
        decreases v@.len() - i,
    {
        let p = v[i].expression.get_parameters();
        r = merge_sorted(&r, &p);
        proof {
            assert(param_exprs(v@).subrange(0, i + 1).drop_last() =~= param_exprs(v@).subrange(0, i as int));
        }
        i = i + 1;
    }
    proof {
        assert(param_exprs(v@).subrange(0, v@.len() as int) =~= param_exprs(v@));
    }
    r
}

impl PredicateType {
    /// The parameters its parameter declarations refer to, sorted and
    /// without duplicates.
    pub fn get_used_parameters(&self) -> (r: Vec<(usize, usize)>)
        ensures
            strictly_sorted(r@),
            r@.to_set() == predicate_type_params(*self),
    {
        match self {
            PredicateType::Trigger { parameters } => used_parameters_of_params(parameters),
            PredicateType::Event { parameters, .. } => used_parameters_of_params(parameters),
            PredicateType::OrderedStatic { parameters, .. } => used_parameters_of_params(parameters),
            PredicateType::UnorderedStatic { parameters } => used_parameters_of_params(parameters),
            PredicateType::EventAggregate { parameter, .. } => parameter.expression.get_parameters(),
            PredicateType::StaticAggregate { parameter, .. } => parameter.expression.get_parameters(),
            _ => {
                let r: Vec<(usize, usize)> = Vec::new();
                assert(r@.to_set() =~= Set::empty());
                r
            },
        }
    }
}

impl ConstrainedTuple {
    /// The parameters its constraints refer to, sorted and without duplicates.
    pub fn get_used_parameters(&self) -> (r: Vec<(usize, usize)>)
        ensures
            strictly_sorted(r@),
            r@.to_set() == exprs_params(self.constraints@),
    {
        used_parameters_of(&self.constraints)
    }
}

impl Predicate {
    /// The parameters the predicate refers to, sorted and without duplicates.
    pub fn get_used_parameters(&self) -> (r: Vec<(usize, usize)>)
        ensures
            strictly_sorted(r@),
            r@.to_set() == predicate_params(*self),
    {
        let a = self.ty.get_used_parameters();
        let b = self.tuple.get_used_parameters();
        merge_sorted(&a, &b)
    }
}

} // verus!
