//! Evaluation of expressions against a context: the tuple at hand, the
//! aggregate at hand, and the parameters computed so far.

use vstd::prelude::*;
use crate::expressions::{Expression, SpecValue, Value};
use crate::operations::{binary, unary};
use crate::operations::binary::binary_value;
use crate::operations::unary::unary_value;
use crate::rule_processor::PartialResult;
use crate::tuples::{Tuple, values_view};

verus! {

/// What an expression can read: the attributes of the current tuple, the
/// current aggregate, and the parameters, each where the context has it.
pub struct EvalEnv {
    pub attrs: Option<Seq<SpecValue>>,
    pub aggr: Option<SpecValue>,
    pub params: Option<Map<(usize, usize), SpecValue>>,
}

/// The value of an expression in an environment. `None` where the
/// evaluation fails: a missing attribute, aggregate or parameter, a wrong
/// operand type, an integer overflow or a division by zero, and wherever a
/// floating-point computation is needed (casts included), which this
/// library does not do.
pub open spec fn eval(e: Expression, env: EvalEnv) -> Option<SpecValue>
    decreases e,
{
    match e {
        Expression::Immediate { value } => Some(value@),
        Expression::Reference { attribute } => match env.attrs {
            Some(a) => if attribute < a.len() {
                Some(a[attribute as int])
            } else {
                None
            },
            None => None,
        },
        Expression::Aggregate => env.aggr,
        Expression::Parameter { predicate, parameter } => match env.params {
            Some(m) => if m.contains_key((predicate, parameter)) {
                Some(m[(predicate, parameter)])
            } else {
                None
            },
            None => None,
        },
        Expression::Cast { .. } => None,
        Expression::UnaryOperation { operator, expression } => match eval(*expression, env) {
            Some(v) => unary_value(operator, v),
            None => None,
        },
        Expression::BinaryOperation { operator, left, right } => match eval(*left, env) {
            Some(l) => match eval(*right, env) {
                Some(r) => binary_value(operator, l, r),
                None => None,
            },
            None => None,
        },
    }
}

/// Whether an expression evaluates to `true`: `None` when its evaluation
/// fails or gives a value that is not a boolean.
pub open spec fn eval_bool(e: Expression, env: EvalEnv) -> Option<bool> {
    match eval(e, env) {
        Some(SpecValue::Bool(b)) => Some(b),
        _ => None,
    }
}

/// Whether all the expressions of a list hold, evaluated in order and
/// stopping at the first that does not: `None` when an evaluation reached
/// fails or is not a boolean.
pub open spec fn all_hold(v: Seq<Expression>, env: EvalEnv) -> Option<bool>
    decreases v.len(),
{
    if v.len() == 0 {
        Some(true)
    } else {
        match eval_bool(v[0], env) {
            Some(true) => all_hold(v.drop_first(), env),
            Some(false) => Some(false),
            None => None,
        }
    }
}

/// A source of the values an expression can read.
pub trait EvaluationContext {
    spec fn env(&self) -> EvalEnv;

    /// The value of an attribute of the current tuple.
    fn get_attribute(&self, attribute: usize) -> (r: Option<Value>)
        ensures
            r is Some <==> (self.env().attrs matches Some(a) && attribute < a.len()),
            r matches Some(v) ==> v@ == self.env().attrs->0[attribute as int],
    ;

    /// The current aggregate.
    fn get_aggregate(&self) -> (r: Option<Value>)
        ensures
            r is Some <==> self.env().aggr is Some,
            r matches Some(v) ==> self.env().aggr == Some(v@),
    ;

    /// The value of a parameter.
    fn get_parameter(&self, predicate: usize, parameter: usize) -> (r: Option<Value>)
        ensures
            r is Some <==> (self.env().params matches Some(m) && m.contains_key((predicate, parameter))),
            r matches Some(v) ==> v@ == self.env().params->0[(predicate, parameter)],
    ;
}

/// Evaluates an expression in a context; `None` exactly where [`eval`] fails.
pub fn evaluate_expression<C: EvaluationContext>(context: &C, expression: &Expression) -> (r: Option<Value>)
    ensures
        r is Some <==> eval(*expression, context.env()) is Some,
        r matches Some(v) ==> eval(*expression, context.env()) == Some(v@),
    decreases expression,
{
    match expression {
        Expression::Immediate { value } => Some(value.clone()),
        Expression::Reference { attribute } => context.get_attribute(*attribute),
        Expression::Aggregate => context.get_aggregate(),
        Expression::Parameter { predicate, parameter } => context.get_parameter(*predicate, *parameter),
        Expression::Cast { .. } => None,
        Expression::UnaryOperation { operator, expression } => match evaluate_expression(context, expression) {
            Some(v) => unary::evaluate(operator, &v),
            None => None,
        },
        Expression::BinaryOperation { operator, left, right } => match evaluate_expression(context, left) {
            Some(l) => match evaluate_expression(context, right) {
                Some(r) => binary::evaluate(operator, &l, &r),
                None => None,
            },
            None => None,
        },
    }
}

/// Evaluates a boolean expression; `None` exactly where [`eval_bool`] fails.
pub fn evaluate_bool<C: EvaluationContext>(context: &C, expression: &Expression) -> (r: Option<bool>)
    ensures
        r == eval_bool(*expression, context.env()),
{
    match evaluate_expression(context, expression) {
        Some(Value::Bool(b)) => Some(b),
        _ => None,
    }
}

/// Whether all the expressions hold, evaluated in order up to the first
/// that does not; `None` exactly where [`all_hold`] fails.
pub fn all_satisfied<C: EvaluationContext>(context: &C, expressions: &Vec<Expression>) -> (r: Option<bool>)
    ensures
        r == all_hold(expressions@, context.env()),
{
    let mut i: usize = 0;
    proof {
        assert(expressions@.subrange(0, expressions@.len() as int) =~= expressions@);
    }
    while i < expressions.len()
        invariant
            i <= expressions@.len(),
            all_hold(expressions@, context.env()) == all_hold(expressions@.subrange(i as int, expressions@.len() as int), context.env()),
        decreases expressions@.len() - i,
    {
        let ghost rest = expressions@.subrange(i as int, expressions@.len() as int);
        proof {
            assert(rest.drop_first() =~= expressions@.subrange(i + 1, expressions@.len() as int));
            assert(rest[0] == expressions@[i as int]);
        }
        match evaluate_bool(context, &expressions[i]) {
            Some(true) => {},
            Some(false) => return Some(false),
            None => return None,
        }
        i = i + 1;
    }
    proof {
        assert(expressions@.subrange(i as int, expressions@.len() as int) =~= Seq::<Expression>::empty());
    }
    Some(true)
}

/// A context that only knows the attributes of a tuple.
#[derive(Clone, Debug)]
pub struct SimpleContext<'a> {
    tuple: &'a Tuple,
}

impl<'a> SimpleContext<'a> {
    pub fn new(tuple: &'a Tuple) -> (r: Self)
        ensures
            r.env() == (EvalEnv { attrs: Some(values_view(tuple.data@)), aggr: None, params: None }),
    {
        SimpleContext { tuple }
    }
}

impl<'a> EvaluationContext for SimpleContext<'a> {
    closed spec fn env(&self) -> EvalEnv {
        EvalEnv { attrs: Some(values_view(self.tuple.data@)), aggr: None, params: None }
    }

    fn get_attribute(&self, attribute: usize) -> (r: Option<Value>) {
        if attribute < self.tuple.data.len() {
            Some(self.tuple.data[attribute].clone())
        } else {
            None
        }
    }

    fn get_aggregate(&self) -> (r: Option<Value>) {
        None
    }

    fn get_parameter(&self, predicate: usize, parameter: usize) -> (r: Option<Value>) {
        None
    }
}

/// What a complete context evaluates against besides the partial result.
#[derive(Clone, Debug)]
pub enum CurrentValue<'a> {
    Empty,
    Aggr(&'a Value),
    Tuple(&'a Tuple),
}

/// A context that knows the parameters of a partial result and, possibly,
/// the current tuple or aggregate.
#[derive(Clone, Debug)]
pub struct CompleteContext<'a> {
    result: &'a PartialResult,
    current: CurrentValue<'a>,
}

/// The environment of a complete context.
pub open spec fn complete_env(result: PartialResult, current: CurrentValue) -> EvalEnv {
    EvalEnv {
        attrs: match current {
            CurrentValue::Tuple(t) => Some(values_view(t.data@)),
            _ => None,
        },
        aggr: match current {
            CurrentValue::Aggr(v) => Some(v@),
            _ => None,
        },
        params: Some(result@.params),
    }
}

impl<'a> CompleteContext<'a> {
    pub fn new(result: &'a PartialResult, current: CurrentValue<'a>) -> (r: Self)
        ensures
            r.env() == complete_env(*result, current),
    {
        CompleteContext { result, current }
    }
}

impl<'a> EvaluationContext for CompleteContext<'a> {
    closed spec fn env(&self) -> EvalEnv {
        complete_env(*self.result, self.current)
    }

    fn get_attribute(&self, attribute: usize) -> (r: Option<Value>) {
        match self.current {
            CurrentValue::Tuple(t) => if attribute < t.data.len() {
                Some(t.data[attribute].clone())
            } else {
                None
            },
            _ => None,
        }
    }

    fn get_aggregate(&self) -> (r: Option<Value>) {
        match self.current {
            CurrentValue::Aggr(v) => Some(v.clone()),
            _ => None,
        }
    }

    fn get_parameter(&self, predicate: usize, parameter: usize) -> (r: Option<Value>) {
        match self.result.find_parameter((predicate, parameter)) {
            Some(v) => Some(v.clone()),
            None => None,
        }
    }
}

} // verus!
