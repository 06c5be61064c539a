//! Values, operators and expressions of the rule language.

use vstd::prelude::*;
use crate::pairs::{merge_sorted, pair_lt, strictly_sorted};

verus! {

/// The type of an attribute, a parameter or an expression.
#[derive(Clone, Copy, Debug, PartialEq, Eq, Structural)]
pub enum BasicType {
    Int,
    Float,
    Bool,
    Str,
}

/// A value held by a tuple attribute or computed by an expression.
/// A floating-point number is held by its IEEE-754 bit pattern.
#[derive(Debug)]
pub enum Value {
    Int(i64),
    Float(u64),
    Bool(bool),
    Str(String),
}

/// The mathematical model of a [`Value`]: strings are seen as sequences of characters.
pub enum SpecValue {
    Int(i64),
    Float(u64),
    Bool(bool),
    Str(Seq<char>),
}

impl View for Value {
    type V = SpecValue;

    open spec fn view(&self) -> SpecValue {
        match self {
            Value::Int(x) => SpecValue::Int(*x),
            Value::Float(x) => SpecValue::Float(*x),
            Value::Bool(x) => SpecValue::Bool(*x),
            Value::Str(s) => SpecValue::Str(s@),
        }
    }
}

impl Clone for Value {
    fn clone(&self) -> (r: Self)
        ensures
            r == *self,
    {
        match self {
            Value::Int(x) => Value::Int(*x),
            Value::Float(x) => Value::Float(*x),
            Value::Bool(x) => Value::Bool(*x),
            Value::Str(s) => Value::Str(s.clone()),
        }
    }
}

/// The type of a value.
pub open spec fn type_of(v: SpecValue) -> BasicType {
    match v {
        SpecValue::Int(_) => BasicType::Int,
        SpecValue::Float(_) => BasicType::Float,
        SpecValue::Bool(_) => BasicType::Bool,
        SpecValue::Str(_) => BasicType::Str,
    }
}

/// Whether two values are the same (floating-point numbers compared by bit
/// pattern).
pub fn same_value(a: &Value, b: &Value) -> (r: bool)
    ensures
        r == (a@ == b@),
{
    match (a, b) {
        (Value::Int(x), Value::Int(y)) => *x == *y,
        (Value::Float(x), Value::Float(y)) => *x == *y,
        (Value::Bool(x), Value::Bool(y)) => *x == *y,
        (Value::Str(x), Value::Str(y)) => x.eq(y),
        _ => false,
    }
}

impl Value {
    /// The integer held by an `Int` value.
    pub fn unwrap_int(&self) -> (r: i64)
        requires
            self is Int,
        ensures
            self@ == SpecValue::Int(r),
    {
        match self {
            Value::Int(x) => *x,
            _ => 0,
        }
    }

    /// The boolean held by a `Bool` value.
    pub fn unwrap_bool(&self) -> (r: bool)
        requires
            self is Bool,
        ensures
            self@ == SpecValue::Bool(r),
    {
        match self {
            Value::Bool(x) => *x,
            _ => false,
        }
    }

    /// A copy of the string held by a `Str` value.
    pub fn unwrap_string(&self) -> (r: String)
        requires
            self is Str,
        ensures
            self@ == SpecValue::Str(r@),
    {
        match self {
            Value::Str(s) => s.clone(),
            _ => String::new(),
        }
    }

    /// The type of the value.
    pub fn get_type(&self) -> (r: BasicType)
        ensures
            r == type_of(self@),
    {
        match self {
            Value::Int(_) => BasicType::Int,
            Value::Float(_) => BasicType::Float,
            Value::Bool(_) => BasicType::Bool,
            Value::Str(_) => BasicType::Str,
        }
    }
}

#[derive(Clone, Copy, Debug, PartialEq, Eq, Structural)]
pub enum UnaryOperator {
    Minus,
    Not,
}

#[derive(Clone, Copy, Debug, PartialEq, Eq, Structural)]
pub enum BinaryOperator {
    Plus,
    Minus,
    Times,
    Division,
    Equal,
    NotEqual,
    GreaterThan,
    GreaterEqual,
    LowerThan,
    LowerEqual,
}

#[allow(inconsistent_fields)]
#[derive(Debug)]
pub enum Expression {
    Immediate { value: Value },
    /// It always refers to the predicate it appears in
    Reference { attribute: usize },
    /// It refers to the value of the aggregation predicate it appears in
    Aggregate,
    Parameter { predicate: usize, parameter: usize },
    Cast { ty: BasicType, expression: Box<Expression> },
    UnaryOperation { operator: UnaryOperator, expression: Box<Expression> },
    BinaryOperation { operator: BinaryOperator, left: Box<Expression>, right: Box<Expression> },
}

impl Clone for Expression {
    fn clone(&self) -> (r: Self)
        ensures
            r == *self,
        decreases self,
    {
        match self {
            Expression::Immediate { value } => Expression::Immediate { value: value.clone() },
            Expression::Reference { attribute } => Expression::Reference { attribute: *attribute },
            Expression::Aggregate => Expression::Aggregate,
            Expression::Parameter { predicate, parameter } => Expression::Parameter {
                predicate: *predicate,
                parameter: *parameter,
            },
            Expression::Cast { ty, expression } => Expression::Cast {
                ty: *ty,
                expression: Box::new((**expression).clone()),
            },
            Expression::UnaryOperation { operator, expression } => Expression::UnaryOperation {
                operator: *operator,
                expression: Box::new((**expression).clone()),
            },
            Expression::BinaryOperation { operator, left, right } => Expression::BinaryOperation {
                operator: *operator,
                left: Box::new((**left).clone()),
                right: Box::new((**right).clone()),
            },
        }
    }
}

/// The `(predicate, parameter)` pairs of the parameters an expression refers to.
pub open spec fn expr_params(e: Expression) -> Set<(usize, usize)>
    decreases e,
{
    match e {
        Expression::Parameter { predicate, parameter } => set![(predicate, parameter)],
        Expression::Cast { expression, .. } => expr_params(*expression),
        Expression::UnaryOperation { expression, .. } => expr_params(*expression),
        Expression::BinaryOperation { left, right, .. } => expr_params(*left).union(
            expr_params(*right),
        ),
        _ => Set::empty(),
    }
}

/// An expression is local when it refers to no parameter.
pub open spec fn expr_is_local(e: Expression) -> bool
    decreases e,
{
    match e {
        Expression::Parameter { .. } => false,
        Expression::Cast { expression, .. } => expr_is_local(*expression),
        Expression::UnaryOperation { expression, .. } => expr_is_local(*expression),
        Expression::BinaryOperation { left, right, .. } => expr_is_local(*left) && expr_is_local(
            *right,
        ),
        _ => true,
    }
}

/// The parameter set of an expression is finite.
pub proof fn lemma_expr_params_finite(e: Expression)
    ensures
        expr_params(e).finite(),
    decreases e,
{
    match e {
        Expression::Cast { expression, .. } => lemma_expr_params_finite(*expression),
        Expression::UnaryOperation { expression, .. } => lemma_expr_params_finite(*expression),
        Expression::BinaryOperation { left, right, .. } => {
            lemma_expr_params_finite(*left);
            lemma_expr_params_finite(*right);
        },
        _ => {},
    }
}

/// An expression is local exactly when it refers to no parameter.
pub proof fn lemma_local_iff_no_params(e: Expression)
    ensures
        expr_is_local(e) <==> expr_params(e).is_empty(),
    decreases e,
{
    match e {
        Expression::Parameter { predicate, parameter } => {
            assert(expr_params(e).contains((predicate, parameter)));
        },
        Expression::Cast { expression, .. } => lemma_local_iff_no_params(*expression),
        Expression::UnaryOperation { expression, .. } => lemma_local_iff_no_params(*expression),
        Expression::BinaryOperation { left, right, .. } => {
            lemma_local_iff_no_params(*left);
            lemma_local_iff_no_params(*right);
            if !expr_params(*left).is_empty() {
                let x = expr_params(*left).choose();
                assert(expr_params(e).contains(x));
            }
            if !expr_params(*right).is_empty() {
                let x = expr_params(*right).choose();
                assert(expr_params(e).contains(x));
            }
        },
        _ => {},
    }
}

impl Expression {
    /// Whether the expression refers to no parameter of another predicate.
    pub fn is_local(&self) -> (r: bool)
        ensures
            r == expr_is_local(*self),
        decreases self,
    {
        match self {
            Expression::Parameter { .. } => false,
            Expression::Cast { expression, .. } => expression.is_local(),
            Expression::UnaryOperation { expression, .. } => expression.is_local(),
            Expression::BinaryOperation { left, right, .. } => left.is_local() && right.is_local(),
            _ => true,
        }
    }

    /// The parameters the expression refers to, sorted and without duplicates.
    pub fn get_parameters(&self) -> (r: Vec<(usize, usize)>)
        ensures
            strictly_sorted(r@),
            r@.to_set() == expr_params(*self),
        decreases self,
    {
        match self {
            Expression::Parameter { predicate, parameter } => {
                let mut v: Vec<(usize, usize)> = Vec::new();
                v.push((*predicate, *parameter));
                assert(v@.to_set() =~= set![(*predicate, *parameter)]) by {
                    assert(v@[0] == (*predicate, *parameter));
                }
                v
            },
            Expression::Cast { expression, .. } => expression.get_parameters(),
            Expression::UnaryOperation { expression, .. } => expression.get_parameters(),
            Expression::BinaryOperation { left, right, .. } => {
                let l = left.get_parameters();
                let r = right.get_parameters();
                merge_sorted(&l, &r)
            },
            _ => {
                let v: Vec<(usize, usize)> = Vec::new();
                assert(v@.to_set() =~= Set::empty());
                v
            },
        }
    }

    /// The highest predicate index among the parameters the expression refers to.
    pub fn get_last_predicate(&self) -> (r: Option<usize>)
        ensures
            r is None <==> expr_params(*self).is_empty(),
            r matches Some(p) ==> (exists|x: (usize, usize)|
                #[trigger] expr_params(*self).contains(x) && x.0 == p),
            r matches Some(p) ==> (forall|x: (usize, usize)|
                #[trigger] expr_params(*self).contains(x) ==> x.0 <= p),
    {
        let params = self.get_parameters();
        if params.len() == 0 {
            proof {
                if !expr_params(*self).is_empty() {
                    let x = expr_params(*self).choose();
                    assert(params@.to_set().contains(x));
                }
            }
            None
        } else {
            let last = params[params.len() - 1];
            proof {
                assert(params@.to_set().contains(last));
                assert(expr_params(*self).contains(last));
                assert forall|x: (usize, usize)| #[trigger] expr_params(*self).contains(x) implies x.0
                    <= last.0 by {
                    assert(params@.to_set().contains(x));
                    let k = choose|k: int| 0 <= k < params@.len() && params@[k] == x;
                    if k < params@.len() - 1 {
                        assert(pair_lt(params@[k], params@[params@.len() - 1]));
                    }
                }
            }
            Some(last.0)
        }
    }
}

} // verus!
