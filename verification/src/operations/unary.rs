//! The unary operators: arithmetic negation and logical not.

use vstd::prelude::*;
use crate::expressions::{BasicType, SpecValue, UnaryOperator, Value};

verus! {

/// The type of `operator` applied to an operand of type `ty`, `None` when
/// the operand type is wrong.
pub open spec fn unary_type(operator: UnaryOperator, ty: BasicType) -> Option<BasicType> {
    match operator {
        UnaryOperator::Minus => match ty {
            BasicType::Int | BasicType::Float => Some(ty),
            _ => None,
        },
        UnaryOperator::Not => match ty {
            BasicType::Bool => Some(ty),
            _ => None,
        },
    }
}

/// The value of `operator` applied to `value`. `None` where the operation is
/// not defined: a wrong operand type, an integer overflow, or an operand
/// that needs floating-point arithmetic, which this library does not do.
pub open spec fn unary_value(operator: UnaryOperator, value: SpecValue) -> Option<SpecValue> {
    match (operator, value) {
        (UnaryOperator::Minus, SpecValue::Int(x)) => if x == i64::MIN {
            None
        } else {
            Some(SpecValue::Int((-x) as i64))
        },
        (UnaryOperator::Not, SpecValue::Bool(x)) => Some(SpecValue::Bool(!x)),
        _ => None,
    }
}

/// The message of the error a wrong operand type gives.
pub open spec fn unary_type_error(operator: UnaryOperator) -> Seq<char> {
    match operator {
        UnaryOperator::Minus => "Wrong operand type in unary minus"@,
        UnaryOperator::Not => "Wrong operand type in unary not"@,
    }
}

/// The type of a unary operation, or the error that explains why the operand
/// type is wrong.
pub fn get_type(operator: &UnaryOperator, ty: &BasicType) -> (r: Result<BasicType, String>)
    ensures
        r is Ok <==> unary_type(*operator, *ty) is Some,
        r matches Ok(t) ==> unary_type(*operator, *ty) == Some(t),
        r matches Err(msg) ==> msg@ == unary_type_error(*operator),
{
    match operator {
        UnaryOperator::Minus => match ty {
            BasicType::Int | BasicType::Float => Ok(*ty),
            _ => Err(String::from_str("Wrong operand type in unary minus")),
        },
        UnaryOperator::Not => match ty {
            BasicType::Bool => Ok(*ty),
            _ => Err(String::from_str("Wrong operand type in unary not")),
        },
    }
}

/// Applies a unary operator; `None` exactly where [`unary_value`] is undefined.
pub fn evaluate(operator: &UnaryOperator, value: &Value) -> (r: Option<Value>)
    ensures
        r is Some <==> unary_value(*operator, value@) is Some,
        r matches Some(v) ==> unary_value(*operator, value@) == Some(v@),
{
    match (operator, value) {
        (UnaryOperator::Minus, Value::Int(x)) => if *x == i64::MIN {
            None
        } else {
            Some(Value::Int(-*x))
        },
        (UnaryOperator::Not, Value::Bool(x)) => Some(Value::Bool(!*x)),
        _ => None,
    }
}

/// Type soundness of the unary operators: a defined result has the type
/// that the typing rule gives to the operand's type.
pub proof fn lemma_unary_type_sound(operator: UnaryOperator, value: SpecValue)
    requires
        unary_value(operator, value) is Some,
    ensures
        unary_type(operator, crate::expressions::type_of(value)) == Some(
            crate::expressions::type_of(unary_value(operator, value)->0),
        ),
{
}

} // verus!
