//! The binary operators: arithmetic, equality and comparison.

use vstd::prelude::*;
use crate::expressions::{BasicType, BinaryOperator, SpecValue, Value, type_of};
use crate::text::{seq_char_lt, string_lt};

verus! {

/// The type of `operator` applied to operands of types `left` and `right`,
/// `None` when the operand types are wrong.
pub open spec fn binary_type(operator: BinaryOperator, left: BasicType, right: BasicType) -> Option<
    BasicType,
> {
    match operator {
        BinaryOperator::Plus | BinaryOperator::Minus | BinaryOperator::Times
        | BinaryOperator::Division => match (left, right) {
            (BasicType::Int, BasicType::Int) => Some(BasicType::Int),
            (BasicType::Float, BasicType::Float) => Some(BasicType::Float),
            _ => None,
        },
        BinaryOperator::Equal | BinaryOperator::NotEqual => if left == right {
            Some(BasicType::Bool)
        } else {
            None
        },
        _ => match (left, right) {
            (BasicType::Int, BasicType::Int) | (BasicType::Float, BasicType::Float) | (
                BasicType::Str,
                BasicType::Str,
            ) => Some(BasicType::Bool),
            _ => None,
        },
    }
}

/// Integer division rounding toward zero, as Rust's `/` on integers.
pub open spec fn trunc_div(a: int, b: int) -> int {
    let q = (if a < 0 { -a } else { a }) / (if b < 0 { -b } else { b });
    if (a < 0) != (b < 0) { -q } else { q }
}

/// An `i64` result, `None` when it overflows.
pub open spec fn int_result(x: int) -> Option<SpecValue> {
    if i64::MIN <= x <= i64::MAX {
        Some(SpecValue::Int(x as i64))
    } else {
        None
    }
}

/// The value of `operator` applied to `left` and `right`. `None` where the
/// operation is not defined: wrong operand types, an integer overflow, a
/// division by zero, or operands that need floating-point arithmetic, which
/// this library does not do.
pub open spec fn binary_value(operator: BinaryOperator, left: SpecValue, right: SpecValue) -> Option<
    SpecValue,
> {
    match (left, right) {
        (SpecValue::Int(l), SpecValue::Int(r)) => match operator {
            BinaryOperator::Plus => int_result(l + r),
            BinaryOperator::Minus => int_result(l - r),
            BinaryOperator::Times => int_result(l * r),
            BinaryOperator::Division => if r == 0 {
                None
            } else {
                int_result(trunc_div(l as int, r as int))
            },
            BinaryOperator::Equal => Some(SpecValue::Bool(l == r)),
            BinaryOperator::NotEqual => Some(SpecValue::Bool(l != r)),
            BinaryOperator::GreaterThan => Some(SpecValue::Bool(l > r)),
            BinaryOperator::GreaterEqual => Some(SpecValue::Bool(l >= r)),
            BinaryOperator::LowerThan => Some(SpecValue::Bool(l < r)),
            BinaryOperator::LowerEqual => Some(SpecValue::Bool(l <= r)),
        },
        (SpecValue::Bool(l), SpecValue::Bool(r)) => match operator {
            BinaryOperator::Equal => Some(SpecValue::Bool(l == r)),
            BinaryOperator::NotEqual => Some(SpecValue::Bool(l != r)),
            _ => None,
        },
        (SpecValue::Str(l), SpecValue::Str(r)) => match operator {
            BinaryOperator::Plus => Some(SpecValue::Str(l + r)),
            BinaryOperator::Equal => Some(SpecValue::Bool(l == r)),
            BinaryOperator::NotEqual => Some(SpecValue::Bool(l != r)),
            BinaryOperator::GreaterThan => Some(SpecValue::Bool(seq_char_lt(r, l))),
            BinaryOperator::GreaterEqual => Some(SpecValue::Bool(!seq_char_lt(l, r))),
            BinaryOperator::LowerThan => Some(SpecValue::Bool(seq_char_lt(l, r))),
            BinaryOperator::LowerEqual => Some(SpecValue::Bool(!seq_char_lt(r, l))),
            _ => None,
        },
        _ => None,
    }
}

/// The message of the error wrong operand types give.
pub open spec fn binary_type_error(operator: BinaryOperator) -> Seq<char> {
    match operator {
        BinaryOperator::Plus | BinaryOperator::Minus | BinaryOperator::Times
        | BinaryOperator::Division => "Wrong operands types in arithmetic operation"@,
        BinaryOperator::Equal | BinaryOperator::NotEqual => "Wrong operands types in equality operation"@,
        _ => "Wrong operands types in comparison operation"@,
    }
}

/// The type of a binary operation, or the error that explains why the
/// operand types are wrong.
pub fn get_type(operator: &BinaryOperator, left: &BasicType, right: &BasicType) -> (r: Result<
    BasicType,
    String,
>)
    ensures
        r is Ok <==> binary_type(*operator, *left, *right) is Some,
        r matches Ok(t) ==> binary_type(*operator, *left, *right) == Some(t),
        r matches Err(msg) ==> msg@ == binary_type_error(*operator),
{
    match operator {
        BinaryOperator::Plus | BinaryOperator::Minus | BinaryOperator::Times
        | BinaryOperator::Division => match (left, right) {
            (BasicType::Int, BasicType::Int) => Ok(BasicType::Int),
            (BasicType::Float, BasicType::Float) => Ok(BasicType::Float),
            _ => Err(String::from_str("Wrong operands types in arithmetic operation")),
        },
        BinaryOperator::Equal | BinaryOperator::NotEqual => if *left == *right {
            Ok(BasicType::Bool)
        } else {
            Err(String::from_str("Wrong operands types in equality operation"))
        },
        _ => match (left, right) {
            (BasicType::Int, BasicType::Int) | (BasicType::Float, BasicType::Float) | (
                BasicType::Str,
                BasicType::Str,
            ) => Ok(BasicType::Bool),
            _ => Err(String::from_str("Wrong operands types in comparison operation")),
        },
    }
}

/// `lhs / rhs` on integers, rounding toward zero; `None` on a division by
/// zero or an overflow.
pub fn checked_trunc_div(lhs: i64, rhs: i64) -> (r: Option<i64>)
    ensures
        r is Some <==> (rhs != 0 && i64::MIN <= trunc_div(lhs as int, rhs as int) <= i64::MAX),
        r matches Some(q) ==> q == trunc_div(lhs as int, rhs as int),
{
    if rhs == 0 {
        return None;
    }
    let a: i128 = lhs as i128;
    let b: i128 = rhs as i128;
    let ua: i128 = if a < 0 { -a } else { a };
    let ub: i128 = if b < 0 { -b } else { b };
    let q: i128 = ua / ub;
    assert(q <= ua) by (nonlinear_arith)
        requires ua >= 0, ub >= 1, q == ua / ub;
    let s: i128 = if (a < 0) != (b < 0) { -q } else { q };
    if s < i64::MIN as i128 || s > i64::MAX as i128 {
        None
    } else {
        Some(s as i64)
    }
}

/// Applies a binary operator; `None` exactly where [`binary_value`] is undefined.
pub fn evaluate(operator: &BinaryOperator, left: &Value, right: &Value) -> (r: Option<Value>)
    ensures
        r is Some <==> binary_value(*operator, left@, right@) is Some,
        r matches Some(v) ==> binary_value(*operator, left@, right@) == Some(v@),
{
    match (left, right) {
        (Value::Int(l), Value::Int(r)) => {
            let l = *l;
            let r = *r;
            match operator {
                BinaryOperator::Plus => match l.checked_add(r) {
                    Some(x) => Some(Value::Int(x)),
                    None => None,
                },
                BinaryOperator::Minus => match l.checked_sub(r) {
                    Some(x) => Some(Value::Int(x)),
                    None => None,
                },
                BinaryOperator::Times => match l.checked_mul(r) {
                    Some(x) => Some(Value::Int(x)),
                    None => None,
                },
                BinaryOperator::Division => match checked_trunc_div(l, r) {
                    Some(x) => Some(Value::Int(x)),
                    None => None,
                },
                BinaryOperator::Equal => Some(Value::Bool(l == r)),
                BinaryOperator::NotEqual => Some(Value::Bool(l != r)),
                BinaryOperator::GreaterThan => Some(Value::Bool(l > r)),
                BinaryOperator::GreaterEqual => Some(Value::Bool(l >= r)),
                BinaryOperator::LowerThan => Some(Value::Bool(l < r)),
                BinaryOperator::LowerEqual => Some(Value::Bool(l <= r)),
            }
        },
        (Value::Bool(l), Value::Bool(r)) => match operator {
            BinaryOperator::Equal => Some(Value::Bool(*l == *r)),
            BinaryOperator::NotEqual => Some(Value::Bool(*l != *r)),
            _ => None,
        },
        (Value::Str(l), Value::Str(r)) => match operator {
            BinaryOperator::Plus => {
                let mut s = l.clone();
                s.append(r.as_str());
                Some(Value::Str(s))
            },
            BinaryOperator::Equal => Some(Value::Bool(l.eq(r))),
            BinaryOperator::NotEqual => Some(Value::Bool(!l.eq(r))),
            BinaryOperator::GreaterThan => Some(Value::Bool(string_lt(r, l))),
            BinaryOperator::GreaterEqual => Some(Value::Bool(!string_lt(l, r))),
            BinaryOperator::LowerThan => Some(Value::Bool(string_lt(l, r))),
            BinaryOperator::LowerEqual => Some(Value::Bool(!string_lt(r, l))),
            _ => None,
        },
        _ => None,
    }
}

/// Type soundness of the binary operators: when the typing rule accepts the
/// operands' types, a defined result has the type the rule gives.
pub proof fn lemma_binary_type_sound(operator: BinaryOperator, left: SpecValue, right: SpecValue)
    requires
        binary_type(operator, type_of(left), type_of(right)) is Some,
        binary_value(operator, left, right) is Some,
    ensures
        binary_type(operator, type_of(left), type_of(right)) == Some(
            type_of(binary_value(operator, left, right)->0),
        ),
{
}

/// Character order is a strict order: never both ways, and not reflexive.
proof fn lemma_char_order_asymmetric(a: Seq<char>, b: Seq<char>)
    ensures
        !(seq_char_lt(a, b) && seq_char_lt(b, a)),
        !seq_char_lt(a, a),
    decreases a.len(),
{
    if a.len() > 0 && b.len() > 0 && a[0] == b[0] {
        lemma_char_order_asymmetric(a.drop_first(), b.drop_first());
    }
    if a.len() > 0 {
        lemma_char_order_asymmetric(a.drop_first(), a.drop_first());
    }
}

/// Comparisons of integers are the usual order on them, and the six
/// comparisons relate as they must: `>=` is the negation of `<`, `<=` of
/// `>`, `>` and `>=` are `<` and `<=` with the operands swapped, and `!=` is
/// the negation of `==`.
pub proof fn law_integer_comparisons(l: i64, r: i64)
    ensures
        binary_value(BinaryOperator::LowerThan, SpecValue::Int(l), SpecValue::Int(r)) == Some(SpecValue::Bool(l < r)),
        binary_value(BinaryOperator::LowerEqual, SpecValue::Int(l), SpecValue::Int(r)) == Some(SpecValue::Bool(l <= r)),
        binary_value(BinaryOperator::GreaterThan, SpecValue::Int(l), SpecValue::Int(r)) == Some(SpecValue::Bool(l > r)),
        binary_value(BinaryOperator::GreaterEqual, SpecValue::Int(l), SpecValue::Int(r)) == Some(SpecValue::Bool(l >= r)),
        binary_value(BinaryOperator::Equal, SpecValue::Int(l), SpecValue::Int(r)) == Some(SpecValue::Bool(l == r)),
        binary_value(BinaryOperator::NotEqual, SpecValue::Int(l), SpecValue::Int(r)) == Some(SpecValue::Bool(l != r)),
{
}

/// The comparisons of two values of the same comparable type relate as an
/// order's must: `>=` is the negation of `<` and `<=` of `>`, swapping the
/// operands turns `<` into `>` and `<=` into `>=`, `!=` is the negation of
/// `==`, and `<` never holds both ways nor of a value and itself.
pub proof fn law_comparisons_relate(l: SpecValue, r: SpecValue)
    requires
        (l is Int && r is Int) || (l is Str && r is Str),
    ensures
        ({
            let lt = binary_value(BinaryOperator::LowerThan, l, r);
            let le = binary_value(BinaryOperator::LowerEqual, l, r);
            let gt = binary_value(BinaryOperator::GreaterThan, l, r);
            let ge = binary_value(BinaryOperator::GreaterEqual, l, r);
            let eq = binary_value(BinaryOperator::Equal, l, r);
            let ne = binary_value(BinaryOperator::NotEqual, l, r);
            &&& lt matches Some(SpecValue::Bool(a)) && ge == Some(SpecValue::Bool(!a))
            &&& gt matches Some(SpecValue::Bool(a)) && le == Some(SpecValue::Bool(!a))
            &&& gt == binary_value(BinaryOperator::LowerThan, r, l)
            &&& ge == binary_value(BinaryOperator::LowerEqual, r, l)
            &&& eq matches Some(SpecValue::Bool(a)) && ne == Some(SpecValue::Bool(!a))
            &&& !(lt == Some(SpecValue::Bool(true)) && gt == Some(SpecValue::Bool(true)))
            &&& l == r ==> lt == Some(SpecValue::Bool(false)) && ge == Some(SpecValue::Bool(true))
        }),
{
    match (l, r) {
        (SpecValue::Str(a), SpecValue::Str(b)) => {
            lemma_char_order_asymmetric(a, b);
        },
        _ => {},
    }
}

/// Integer arithmetic is exact where it does not overflow: a sum, a
/// difference and a product are the mathematical ones, a quotient rounds
/// toward zero (its remainder is smaller than the divisor and has the sign
/// of the dividend), and only a zero divisor or an overflow gives no value.
pub proof fn law_integer_arithmetic(l: i64, r: i64)
    ensures
        binary_value(BinaryOperator::Plus, SpecValue::Int(l), SpecValue::Int(r)) matches Some(SpecValue::Int(x)) ==> x == l + r,
        binary_value(BinaryOperator::Minus, SpecValue::Int(l), SpecValue::Int(r)) matches Some(SpecValue::Int(x)) ==> x + r == l,
        binary_value(BinaryOperator::Times, SpecValue::Int(l), SpecValue::Int(r)) matches Some(SpecValue::Int(x)) ==> x == l * r,
        binary_value(BinaryOperator::Plus, SpecValue::Int(l), SpecValue::Int(r)) == binary_value(BinaryOperator::Plus, SpecValue::Int(r), SpecValue::Int(l)),
        binary_value(BinaryOperator::Times, SpecValue::Int(l), SpecValue::Int(r)) == binary_value(BinaryOperator::Times, SpecValue::Int(r), SpecValue::Int(l)),
        i64::MIN <= l + r <= i64::MAX ==> binary_value(BinaryOperator::Plus, SpecValue::Int(l), SpecValue::Int(r)) is Some,
        i64::MIN <= l - r <= i64::MAX ==> binary_value(BinaryOperator::Minus, SpecValue::Int(l), SpecValue::Int(r)) is Some,
        binary_value(BinaryOperator::Division, SpecValue::Int(l), SpecValue::Int(r)) is None <== r == 0,
        binary_value(BinaryOperator::Division, SpecValue::Int(l), SpecValue::Int(r)) matches Some(SpecValue::Int(q)) ==> {
            let rem = l - q * r;
            &&& r != 0
            &&& (if rem < 0 { -rem } else { rem }) < (if r < 0 { -r } else { r as int })
            &&& (rem == 0 || (rem < 0) == (l < 0))
        },
{
    if r != 0 {
        if let Some(SpecValue::Int(q)) = binary_value(BinaryOperator::Division, SpecValue::Int(l), SpecValue::Int(r)) {
            let a = if l < 0 { -l } else { l as int };
            let b = if r < 0 { -r } else { r as int };
            let qa = a / b;
            assert(qa * b <= a < qa * b + b) by (nonlinear_arith)
                requires
                    b > 0,
                    a >= 0,
                    qa == a / b,
            ;
            assert(0 <= qa);
            if (l < 0) != (r < 0) {
                assert(q == -qa);
                assert(l - q * r == l + qa * r) by (nonlinear_arith)
                    requires
                        q == -qa,
                ;
                if l < 0 {
                    assert(qa * r == qa * b) by (nonlinear_arith)
                        requires
                            r == b,
                    ;
                } else {
                    assert(qa * r == -(qa * b)) by (nonlinear_arith)
                        requires
                            r == -b,
                    ;
                }
            } else {
                assert(q == qa);
                if l < 0 {
                    assert(q * r == -(qa * b)) by (nonlinear_arith)
                        requires
                            r == -b,
                            q == qa,
                    ;
                } else {
                    assert(q * r == qa * b) by (nonlinear_arith)
                        requires
                            r == b,
                            q == qa,
                    ;
                }
            }
        }
    }
}

/// Joining strings puts the right one after the left one.
pub proof fn law_string_join(l: Seq<char>, r: Seq<char>)
    ensures
        binary_value(BinaryOperator::Plus, SpecValue::Str(l), SpecValue::Str(r)) matches Some(SpecValue::Str(x))
            && x.len() == l.len() + r.len()
            && x.subrange(0, l.len() as int) == l
            && x.subrange(l.len() as int, x.len() as int) == r,
{
    let x = l + r;
    assert(x.subrange(0, l.len() as int) =~= l);
    assert(x.subrange(l.len() as int, x.len() as int) =~= r);
}

} // verus!
