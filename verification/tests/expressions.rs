use trex::expressions::{same_value, BasicType, BinaryOperator, Expression, UnaryOperator, Value};
use trex::operations::{binary, unary};
use trex::predicates::{ConstrainedTuple, ParameterDeclaration, Predicate, PredicateType};

fn ival(x: i64) -> Value {
    Value::Int(x)
}

fn s(x: &str) -> Value {
    Value::Str(x.to_owned())
}

fn p(predicate: usize, parameter: usize) -> Expression {
    Expression::Parameter { predicate, parameter }
}

fn bin(operator: BinaryOperator, left: Expression, right: Expression) -> Expression {
    Expression::BinaryOperation { operator, left: Box::new(left), right: Box::new(right) }
}

fn same(a: Option<Value>, b: Value) -> bool {
    matches!(a, Some(v) if same_value(&v, &b))
}

#[test]
fn unwraps_and_types() {
    assert_eq!(ival(7).unwrap_int(), 7);
    assert!(Value::Bool(true).unwrap_bool());
    assert_eq!(s("abc").unwrap_string(), "abc");
    assert_eq!(ival(1).get_type(), BasicType::Int);
    assert_eq!(Value::Float(0).get_type(), BasicType::Float);
    assert_eq!(s("").get_type(), BasicType::Str);
    assert_eq!(Value::Bool(false).get_type(), BasicType::Bool);
}

#[test]
fn integer_arithmetic() {
    assert!(same(binary::evaluate(&BinaryOperator::Plus, &ival(2), &ival(3)), ival(5)));
    assert!(same(binary::evaluate(&BinaryOperator::Minus, &ival(2), &ival(3)), ival(-1)));
    assert!(same(binary::evaluate(&BinaryOperator::Times, &ival(-4), &ival(3)), ival(-12)));
    // division rounds toward zero
    assert!(same(binary::evaluate(&BinaryOperator::Division, &ival(-7), &ival(2)), ival(-3)));
    assert!(same(binary::evaluate(&BinaryOperator::Division, &ival(7), &ival(2)), ival(3)));
}

#[test]
fn failing_integer_arithmetic() {
    assert!(binary::evaluate(&BinaryOperator::Division, &ival(1), &ival(0)).is_none());
    assert!(binary::evaluate(&BinaryOperator::Plus, &ival(i64::MAX), &ival(1)).is_none());
    assert!(binary::evaluate(&BinaryOperator::Division, &ival(i64::MIN), &ival(-1)).is_none());
    assert!(unary::evaluate(&UnaryOperator::Minus, &ival(i64::MIN)).is_none());
    assert!(binary::evaluate(&BinaryOperator::Plus, &ival(1), &s("a")).is_none());
}

#[test]
fn comparisons_and_logic() {
    assert!(same(binary::evaluate(&BinaryOperator::GreaterThan, &ival(50), &ival(45)), Value::Bool(true)));
    assert!(same(binary::evaluate(&BinaryOperator::LowerEqual, &ival(45), &ival(45)), Value::Bool(true)));
    assert!(same(binary::evaluate(&BinaryOperator::NotEqual, &Value::Bool(true), &Value::Bool(false)), Value::Bool(true)));
    assert!(same(binary::evaluate(&BinaryOperator::LowerThan, &s("abc"), &s("abd")), Value::Bool(true)));
    assert!(same(binary::evaluate(&BinaryOperator::GreaterEqual, &s("b"), &s("abc")), Value::Bool(true)));
    assert!(same(binary::evaluate(&BinaryOperator::Equal, &s("kitchen"), &s("kitchen")), Value::Bool(true)));
    assert!(same(binary::evaluate(&BinaryOperator::Plus, &s("ab"), &s("cd")), s("abcd")));
    assert!(same(unary::evaluate(&UnaryOperator::Not, &Value::Bool(true)), Value::Bool(false)));
    assert!(same(unary::evaluate(&UnaryOperator::Minus, &ival(5)), ival(-5)));
}

#[test]
fn operator_types_and_errors() {
    assert_eq!(binary::get_type(&BinaryOperator::Plus, &BasicType::Int, &BasicType::Int), Ok(BasicType::Int));
    assert_eq!(binary::get_type(&BinaryOperator::Equal, &BasicType::Str, &BasicType::Str), Ok(BasicType::Bool));
    assert_eq!(
        binary::get_type(&BinaryOperator::Plus, &BasicType::Int, &BasicType::Float),
        Err("Wrong operands types in arithmetic operation".to_owned())
    );
    assert_eq!(
        binary::get_type(&BinaryOperator::Equal, &BasicType::Int, &BasicType::Bool),
        Err("Wrong operands types in equality operation".to_owned())
    );
    assert_eq!(
        binary::get_type(&BinaryOperator::LowerThan, &BasicType::Bool, &BasicType::Bool),
        Err("Wrong operands types in comparison operation".to_owned())
    );
    assert_eq!(unary::get_type(&UnaryOperator::Minus, &BasicType::Float), Ok(BasicType::Float));
    assert_eq!(unary::get_type(&UnaryOperator::Minus, &BasicType::Str), Err("Wrong operand type in unary minus".to_owned()));
    assert_eq!(unary::get_type(&UnaryOperator::Not, &BasicType::Int), Err("Wrong operand type in unary not".to_owned()));
}

#[test]
fn locality_and_parameters() {
    let local = bin(BinaryOperator::GreaterThan, Expression::Reference { attribute: 1 }, Expression::Immediate { value: ival(45) });
    assert!(local.is_local());
    assert!(local.get_parameters().is_empty());
    assert_eq!(local.get_last_predicate(), None);
    let e = bin(BinaryOperator::Plus, bin(BinaryOperator::Plus, p(2, 1), p(0, 3)), p(2, 1));
    assert!(!e.is_local());
    assert_eq!(e.get_parameters(), vec![(0, 3), (2, 1)]);
    assert_eq!(e.get_last_predicate(), Some(2));
}

#[test]
fn predicate_used_parameters() {
    let pred = Predicate {
        ty: PredicateType::Trigger {
            parameters: vec![ParameterDeclaration { name: "x".to_owned(), expression: p(1, 0) }],
        },
        tuple: ConstrainedTuple {
            ty_id: 0,
            constraints: vec![bin(BinaryOperator::Equal, p(0, 2), p(1, 0))],
            alias: "a".to_owned(),
        },
    };
    assert_eq!(pred.get_used_parameters(), vec![(0, 2), (1, 0)]);
}

#[test]
fn string_order_is_lexicographic() {
    for (a, b) in [("", "a"), ("ab", "abc"), ("abc", "abd"), ("Zeta", "alpha"), ("é", "ü"), ("a", "é"), ("x", "x")] {
        assert!(same(binary::evaluate(&BinaryOperator::LowerThan, &s(a), &s(b)), Value::Bool(a < b)), "{} < {}", a, b);
        assert!(same(binary::evaluate(&BinaryOperator::GreaterThan, &s(a), &s(b)), Value::Bool(a > b)), "{} > {}", a, b);
    }
}
