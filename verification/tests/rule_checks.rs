use std::collections::HashMap;
use trex::expressions::{BasicType, BinaryOperator, Expression, UnaryOperator, Value};
use trex::predicates::{
    Aggregator, ConstrainedTuple, EventSelection, ParameterDeclaration, Predicate, PredicateType, Timing, TimingBound,
};
use trex::rule_checks::{check_rule, get_type};
use trex::tuples::{AttributeDeclaration, EventTemplate, Rule, TupleDeclaration, TupleType};

fn attr(name: &str, ty: BasicType) -> AttributeDeclaration {
    AttributeDeclaration { name: name.to_owned(), ty }
}

fn tuples() -> HashMap<usize, TupleDeclaration> {
    let mut m = HashMap::new();
    m.insert(0, TupleDeclaration { ty: TupleType::Event, id: 0, name: "smoke".to_owned(), attributes: vec![attr("area", BasicType::Str)] });
    m.insert(
        1,
        TupleDeclaration {
            ty: TupleType::Event,
            id: 1,
            name: "temperature".to_owned(),
            attributes: vec![attr("area", BasicType::Str), attr("value", BasicType::Int)],
        },
    );
    m.insert(
        2,
        TupleDeclaration {
            ty: TupleType::Event,
            id: 2,
            name: "fire".to_owned(),
            attributes: vec![attr("area", BasicType::Str), attr("temp", BasicType::Int)],
        },
    );
    m.insert(3, TupleDeclaration { ty: TupleType::Static, id: 3, name: "rooms".to_owned(), attributes: vec![attr("area", BasicType::Str)] });
    m
}

fn param(name: &str, expression: Expression) -> ParameterDeclaration {
    ParameterDeclaration { name: name.to_owned(), expression }
}

fn trigger(ty_id: usize, parameters: Vec<ParameterDeclaration>, constraints: Vec<Expression>) -> Predicate {
    Predicate { ty: PredicateType::Trigger { parameters }, tuple: ConstrainedTuple { ty_id, constraints, alias: "t".to_owned() } }
}

fn rule(predicates: Vec<Predicate>, filters: Vec<Expression>, ty_id: usize, attributes: Vec<Expression>) -> Rule {
    Rule { predicates, filters, event_template: EventTemplate { ty_id, attributes }, consuming: vec![] }
}

fn p(predicate: usize, parameter: usize) -> Expression {
    Expression::Parameter { predicate, parameter }
}

fn err(r: Result<linear_map::LinearMap<(usize, usize), BasicType>, String>) -> String {
    match r {
        Ok(_) => panic!("the check passed"),
        Err(e) => e,
    }
}

#[test]
fn fire_rule_types_its_parameters() {
    let r = rule(
        vec![
            trigger(0, vec![param("x", Expression::Reference { attribute: 0 })], vec![]),
            Predicate {
                ty: PredicateType::Event {
                    selection: EventSelection::Last,
                    parameters: vec![param("y", Expression::Reference { attribute: 1 })],
                    timing: Timing { upper: 0, bound: TimingBound::Within { window: 300 } },
                },
                tuple: ConstrainedTuple {
                    ty_id: 1,
                    constraints: vec![Expression::BinaryOperation {
                        operator: BinaryOperator::Equal,
                        left: Box::new(Expression::Reference { attribute: 0 }),
                        right: Box::new(p(0, 0)),
                    }],
                    alias: "temp".to_owned(),
                },
            },
        ],
        vec![],
        2,
        vec![p(0, 0), p(1, 0)],
    );
    let types = check_rule(&r, &tuples()).unwrap();
    assert_eq!(types.len(), 2);
    assert_eq!(types.get(&(0, 0)), Some(&BasicType::Str));
    assert_eq!(types.get(&(1, 0)), Some(&BasicType::Int));
}

#[test]
fn unknown_tuple_is_refused() {
    let r = rule(vec![trigger(9, vec![], vec![])], vec![], 2, vec![]);
    assert_eq!(err(check_rule(&r, &tuples())), "Predicate refers to unknown tuple");
}

#[test]
fn non_boolean_constraint_is_refused() {
    let r = rule(vec![trigger(1, vec![], vec![Expression::Reference { attribute: 1 }])], vec![], 2, vec![]);
    assert_eq!(err(check_rule(&r, &tuples())), "Non boolean contraint");
}

#[test]
fn wrong_operand_types_are_refused() {
    let c = Expression::BinaryOperation {
        operator: BinaryOperator::GreaterThan,
        left: Box::new(Expression::Reference { attribute: 0 }),
        right: Box::new(Expression::Immediate { value: Value::Int(45) }),
    };
    let r = rule(vec![trigger(1, vec![], vec![c])], vec![], 2, vec![]);
    assert_eq!(err(check_rule(&r, &tuples())), "Wrong operands types in comparison operation");
    let n = Expression::UnaryOperation { operator: UnaryOperator::Not, expression: Box::new(Expression::Reference { attribute: 1 }) };
    let r = rule(vec![trigger(1, vec![], vec![n])], vec![], 2, vec![]);
    assert_eq!(err(check_rule(&r, &tuples())), "Wrong operand type in unary not");
}

#[test]
fn unknown_parameter_and_attribute_are_refused() {
    let r = rule(vec![trigger(0, vec![param("x", p(0, 3))], vec![])], vec![], 2, vec![]);
    assert_eq!(err(check_rule(&r, &tuples())), "Reference to an unknown parameter");
    let r = rule(vec![trigger(0, vec![param("x", Expression::Reference { attribute: 4 })], vec![])], vec![], 2, vec![]);
    assert_eq!(err(check_rule(&r, &tuples())), "Reference to an unknown attribute");
}

#[test]
fn template_errors_are_refused() {
    let base = || vec![trigger(1, vec![param("a", Expression::Reference { attribute: 0 }), param("v", Expression::Reference { attribute: 1 })], vec![])];
    assert_eq!(err(check_rule(&rule(base(), vec![], 7, vec![]), &tuples())), "The rule produce an unknown event");
    assert_eq!(err(check_rule(&rule(base(), vec![], 3, vec![p(0, 0)]), &tuples())), "The rule produce a static tuple");
    assert_eq!(err(check_rule(&rule(base(), vec![], 2, vec![p(0, 0)]), &tuples())), "Wrong number of attributes in event template");
    assert_eq!(err(check_rule(&rule(base(), vec![], 2, vec![p(0, 1), p(0, 0)]), &tuples())), "Wrong attribute assignment");
    assert!(check_rule(&rule(base(), vec![], 2, vec![p(0, 0), p(0, 1)]), &tuples()).is_ok());
}

#[test]
fn filters_must_be_boolean() {
    let preds = vec![trigger(1, vec![param("v", Expression::Reference { attribute: 1 })], vec![])];
    let r = rule(preds, vec![p(0, 0)], 2, vec![]);
    assert_eq!(err(check_rule(&r, &tuples())), "Non boolean contraint");
}

#[test]
fn aggregate_parameter_gets_the_aggregate_type() {
    let preds = vec![
        trigger(0, vec![param("x", Expression::Reference { attribute: 0 })], vec![]),
        Predicate {
            ty: PredicateType::EventAggregate {
                aggregator: Aggregator::Avg(1),
                parameter: param("avg", Expression::Aggregate),
                timing: Timing { upper: 0, bound: TimingBound::Within { window: 300 } },
            },
            tuple: ConstrainedTuple { ty_id: 1, constraints: vec![], alias: "t".to_owned() },
        },
    ];
    let types = check_rule(&rule(preds, vec![], 0, vec![p(0, 0)]), &tuples()).unwrap();
    assert_eq!(types.get(&(1, 0)), Some(&BasicType::Float));
}

#[test]
fn aggregate_types() {
    let t = tuples();
    let temp = t.get(&1).unwrap();
    assert_eq!(get_type(&Aggregator::Avg(1), temp), Ok(BasicType::Float));
    assert_eq!(get_type(&Aggregator::Sum(1), temp), Ok(BasicType::Int));
    assert_eq!(get_type(&Aggregator::Max(1), temp), Ok(BasicType::Int));
    assert_eq!(get_type(&Aggregator::Count, temp), Ok(BasicType::Int));
    assert_eq!(get_type(&Aggregator::Min(0), temp), Err("Wrong attribute type in aggregate computation".to_owned()));
}
