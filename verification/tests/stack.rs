use std::collections::HashMap;
use trex::aggregators::compute_aggregate;
use trex::evaluation::{evaluate_expression, CompleteContext, CurrentValue, SimpleContext};
use trex::expressions::{BasicType, BinaryOperator, Expression, Value};
use trex::predicates::{
    Aggregator, ConstrainedTuple, EventSelection, ParameterDeclaration, Predicate, PredicateType, Timing, TimingBound,
};
use trex::rule_processor::PartialResult;
use trex::rules::Trigger;
use trex::stack::{partition_point, Stack, StackProvider};
use trex::tuples::{AttributeDeclaration, Event, Tuple, TupleDeclaration, TupleType};

fn temp_decl() -> TupleDeclaration {
    TupleDeclaration {
        ty: TupleType::Event,
        id: 1,
        name: "temperature".to_owned(),
        attributes: vec![
            AttributeDeclaration { name: "area".to_owned(), ty: BasicType::Str },
            AttributeDeclaration { name: "value".to_owned(), ty: BasicType::Int },
        ],
    }
}

fn temp(value: i64, time: i64) -> Event {
    Event { tuple: Tuple { ty_id: 1, data: vec![Value::Str("a".to_owned()), Value::Int(value)] }, time }
}

fn hot() -> Expression {
    Expression::BinaryOperation {
        operator: BinaryOperator::GreaterThan,
        left: Box::new(Expression::Reference { attribute: 1 }),
        right: Box::new(Expression::Immediate { value: Value::Int(45) }),
    }
}

fn window(window: i64) -> Timing {
    Timing { upper: 0, bound: TimingBound::Within { window } }
}

fn event_predicate(selection: EventSelection) -> Predicate {
    Predicate {
        ty: PredicateType::Event {
            selection,
            parameters: vec![ParameterDeclaration { name: "v".to_owned(), expression: Expression::Reference { attribute: 1 } }],
            timing: window(10),
        },
        tuple: ConstrainedTuple { ty_id: 1, constraints: vec![hot()], alias: "t".to_owned() },
    }
}

fn triggered_at(time: i64) -> PartialResult {
    PartialResult::new().insert_event(0, Event { tuple: Tuple { ty_id: 0, data: vec![] }, time })
}

#[test]
fn aggregates_over_events() {
    let attrs = temp_decl().attributes;
    let events = vec![temp(3, 0), temp(9, 1), temp(5, 2)];
    assert!(matches!(compute_aggregate(&Aggregator::Sum(1), &events, &attrs), Some(Some(Value::Int(17)))));
    assert!(matches!(compute_aggregate(&Aggregator::Min(1), &events, &attrs), Some(Some(Value::Int(3)))));
    assert!(matches!(compute_aggregate(&Aggregator::Max(1), &events, &attrs), Some(Some(Value::Int(9)))));
    assert!(matches!(compute_aggregate(&Aggregator::Count, &events, &attrs), Some(Some(Value::Int(3)))));
    assert!(matches!(compute_aggregate(&Aggregator::Min(1), &vec![], &attrs), Some(None)));
    let big = vec![temp(i64::MAX, 0), temp(1, 1)];
    assert!(compute_aggregate(&Aggregator::Sum(1), &big, &attrs).is_none());
}

#[test]
fn partition_point_finds_first_not_before() {
    let events = vec![temp(1, 0), temp(1, 5), temp(1, 5), temp(1, 9)];
    assert_eq!(partition_point(&events, 5), 1);
    assert_eq!(partition_point(&events, 6), 3);
    assert_eq!(partition_point(&events, -1), 0);
    assert_eq!(partition_point(&events, 10), 4);
}

#[test]
fn stack_keeps_locally_satisfying_events() {
    let decl = temp_decl();
    let mut stack = Stack::new(1, &decl, &event_predicate(EventSelection::Each)).unwrap();
    assert!(stack.process(&temp(50, 1)));
    assert!(stack.process(&temp(40, 2)));
    assert!(stack.process(&temp(60, 3)));
    let out = stack.evaluate(&triggered_at(5)).unwrap();
    assert_eq!(out.len(), 2);
    assert!(matches!(out[0].find_parameter((1, 0)), Some(Value::Int(50))));
    assert!(matches!(out[1].find_parameter((1, 0)), Some(Value::Int(60))));
    // the window is [t - 10, t): an event at the trigger's time is not in it
    assert_eq!(stack.evaluate(&triggered_at(3)).unwrap().len(), 1);
    // no time for the upper predicate: the evaluation fails
    assert!(stack.evaluate(&PartialResult::new()).is_none());
}

#[test]
fn stack_forgets_old_events_and_consumes() {
    let decl = temp_decl();
    let mut stack = Stack::new(1, &decl, &event_predicate(EventSelection::Last)).unwrap();
    for t in [1, 4, 8] {
        assert!(stack.process(&temp(50 + t, t)));
    }
    let mut times = HashMap::new();
    times.insert(0usize, 12i64);
    assert_eq!(stack.remove_old(&times), Some(Some(4)));
    let out = stack.evaluate(&triggered_at(12)).unwrap();
    assert_eq!(out.len(), 1);
    assert!(matches!(out[0].find_parameter((1, 0)), Some(Value::Int(58))));
    assert!(stack.consume(&temp(58, 8)));
    assert!(!stack.consume(&temp(58, 8)));
    let out = stack.evaluate(&triggered_at(12)).unwrap();
    assert!(matches!(out[0].find_parameter((1, 0)), Some(Value::Int(54))));
    assert_eq!(stack.idx(), 1);
}

#[test]
fn negation_and_aggregate_stacks() {
    let decl = temp_decl();
    let neg = Predicate {
        ty: PredicateType::EventNegation { timing: window(10) },
        tuple: ConstrainedTuple { ty_id: 1, constraints: vec![hot()], alias: "n".to_owned() },
    };
    let mut stack = Stack::new(1, &decl, &neg).unwrap();
    assert_eq!(stack.evaluate(&triggered_at(5)).unwrap().len(), 1);
    stack.process(&temp(70, 2));
    assert_eq!(stack.evaluate(&triggered_at(5)).unwrap().len(), 0);
    let aggr = Predicate {
        ty: PredicateType::EventAggregate {
            aggregator: Aggregator::Sum(1),
            parameter: ParameterDeclaration { name: "s".to_owned(), expression: Expression::Aggregate },
            timing: window(10),
        },
        tuple: ConstrainedTuple { ty_id: 1, constraints: vec![], alias: "g".to_owned() },
    };
    let mut stack = StackProvider.provide(1, &decl, &aggr, &linear_map::LinearMap::new()).unwrap();
    stack.process(&temp(7, 1));
    stack.process(&temp(8, 2));
    let out = stack.evaluate(&triggered_at(5)).unwrap();
    assert!(matches!(out[0].find_parameter((1, 0)), Some(Value::Int(15))));
    let trigger_pred = Predicate {
        ty: PredicateType::Trigger { parameters: vec![] },
        tuple: ConstrainedTuple { ty_id: 0, constraints: vec![], alias: "x".to_owned() },
    };
    assert!(Stack::new(0, &decl, &trigger_pred).is_none());
}

#[test]
fn trigger_binds_its_parameters() {
    let pred = Predicate {
        ty: PredicateType::Trigger {
            parameters: vec![ParameterDeclaration { name: "v".to_owned(), expression: Expression::Reference { attribute: 1 } }],
        },
        tuple: ConstrainedTuple { ty_id: 1, constraints: vec![hot()], alias: "t".to_owned() },
    };
    let trigger = Trigger::new(&pred);
    let res = trigger.evaluate(&temp(50, 3)).unwrap().unwrap();
    assert!(matches!(res.find_parameter((0, 0)), Some(Value::Int(50))));
    assert_eq!(res.find_time(0), Some(3));
    assert!(trigger.evaluate(&temp(40, 3)).unwrap().is_none());
    let other = Event { tuple: Tuple { ty_id: 0, data: vec![] }, time: 3 };
    assert!(trigger.evaluate(&other).unwrap().is_none());
}

#[test]
fn contexts_evaluate_expressions() {
    let t = Tuple { ty_id: 1, data: vec![Value::Str("a".to_owned()), Value::Int(50)] };
    assert!(matches!(evaluate_expression(&SimpleContext::new(&t), &hot()), Some(Value::Bool(true))));
    let res = PartialResult::new().insert_parameter((0, 0), Value::Int(4));
    let e = Expression::BinaryOperation {
        operator: BinaryOperator::Plus,
        left: Box::new(Expression::Aggregate),
        right: Box::new(Expression::Parameter { predicate: 0, parameter: 0 }),
    };
    let aggr = Value::Int(6);
    assert!(matches!(evaluate_expression(&CompleteContext::new(&res, CurrentValue::Aggr(&aggr)), &e), Some(Value::Int(10))));
    assert!(evaluate_expression(&CompleteContext::new(&res, CurrentValue::Empty), &e).is_none());
}
