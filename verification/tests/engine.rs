use trex::engine::{TRex, MAX_CASCADE};
use trex::expressions::{BasicType, BinaryOperator, Expression, Value};
use trex::native::{get_tuple_id, get_tupleattr_id};
use trex::predicates::{
    Aggregator,
    ConstrainedTuple, EventSelection, ParameterDeclaration, Predicate, PredicateType, Timing, TimingBound,
};
use trex::tuples::{AttributeDeclaration, Event, EventTemplate, Rule, Tuple, TupleDeclaration, TupleType};

const MINUTE: i64 = 60_000_000_000;

fn attr(name: &str, ty: BasicType) -> AttributeDeclaration {
    AttributeDeclaration { name: name.to_owned(), ty }
}

fn declare_all(engine: &mut TRex) {
    // `declare smoke(area: string) with id 0`
    engine.declare(TupleDeclaration {
        ty: TupleType::Event,
        id: 0,
        name: "smoke".to_owned(),
        attributes: vec![attr("area", BasicType::Str)],
    });
    engine.declare(TupleDeclaration {
        ty: TupleType::Event,
        id: 1,
        name: "temperature".to_owned(),
        attributes: vec![attr("area", BasicType::Str), attr("value", BasicType::Int)],
    });
    engine.declare(TupleDeclaration {
        ty: TupleType::Event,
        id: 2,
        name: "fire".to_owned(),
        attributes: vec![attr("area", BasicType::Str), attr("temp", BasicType::Int)],
    });
}

/// `from smoke[x = area]() and last temperature[y = value](area == x, value > 45)
/// within 5 min from smoke emit fire(area = x, temp = y)`
fn fire_rule(selection: EventSelection) -> Rule {
    Rule {
        predicates: vec![
            Predicate {
                ty: PredicateType::Trigger {
                    parameters: vec![ParameterDeclaration {
                        name: "x".to_owned(),
                        expression: Expression::Reference { attribute: 0 },
                    }],
                },
                tuple: ConstrainedTuple { ty_id: 0, constraints: vec![], alias: "smk".to_owned() },
            },
            Predicate {
                ty: PredicateType::Event {
                    selection,
                    parameters: vec![ParameterDeclaration {
                        name: "y".to_owned(),
                        expression: Expression::Reference { attribute: 1 },
                    }],
                    timing: Timing { upper: 0, bound: TimingBound::Within { window: 5 * MINUTE } },
                },
                tuple: ConstrainedTuple {
                    ty_id: 1,
                    constraints: vec![
                        Expression::BinaryOperation {
                            operator: BinaryOperator::Equal,
                            left: Box::new(Expression::Reference { attribute: 0 }),
                            right: Box::new(Expression::Parameter { predicate: 0, parameter: 0 }),
                        },
                        Expression::BinaryOperation {
                            operator: BinaryOperator::GreaterThan,
                            left: Box::new(Expression::Reference { attribute: 1 }),
                            right: Box::new(Expression::Immediate { value: Value::Int(45) }),
                        },
                    ],
                    alias: "temp".to_owned(),
                },
            },
        ],
        filters: vec![],
        event_template: EventTemplate {
            ty_id: 2,
            attributes: vec![
                Expression::Parameter { predicate: 0, parameter: 0 },
                Expression::Parameter { predicate: 1, parameter: 0 },
            ],
        },
        consuming: vec![],
    }
}

fn smoke(area: &str, time: i64) -> Event {
    Event { tuple: Tuple { ty_id: 0, data: vec![Value::Str(area.to_owned())] }, time }
}

fn temperature(area: &str, value: i64, time: i64) -> Event {
    Event { tuple: Tuple { ty_id: 1, data: vec![Value::Str(area.to_owned()), Value::Int(value)] }, time }
}

fn is_fire(e: &Event, area: &str, temp: i64, time: i64) -> bool {
    e.tuple.ty_id == 2
        && e.time == time
        && e.tuple.data.len() == 2
        && matches!(&e.tuple.data[0], Value::Str(s) if s == area)
        && matches!(&e.tuple.data[1], Value::Int(t) if *t == temp)
}

fn fire_engine(selection: EventSelection) -> TRex {
    let mut engine = TRex::new();
    declare_all(&mut engine);
    engine.define(fire_rule(selection));
    engine
}

#[test]
fn smoke_after_hot_temperature_gives_fire() {
    let mut engine = fire_engine(EventSelection::Last);
    let delivered = engine.publish(&temperature("kitchen", 50, 0)).unwrap();
    assert_eq!(delivered.len(), 1);
    let delivered = engine.publish(&smoke("kitchen", MINUTE)).unwrap();
    assert_eq!(delivered.len(), 2);
    assert_eq!(delivered[0].tuple.ty_id, 0);
    assert!(is_fire(&delivered[1], "kitchen", 50, MINUTE));
}

#[test]
fn cool_temperature_gives_no_fire() {
    let mut engine = fire_engine(EventSelection::Last);
    engine.publish(&temperature("kitchen", 45, 0)).unwrap();
    let delivered = engine.publish(&smoke("kitchen", MINUTE)).unwrap();
    assert_eq!(delivered.len(), 1);
}

#[test]
fn other_area_gives_no_fire() {
    let mut engine = fire_engine(EventSelection::Last);
    engine.publish(&temperature("garage", 80, 0)).unwrap();
    let delivered = engine.publish(&smoke("kitchen", MINUTE)).unwrap();
    assert_eq!(delivered.len(), 1);
}

#[test]
fn old_temperature_is_outside_the_window() {
    let mut engine = fire_engine(EventSelection::Last);
    engine.publish(&temperature("kitchen", 80, 0)).unwrap();
    let delivered = engine.publish(&smoke("kitchen", 6 * MINUTE)).unwrap();
    assert_eq!(delivered.len(), 1);
}

#[test]
fn last_selection_takes_the_latest_temperature() {
    let mut engine = fire_engine(EventSelection::Last);
    engine.publish(&temperature("kitchen", 60, 0)).unwrap();
    engine.publish(&temperature("kitchen", 70, MINUTE)).unwrap();
    let delivered = engine.publish(&smoke("kitchen", 2 * MINUTE)).unwrap();
    assert_eq!(delivered.len(), 2);
    assert!(is_fire(&delivered[1], "kitchen", 70, 2 * MINUTE));
}

#[test]
fn first_selection_takes_the_earliest_temperature() {
    let mut engine = fire_engine(EventSelection::First);
    engine.publish(&temperature("kitchen", 60, 0)).unwrap();
    engine.publish(&temperature("kitchen", 70, MINUTE)).unwrap();
    let delivered = engine.publish(&smoke("kitchen", 2 * MINUTE)).unwrap();
    assert_eq!(delivered.len(), 2);
    assert!(is_fire(&delivered[1], "kitchen", 60, 2 * MINUTE));
}

#[test]
fn each_selection_takes_every_temperature_in_order() {
    let mut engine = fire_engine(EventSelection::Each);
    engine.publish(&temperature("kitchen", 60, 0)).unwrap();
    engine.publish(&temperature("kitchen", 70, MINUTE)).unwrap();
    let delivered = engine.publish(&smoke("kitchen", 2 * MINUTE)).unwrap();
    assert_eq!(delivered.len(), 3);
    assert!(is_fire(&delivered[1], "kitchen", 60, 2 * MINUTE));
    assert!(is_fire(&delivered[2], "kitchen", 70, 2 * MINUTE));
}

#[test]
fn unrelated_event_is_delivered_alone() {
    let mut engine = fire_engine(EventSelection::Last);
    let fire = Event {
        tuple: Tuple { ty_id: 2, data: vec![Value::Str("kitchen".to_owned()), Value::Int(90)] },
        time: 0,
    };
    let delivered = engine.publish(&fire).unwrap();
    assert_eq!(delivered.len(), 1);
    assert_eq!(engine.last_time(), 0);
}

#[test]
fn a_rule_on_derived_events_cascades() {
    let mut engine = fire_engine(EventSelection::Last);
    // `declare alarm(area: string) with id 3`; `from fire[a = area]() emit alarm(area = a)`
    engine.declare(TupleDeclaration {
        ty: TupleType::Event,
        id: 3,
        name: "alarm".to_owned(),
        attributes: vec![attr("area", BasicType::Str)],
    });
    engine.define(Rule {
        predicates: vec![Predicate {
            ty: PredicateType::Trigger {
                parameters: vec![ParameterDeclaration {
                    name: "a".to_owned(),
                    expression: Expression::Reference { attribute: 0 },
                }],
            },
            tuple: ConstrainedTuple { ty_id: 2, constraints: vec![], alias: "f".to_owned() },
        }],
        filters: vec![],
        event_template: EventTemplate {
            ty_id: 3,
            attributes: vec![Expression::Parameter { predicate: 0, parameter: 0 }],
        },
        consuming: vec![],
    });
    engine.publish(&temperature("hall", 99, 0)).unwrap();
    let delivered = engine.publish(&smoke("hall", MINUTE)).unwrap();
    assert_eq!(delivered.len(), 3);
    assert_eq!(delivered[0].tuple.ty_id, 0);
    assert!(is_fire(&delivered[1], "hall", 99, MINUTE));
    assert_eq!(delivered[2].tuple.ty_id, 3);
    assert!(matches!(&delivered[2].tuple.data[0], Value::Str(s) if s == "hall"));
    assert!(MAX_CASCADE > 1);
}

#[test]
fn names_find_declared_types_and_attributes() {
    let engine = fire_engine(EventSelection::Last);
    assert_eq!(engine.tuple_id("smoke"), Some(0));
    assert_eq!(engine.tuple_id("fire"), Some(2));
    assert_eq!(engine.tuple_id("rain"), None);
    assert_eq!(engine.tupleattr_id("temperature", "value"), Some(1));
    assert_eq!(engine.tupleattr_id("fire", "area"), Some(0));
    assert_eq!(engine.tupleattr_id("fire", "pressure"), None);
    assert_eq!(get_tuple_id(&engine, "temperature"), Some(1));
    assert_eq!(get_tupleattr_id(&engine, "smoke", "area"), Some(0));
    assert!(engine.is_declared(1));
    assert!(!engine.is_declared(9));
}

#[test]
fn subscriptions_get_fresh_identifiers() {
    let mut engine = TRex::new();
    let a = engine.subscribe();
    let b = engine.subscribe();
    assert_eq!((a, b), (1, 2));
    assert!(engine.unsubscribe(a));
    assert!(!engine.unsubscribe(a));
    let c = engine.subscribe();
    assert_eq!(c, 3);
    assert_eq!(engine.last_id(), 3);
    assert!(engine.unsubscribe(b));
    assert!(engine.unsubscribe(c));
}

#[test]
fn only_well_typed_event_rules_can_be_defined() {
    let mut engine = TRex::new();
    declare_all(&mut engine);
    assert!(engine.can_define(&fire_rule(EventSelection::Last)));

    let empty = Rule {
        predicates: vec![],
        filters: vec![],
        event_template: EventTemplate { ty_id: 2, attributes: vec![] },
        consuming: vec![],
    };
    assert!(!engine.can_define(&empty));

    // the second predicate is not an event predicate
    let mut not_event = fire_rule(EventSelection::Last);
    not_event.predicates[1].ty = PredicateType::UnorderedStatic { parameters: vec![] };
    assert!(!engine.can_define(&not_event));

    // the template gives a string where an integer is declared
    let mut wrong_template = fire_rule(EventSelection::Last);
    wrong_template.event_template.attributes[1] = Expression::Parameter { predicate: 0, parameter: 0 };
    assert!(!engine.can_define(&wrong_template));

    // an aggregate over an attribute `temperature` does not have
    let mut bad_aggregate = fire_rule(EventSelection::Last);
    bad_aggregate.predicates[1].ty = PredicateType::EventAggregate {
        aggregator: Aggregator::Avg(5),
        parameter: ParameterDeclaration { name: "y".to_owned(), expression: Expression::Aggregate },
        timing: Timing { upper: 0, bound: TimingBound::Within { window: MINUTE } },
    };
    assert!(!engine.can_define(&bad_aggregate));

    // with an undeclared type
    let fresh = TRex::new();
    assert!(!fresh.can_define(&fire_rule(EventSelection::Last)));
}

#[test]
fn lookups_by_name_after_the_example_declarations() {
    let mut engine = TRex::new();
    declare_all(&mut engine);
    assert_eq!(engine.tuple_id("smoke"), Some(0));
    assert_eq!(engine.tuple_id("fire"), Some(2));
    assert_eq!(engine.tuple_id("rain"), None);
    assert_eq!(engine.tupleattr_id("temperature", "value"), Some(1));
    assert_eq!(engine.tupleattr_id("fire", "area"), Some(0));
    assert_eq!(engine.tupleattr_id("fire", "value"), None);
}
