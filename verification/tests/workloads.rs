use trex::expressions::{BasicType, BinaryOperator, Expression, Value};
use trex::predicates::{EventSelection, PredicateType, Timing, TimingBound};
use trex::tuples::TupleType;
use trex::workloads::{equivalence_declarations, equivalence_rules, length_declarations, length_rules, HUNDRED_DAYS};

fn names(v: &[&str]) -> Vec<String> {
    v.iter().map(|s| s.to_string()).collect()
}

#[test]
fn length_rules_follow_the_draws() {
    let draws = vec![
        vec![(EventSelection::First, 5), (EventSelection::Last, 7)],
        vec![(EventSelection::Each, 1), (EventSelection::Each, 2)],
        vec![(EventSelection::Last, 0), (EventSelection::First, 3)],
    ];
    let aliases = vec![names(&["a", "b", "c"]), names(&["d", "e", "f"]), names(&["g", "h", "i"])];
    let rules = length_rules(3, 2, 3, true, &draws, &aliases);
    assert_eq!(rules.len(), 3);
    // rule 2 belongs to family 1
    let r = &rules[2];
    assert_eq!(r.event_template.ty_id, 1);
    assert!(r.event_template.attributes.is_empty());
    assert_eq!(r.consuming, vec![1]);
    assert_eq!(r.predicates.len(), 3);
    assert!(matches!(&r.predicates[0].ty, PredicateType::Trigger { parameters } if parameters.is_empty()));
    assert_eq!(r.predicates[0].tuple.ty_id, 1000);
    assert_eq!(r.predicates[0].tuple.alias, "g");
    match &r.predicates[2].ty {
        PredicateType::Event { selection, parameters, timing } => {
            assert_eq!(*selection, EventSelection::First);
            assert!(parameters.is_empty());
            assert_eq!(*timing, Timing { upper: 1, bound: TimingBound::Within { window: 3_000_000 } });
        }
        other => panic!("unexpected {:?}", other),
    }
    assert_eq!(r.predicates[2].tuple.ty_id, 1002);
    assert!(matches!(
        &r.predicates[2].tuple.constraints[0],
        Expression::BinaryOperation { operator: BinaryOperator::Equal, left, right }
            if matches!(**left, Expression::Reference { attribute: 0 })
                && matches!(**right, Expression::Immediate { value: Value::Int(1) })
    ));
    assert_eq!(rules[1].predicates[0].tuple.ty_id, 2000);
}

#[test]
fn length_declarations_per_family() {
    let decl_names = vec![names(&["p0", "p1", "out1"]), names(&["q0", "q1", "out2"])];
    let attr_names = vec![names(&["x", "y"]), names(&["z", "w"])];
    let decls = length_declarations(2, 2, &decl_names, &attr_names);
    assert_eq!(decls.len(), 6);
    assert_eq!(decls[0].id, 1000);
    assert_eq!(decls[0].name, "p0");
    assert_eq!(decls[0].attributes[0].name, "x");
    assert_eq!(decls[2].id, 1);
    assert!(decls[2].attributes.is_empty());
    assert_eq!(decls[4].id, 2001);
    assert_eq!(decls[4].attributes[0].name, "w");
}

#[test]
fn equivalence_declarations_are_numbered() {
    let decls = equivalence_declarations(2, 3, 4);
    assert_eq!(decls.len(), 2 * 4 + 1);
    assert_eq!(decls[0].id, 1);
    assert_eq!(decls[0].name, "event1");
    assert_eq!(decls[0].attributes[0].name, "attr");
    assert_eq!(decls[4].id, 2);
    assert_eq!(decls[5].id, 2000);
    assert_eq!(decls[5].name, "event2000");
    assert_eq!(decls[5].attributes.len(), 2);
    assert_eq!(decls[7].id, 2002);
    assert_eq!(decls[7].attributes.len(), 3);
    assert_eq!(decls[7].attributes[2].name, "attr2");
    let test = &decls[8];
    assert_eq!(test.id, 0);
    assert_eq!(test.name, "test");
    assert_eq!(test.ty, TupleType::Event);
    assert_eq!(test.attributes.len(), 4);
    assert_eq!(test.attributes[3].name, "col3");
    assert_eq!(test.attributes[3].ty, BasicType::Int);
}

#[test]
fn equivalence_rules_with_and_without_query() {
    let draws = vec![
        (true, vec![(EventSelection::Each, 10), (EventSelection::Last, 20)]),
        (false, vec![(EventSelection::First, 30), (EventSelection::Each, 40)]),
    ];
    let rules = equivalence_rules(2, 5, 3, 2, 2, false, &draws);
    assert_eq!(rules.len(), 2);
    let r = &rules[0];
    assert_eq!(r.predicates.len(), 4);
    assert_eq!(r.predicates[0].tuple.alias, "alias1000");
    match &r.predicates[0].ty {
        PredicateType::Trigger { parameters } => {
            assert_eq!(parameters[0].name, "param0x1");
            assert!(matches!(parameters[0].expression, Expression::Reference { attribute: 1 }));
        }
        other => panic!("unexpected {:?}", other),
    }
    match &r.predicates[2].ty {
        PredicateType::Event { parameters, timing, .. } => {
            assert_eq!(parameters.len(), 2);
            assert_eq!(parameters[1].name, "param2x1");
            assert!(matches!(parameters[1].expression, Expression::Reference { attribute: 2 }));
            assert_eq!(timing.upper, 1);
        }
        other => panic!("unexpected {:?}", other),
    }
    let q = &r.predicates[3];
    assert_eq!(q.tuple.ty_id, 0);
    assert_eq!(q.tuple.alias, "alias0");
    assert_eq!(q.tuple.constraints.len(), 3);
    assert!(matches!(
        &q.tuple.constraints[2],
        Expression::BinaryOperation { operator: BinaryOperator::LowerThan, left, .. }
            if matches!(**left, Expression::Parameter { predicate: 1, parameter: 0 })
    ));
    match &q.ty {
        PredicateType::Event { selection, parameters, timing } => {
            assert_eq!(*selection, EventSelection::Each);
            assert_eq!(parameters[1].name, "param3x1");
            assert_eq!(timing.bound, TimingBound::Within { window: HUNDRED_DAYS });
        }
        other => panic!("unexpected {:?}", other),
    }
    assert!(matches!(r.event_template.attributes[0], Expression::Parameter { predicate: 3, parameter: 0 }));
    assert_eq!(rules[1].predicates.len(), 3);
    assert_eq!(rules[1].predicates[1].tuple.alias, "alias2001");
}
