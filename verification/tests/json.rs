use trex::engine::TRex;
use trex::expressions::{BasicType, BinaryOperator, Expression, UnaryOperator, Value};
use trex::json::{parse_json, FloatReader, JsonValue};
use trex::predicates::{
    Aggregator, AttributeOrdering, ConstrainedTuple, EventSelection, Order, ParameterDeclaration, Predicate,
    PredicateType, Timing, TimingBound,
};
use trex::tuples::{AttributeDeclaration, Event, EventTemplate, Rule, Tuple, TupleDeclaration, TupleType};

struct TextFloats;

impl FloatReader for TextFloats {
    fn read_float(&self, text: &String) -> Option<u64> {
        text.parse::<f64>().ok().map(|f| f.to_bits())
    }
}

fn s(t: &str) -> JsonValue {
    JsonValue::String(t.to_owned())
}

fn obj(members: Vec<(&str, JsonValue)>) -> JsonValue {
    let mut entries: Vec<(String, JsonValue)> = members.into_iter().map(|(k, v)| (k.to_owned(), v)).collect();
    entries.sort_by(|a, b| a.0.cmp(&b.0));
    JsonValue::Object(entries)
}

fn arr(items: Vec<JsonValue>) -> JsonValue {
    JsonValue::Array(items)
}

fn value_msg(ty: &str, value: &str) -> JsonValue {
    obj(vec![("type", s(ty)), ("value", s(value))])
}

fn engine_with_smoke() -> TRex {
    let mut engine = TRex::new();
    engine.declare(TupleDeclaration {
        ty: TupleType::Event,
        id: 0,
        name: "smoke".to_owned(),
        attributes: vec![AttributeDeclaration { name: "area".to_owned(), ty: BasicType::Str }],
    });
    engine.declare(TupleDeclaration {
        ty: TupleType::Event,
        id: 1,
        name: "temperature".to_owned(),
        attributes: vec![
            AttributeDeclaration { name: "area".to_owned(), ty: BasicType::Str },
            AttributeDeclaration { name: "value".to_owned(), ty: BasicType::Int },
        ],
    });
    engine
}

#[test]
fn basic_types_from_names() {
    assert_eq!(BasicType::from_json(&s("Int")), Some(BasicType::Int));
    assert_eq!(BasicType::from_json(&s("Float")), Some(BasicType::Float));
    assert_eq!(BasicType::from_json(&s("Bool")), Some(BasicType::Bool));
    assert_eq!(BasicType::from_json(&s("Str")), Some(BasicType::Str));
    assert_eq!(BasicType::from_json(&s("Date")), Some(BasicType::Str));
    assert_eq!(BasicType::from_json(&JsonValue::I64(3)), None);
}

#[test]
fn values_of_each_type() {
    let r = TextFloats;
    assert!(matches!(Value::from_json(&value_msg("Int", "-42"), &r), Some(Value::Int(-42))));
    assert!(matches!(Value::from_json(&value_msg("Bool", "true"), &r), Some(Value::Bool(true))));
    assert!(matches!(Value::from_json(&value_msg("Bool", "false"), &r), Some(Value::Bool(false))));
    match Value::from_json(&value_msg("Str", "kitchen"), &r) {
        Some(Value::Str(t)) => assert_eq!(t, "kitchen"),
        other => panic!("unexpected {:?}", other),
    }
    match Value::from_json(&value_msg("Float", "1.5"), &r) {
        Some(Value::Float(bits)) => assert_eq!(f64::from_bits(bits), 1.5),
        other => panic!("unexpected {:?}", other),
    }
}

#[test]
fn values_that_do_not_parse() {
    let r = TextFloats;
    // beyond i32
    assert!(Value::from_json(&value_msg("Int", "2147483648"), &r).is_none());
    assert!(matches!(Value::from_json(&value_msg("Int", "2147483647"), &r), Some(Value::Int(2147483647))));
    assert!(Value::from_json(&value_msg("Int", "12a"), &r).is_none());
    assert!(Value::from_json(&value_msg("Bool", "yes"), &r).is_none());
    assert!(Value::from_json(&obj(vec![("type", s("Int"))]), &r).is_none());
}

#[test]
fn operators_with_defaults() {
    assert_eq!(UnaryOperator::from_json(&obj(vec![("UnaryOperator", s("Not"))])), Some(UnaryOperator::Not));
    assert_eq!(UnaryOperator::from_json(&obj(vec![("UnaryOperator", s("Other"))])), Some(UnaryOperator::Minus));
    assert_eq!(
        BinaryOperator::from_json(&obj(vec![("BinaryOperator", s("Plus"))])),
        Some(BinaryOperator::Plus)
    );
    assert_eq!(
        BinaryOperator::from_json(&obj(vec![("BinaryOperator", s("LowerEqual"))])),
        Some(BinaryOperator::LowerEqual)
    );
    assert_eq!(BinaryOperator::from_json(&obj(vec![])), None);
}

#[test]
fn tuple_declaration_message() {
    let msg = obj(vec![
        ("ty", s("Event")),
        ("id", JsonValue::U64(7)),
        ("name", s("smoke")),
        (
            "attributes",
            arr(vec![obj(vec![("name", s("area")), ("ty", s("Str"))])]),
        ),
    ]);
    let d = TupleDeclaration::from_json(&msg).unwrap();
    assert_eq!(d.ty, TupleType::Event);
    assert_eq!(d.id, 7);
    assert_eq!(d.name, "smoke");
    assert_eq!(d.attributes.len(), 1);
    assert_eq!(d.attributes[0].name, "area");
    assert_eq!(d.attributes[0].ty, BasicType::Str);

    let bad = obj(vec![("ty", s("Static")), ("id", JsonValue::I64(-1)), ("name", s("x")), ("attributes", arr(vec![]))]);
    assert!(TupleDeclaration::from_json(&bad).is_none());
    assert_eq!(TupleType::from_json(&s("Static")), Some(TupleType::Static));
    assert_eq!(TupleType::from_json(&s("anything")), Some(TupleType::Static));
}

#[test]
fn selections_aggregators_and_orderings() {
    assert_eq!(EventSelection::from_json(&s("First")), Some(EventSelection::First));
    assert_eq!(EventSelection::from_json(&s("Last")), Some(EventSelection::Last));
    assert_eq!(EventSelection::from_json(&s("Each")), Some(EventSelection::Each));
    assert_eq!(EventSelection::from_json(&s("?")), Some(EventSelection::Each));
    assert_eq!(
        Aggregator::from_json(&obj(vec![("Aggregator", s("Max")), ("value", s("2"))])),
        Some(Aggregator::Max(2))
    );
    assert_eq!(
        Aggregator::from_json(&obj(vec![("Aggregator", s("Count")), ("value", s("0"))])),
        Some(Aggregator::Avg(0))
    );
    assert_eq!(Aggregator::from_json(&obj(vec![("Aggregator", s("Sum")), ("value", s("-1"))])), None);
    assert_eq!(Order::from_json(&obj(vec![("Order", s("Desc"))])), Some(Order::Desc));
    assert_eq!(Order::from_json(&obj(vec![("Order", s("x"))])), Some(Order::Asc));
    assert_eq!(
        AttributeOrdering::from_json(&obj(vec![("attribute", s("3")), ("order", obj(vec![("Order", s("Desc"))]))])),
        Some(AttributeOrdering { attribute: 3, direction: Order::Desc })
    );
}

#[test]
fn timings_in_seconds() {
    assert_eq!(
        TimingBound::from_json(&obj(vec![("type", s("Within")), ("lower", s("5"))])),
        Some(TimingBound::Within { window: 5_000_000_000 })
    );
    assert_eq!(
        TimingBound::from_json(&obj(vec![("type", s("Between")), ("lower", s("1"))])),
        Some(TimingBound::Between { lower: 1 })
    );
    // a window that does not fit in nanoseconds
    assert_eq!(TimingBound::from_json(&obj(vec![("type", s("Within")), ("lower", s("9223372037"))])), None);
    assert_eq!(
        Timing::from_json(&obj(vec![
            ("upper", s("0")),
            ("bound", obj(vec![("type", s("Within")), ("lower", s("60"))])),
        ])),
        Some(Timing { upper: 0, bound: TimingBound::Within { window: 60_000_000_000 } })
    );
}

#[test]
fn expressions_resolve_names() {
    let engine = engine_with_smoke();
    let r = TextFloats;
    let reference = obj(vec![("Reference", obj(vec![("attribute", s("temperature::value"))]))]);
    assert!(matches!(
        Expression::from_json(&reference, &engine, &r),
        Some(Expression::Reference { attribute: 1 })
    ));
    let unknown = obj(vec![("Reference", obj(vec![("attribute", s("temperature::humidity"))]))]);
    assert!(Expression::from_json(&unknown, &engine, &r).is_none());
    let no_sep = obj(vec![("Reference", obj(vec![("attribute", s("value"))]))]);
    assert!(Expression::from_json(&no_sep, &engine, &r).is_none());
    let param = obj(vec![(
        "Parameter",
        obj(vec![("predicate", JsonValue::U64(0)), ("parameter", JsonValue::I64(1))]),
    )]);
    assert!(matches!(
        Expression::from_json(&param, &engine, &r),
        Some(Expression::Parameter { predicate: 0, parameter: 1 })
    ));
    let imm = obj(vec![("Immediate", JsonValue::Null), ("value", value_msg("Int", "45"))]);
    assert!(matches!(
        Expression::from_json(&imm, &engine, &r),
        Some(Expression::Immediate { value: Value::Int(45) })
    ));
    let cmp = obj(vec![(
        "BinaryOperation",
        obj(vec![
            ("operator", s("Equal")),
            ("left", reference.clone_msg()),
            ("right", param.clone_msg()),
        ]),
    )]);
    match Expression::from_json(&cmp, &engine, &r) {
        Some(Expression::BinaryOperation { operator, left, right }) => {
            assert_eq!(operator, BinaryOperator::Equal);
            assert!(matches!(*left, Expression::Reference { attribute: 1 }));
            assert!(matches!(*right, Expression::Parameter { predicate: 0, parameter: 1 }));
        }
        other => panic!("unexpected {:?}", other),
    }
    // a right side that is not a parameter stands for 45
    let cmp45 = obj(vec![(
        "BinaryOperation",
        obj(vec![("operator", s("Foo")), ("left", reference.clone_msg()), ("right", obj(vec![]))]),
    )]);
    match Expression::from_json(&cmp45, &engine, &r) {
        Some(Expression::BinaryOperation { operator, right, .. }) => {
            assert_eq!(operator, BinaryOperator::GreaterThan);
            assert!(matches!(*right, Expression::Immediate { value: Value::Int(45) }));
        }
        other => panic!("unexpected {:?}", other),
    }
}

trait CloneMsg {
    fn clone_msg(&self) -> JsonValue;
}

impl CloneMsg for JsonValue {
    fn clone_msg(&self) -> JsonValue {
        match self {
            JsonValue::Null => JsonValue::Null,
            JsonValue::Bool(b) => JsonValue::Bool(*b),
            JsonValue::I64(i) => JsonValue::I64(*i),
            JsonValue::U64(u) => JsonValue::U64(*u),
            JsonValue::F64(f) => JsonValue::F64(*f),
            JsonValue::String(t) => JsonValue::String(t.clone()),
            JsonValue::Array(v) => JsonValue::Array(v.iter().map(|x| x.clone_msg()).collect()),
            JsonValue::Object(m) => JsonValue::Object(m.iter().map(|(k, x)| (k.clone(), x.clone_msg())).collect()),
        }
    }
}

fn fire_rule_msg() -> JsonValue {
    let reference = |t: &str| obj(vec![("Reference", obj(vec![("attribute", s(t))]))]);
    let trigger = obj(vec![
        (
            "ty",
            obj(vec![(
                "Trigger",
                obj(vec![(
                    "parameters",
                    arr(vec![obj(vec![("name", s("x")), ("expression", reference("smoke::area"))])]),
                )]),
            )]),
        ),
        (
            "tuple",
            obj(vec![("ty_id", s("smoke")), ("constraints", arr(vec![])), ("alias", s("smk"))]),
        ),
    ]);
    let last_temp = obj(vec![
        (
            "ty",
            obj(vec![(
                "Event",
                obj(vec![
                    ("selection", s("Last")),
                    (
                        "parameters",
                        arr(vec![obj(vec![("name", s("y")), ("expression", reference("temperature::value"))])]),
                    ),
                    (
                        "timing",
                        obj(vec![
                            ("upper", JsonValue::U64(0)),
                            ("bound", obj(vec![("Within", obj(vec![("window", JsonValue::U64(5))]))])),
                        ]),
                    ),
                ]),
            )]),
        ),
        (
            "tuple",
            obj(vec![
                ("ty_id", s("temperature")),
                (
                    "constraints",
                    arr(vec![obj(vec![(
                        "BinaryOperation",
                        obj(vec![
                            ("operator", s("Equal")),
                            ("left", reference("temperature::area")),
                            (
                                "right",
                                obj(vec![(
                                    "Parameter",
                                    obj(vec![("predicate", JsonValue::U64(0)), ("parameter", JsonValue::U64(0))]),
                                )]),
                            ),
                        ]),
                    )])]),
                ),
                ("alias", s("temp")),
            ]),
        ),
    ]);
    obj(vec![
        ("predicates", arr(vec![trigger, last_temp])),
        ("filters", arr(vec![])),
        ("consuming", arr(vec![s("1")])),
        (
            "event_template",
            obj(vec![
                ("ty_id", s("smoke")),
                (
                    "attributes",
                    arr(vec![obj(vec![(
                        "Parameter",
                        obj(vec![("predicate", JsonValue::U64(0)), ("parameter", JsonValue::U64(0))]),
                    )])]),
                ),
            ]),
        ),
    ])
}

#[test]
fn rule_message() {
    let engine = engine_with_smoke();
    let rule: Rule = Rule::from_json(&fire_rule_msg(), &engine, &TextFloats).unwrap();
    assert_eq!(rule.predicates.len(), 2);
    let Predicate { ty, tuple } = &rule.predicates[0];
    match ty {
        PredicateType::Trigger { parameters } => {
            assert_eq!(parameters.len(), 1);
            let ParameterDeclaration { name, expression } = &parameters[0];
            assert_eq!(name, "x");
            assert!(matches!(expression, Expression::Reference { attribute: 0 }));
        }
        other => panic!("unexpected {:?}", other),
    }
    let ConstrainedTuple { ty_id, constraints, alias } = tuple;
    assert_eq!(*ty_id, 0);
    assert!(constraints.is_empty());
    assert_eq!(alias, "smk");
    match &rule.predicates[1].ty {
        PredicateType::Event { selection, parameters, timing } => {
            assert_eq!(*selection, EventSelection::Last);
            assert_eq!(parameters.len(), 1);
            assert_eq!(*timing, Timing { upper: 0, bound: TimingBound::Within { window: 300_000_000_000 } });
        }
        other => panic!("unexpected {:?}", other),
    }
    assert_eq!(rule.predicates[1].tuple.ty_id, 1);
    assert_eq!(rule.predicates[1].tuple.constraints.len(), 1);
    assert!(rule.filters.is_empty());
    assert_eq!(rule.consuming, vec![1]);
    let EventTemplate { ty_id, attributes } = &rule.event_template;
    assert_eq!(*ty_id, 0);
    assert!(matches!(attributes[0], Expression::Parameter { predicate: 0, parameter: 0 }));
}

#[test]
fn rule_naming_an_undeclared_type() {
    let engine = TRex::new();
    assert!(Rule::from_json(&fire_rule_msg(), &engine, &TextFloats).is_none());
}

#[test]
fn tuple_message() {
    let msg = obj(vec![
        ("ty_id", s("3")),
        ("data", arr(vec![value_msg("Int", "7"), value_msg("Str", "hall")])),
    ]);
    let t: Tuple = Tuple::from_json(&msg, &TextFloats).unwrap();
    assert_eq!(t.ty_id, 3);
    assert!(matches!(t.data[0], Value::Int(7)));
    assert!(matches!(&t.data[1], Value::Str(x) if x == "hall"));
    let bad = obj(vec![("ty_id", s("x3")), ("data", arr(vec![]))]);
    assert!(Tuple::from_json(&bad, &TextFloats).is_none());
}

#[test]
fn event_message_reads_integers_and_text() {
    let msg = obj(vec![(
        "tuple",
        obj(vec![("ty_id", s("1")), ("data", arr(vec![s("kitchen"), s("50"), s("-3"), s("99999999999")]))]),
    )]);
    let e: Event = Event::from_json(&msg, 1234).unwrap();
    assert_eq!(e.time, 1234);
    assert_eq!(e.tuple.ty_id, 1);
    assert!(matches!(&e.tuple.data[0], Value::Str(x) if x == "kitchen"));
    assert!(matches!(e.tuple.data[1], Value::Int(50)));
    assert!(matches!(e.tuple.data[2], Value::Int(-3)));
    // beyond i32: kept as text
    assert!(matches!(&e.tuple.data[3], Value::Str(x) if x == "99999999999"));
}

#[test]
fn event_message_with_a_number_in_its_data() {
    let msg = obj(vec![("tuple", obj(vec![("ty_id", s("1")), ("data", arr(vec![JsonValue::I64(5)]))]))]);
    assert!(Event::from_json(&msg, 0).is_none());
    let no_tuple = obj(vec![("ty_id", s("1"))]);
    assert!(Event::from_json(&no_tuple, 0).is_none());
}

#[test]
fn parsed_text_keeps_members_in_key_order() {
    match parse_json("{\"b\": [3, -2, \"x\"], \"a\": true, \"c\": null}") {
        Some(JsonValue::Object(members)) => {
            assert_eq!(members.len(), 3);
            assert_eq!(members[0].0, "a");
            assert!(matches!(members[0].1, JsonValue::Bool(true)));
            assert_eq!(members[1].0, "b");
            match &members[1].1 {
                JsonValue::Array(items) => {
                    assert!(matches!(items[0], JsonValue::U64(3)));
                    assert!(matches!(items[1], JsonValue::I64(-2)));
                    assert!(matches!(&items[2], JsonValue::String(t) if t == "x"));
                }
                other => panic!("unexpected {:?}", other),
            }
            assert!(matches!(members[2].1, JsonValue::Null));
        }
        other => panic!("unexpected {:?}", other),
    }
    assert!(parse_json("{\"a\": ").is_none());
}

#[test]
fn declaration_from_message_text() {
    let msg = parse_json(
        "{\"ty\": \"Event\", \"id\": 4, \"name\": \"door\", \"attributes\": [{\"name\": \"open\", \"ty\": \"Bool\"}]}",
    )
    .unwrap();
    let d = TupleDeclaration::from_json(&msg).unwrap();
    assert_eq!(d.id, 4);
    assert_eq!(d.name, "door");
    assert_eq!(d.attributes[0].ty, BasicType::Bool);
}
