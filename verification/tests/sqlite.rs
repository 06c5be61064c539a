use linear_map::LinearMap;
use trex::expressions::{BasicType, BinaryOperator, Expression, Value};
use trex::predicates::{
    Aggregator, AttributeOrdering, ConstrainedTuple, Order, ParameterDeclaration, Predicate, PredicateType,
};
use trex::rule_processor::PartialResult;
use trex::sqlite::driver::{entry_of_rows, expand_entry, plan_query, prepare_key};
use trex::sqlite::query_builder::{FloatRenderer, SqlContext};
use trex::sqlite::CacheEntryValue;
use trex::tuples::{AttributeDeclaration, TupleDeclaration, TupleType};

struct Plain;

impl FloatRenderer for Plain {
    fn render(&self, bits: u64) -> String {
        format!("{}", f64::from_bits(bits))
    }
}

fn rooms() -> TupleDeclaration {
    TupleDeclaration {
        ty: TupleType::Static,
        id: 5,
        name: "rooms".to_owned(),
        attributes: vec![
            AttributeDeclaration { name: "area".to_owned(), ty: BasicType::Str },
            AttributeDeclaration { name: "floor".to_owned(), ty: BasicType::Int },
        ],
    }
}

fn area_is_x() -> Expression {
    Expression::BinaryOperation {
        operator: BinaryOperator::Equal,
        left: Box::new(Expression::Reference { attribute: 0 }),
        right: Box::new(Expression::Parameter { predicate: 0, parameter: 0 }),
    }
}

fn floor_param() -> ParameterDeclaration {
    ParameterDeclaration { name: "f".to_owned(), expression: Expression::Reference { attribute: 1 } }
}

fn pred(ty: PredicateType, constraints: Vec<Expression>) -> Predicate {
    Predicate { ty, tuple: ConstrainedTuple { ty_id: 5, constraints, alias: "r".to_owned() } }
}

#[test]
fn unordered_static_query() {
    let tuple = rooms();
    let mut ctx = SqlContext::new(1, &tuple);
    let p = pred(PredicateType::UnorderedStatic { parameters: vec![floor_param()] }, vec![area_is_x()]);
    assert_eq!(
        ctx.encode_predicate(&p, &Plain),
        "SELECT rooms.floor AS f FROM rooms WHERE (rooms.area = :param0x0) "
    );
}

#[test]
fn ordered_static_query() {
    let tuple = rooms();
    let mut ctx = SqlContext::new(1, &tuple);
    let doubled = ParameterDeclaration {
        name: "g".to_owned(),
        expression: Expression::BinaryOperation {
            operator: BinaryOperator::Times,
            left: Box::new(Expression::Parameter { predicate: 1, parameter: 0 }),
            right: Box::new(Expression::Immediate { value: Value::Int(2) }),
        },
    };
    let p = pred(
        PredicateType::OrderedStatic {
            parameters: vec![floor_param(), doubled],
            ordering: vec![AttributeOrdering { attribute: 1, direction: Order::Desc }],
        },
        vec![area_is_x(), Expression::Immediate { value: Value::Bool(true) }],
    );
    assert_eq!(
        ctx.encode_predicate(&p, &Plain),
        "SELECT rooms.floor AS f, (rooms.floor * 2) AS g FROM rooms WHERE (rooms.area = :param0x0) AND true ORDER BY rooms.floor DESC LIMIT 1"
    );
}

#[test]
fn aggregate_and_negation_queries() {
    let tuple = rooms();
    let mut ctx = SqlContext::new(2, &tuple);
    let p = pred(
        PredicateType::StaticAggregate {
            aggregator: Aggregator::Max(1),
            parameter: ParameterDeclaration { name: "top".to_owned(), expression: Expression::Aggregate },
        },
        vec![],
    );
    assert_eq!(ctx.encode_predicate(&p, &Plain), "SELECT MAX(rooms.floor) AS top FROM rooms WHERE  ");
    let mut ctx = SqlContext::new(2, &tuple);
    let n = pred(PredicateType::StaticNegation, vec![area_is_x()]);
    assert_eq!(ctx.encode_predicate(&n, &Plain), "SELECT 1 FROM rooms WHERE (rooms.area = :param0x0) LIMIT 1");
    let mut ctx = SqlContext::new(2, &tuple);
    let c = pred(PredicateType::UnorderedStatic { parameters: vec![] }, vec![]);
    assert_eq!(ctx.encode_predicate(&c, &Plain), "SELECT COUNT(1) FROM rooms WHERE  ");
}

#[test]
fn strings_are_quoted() {
    let tuple = rooms();
    let mut ctx = SqlContext::new(1, &tuple);
    let c = Expression::BinaryOperation {
        operator: BinaryOperator::Equal,
        left: Box::new(Expression::Reference { attribute: 0 }),
        right: Box::new(Expression::Immediate { value: Value::Str("hall".to_owned()) }),
    };
    let p = pred(PredicateType::StaticNegation, vec![c]);
    assert_eq!(ctx.encode_predicate(&p, &Plain), "SELECT 1 FROM rooms WHERE (rooms.area = \"hall\") LIMIT 1");
}

#[test]
fn plans_read_other_parameters() {
    let tuple = rooms();
    let mut types = LinearMap::new();
    types.insert((1, 0), BasicType::Int);
    let p = pred(PredicateType::UnorderedStatic { parameters: vec![floor_param()] }, vec![area_is_x()]);
    let plan = plan_query(1, &tuple, &p, &types, &Plain).unwrap();
    assert_eq!(plan.input_params, vec![(0, 0)]);
    assert_eq!(plan.output_params, vec![BasicType::Int]);
    assert_eq!(plan.statement, "SELECT rooms.floor AS f FROM rooms WHERE (rooms.area = :param0x0) ");
    let events = TupleDeclaration { ty: TupleType::Event, ..rooms() };
    assert!(plan_query(1, &events, &p, &types, &Plain).is_none());
    let result = PartialResult::new().insert_parameter((0, 0), Value::Str("hall".to_owned()));
    let key = prepare_key(&plan, &result);
    assert_eq!(key.statement, plan.statement);
    assert!(matches!(key.input_params.as_slice(), [Value::Str(s)] if s == "hall"));
}

#[test]
fn query_results_extend_partial_results() {
    let base = PartialResult::new().insert_parameter((0, 0), Value::Int(1));
    let rows = CacheEntryValue::Values(2, vec![Value::Int(10), Value::Int(11), Value::Int(20), Value::Int(21), Value::Int(30)]);
    let out = expand_entry(3, &base, &rows);
    assert_eq!(out.len(), 3);
    assert!(matches!(out[0].find_parameter((3, 1)), Some(Value::Int(11))));
    assert!(matches!(out[1].find_parameter((3, 0)), Some(Value::Int(20))));
    assert!(matches!(out[2].find_parameter((3, 0)), Some(Value::Int(30))));
    assert!(out[2].find_parameter((3, 1)).is_none());
    assert!(matches!(out[2].find_parameter((0, 0)), Some(Value::Int(1))));
    assert_eq!(expand_entry(3, &base, &CacheEntryValue::Count(4)).len(), 4);
    let aggr = expand_entry(3, &base, &CacheEntryValue::Aggr(Value::Int(7)));
    assert!(matches!(aggr[0].find_parameter((3, 0)), Some(Value::Int(7))));
    assert_eq!(expand_entry(3, &base, &CacheEntryValue::Exists(false)).len(), 1);
    assert_eq!(expand_entry(3, &base, &CacheEntryValue::Exists(true)).len(), 0);
}

#[test]
fn bind_names_of_parameters() {
    assert_eq!(trex::sqlite::query_builder::bind_name_text(0, 12), ":param0x12");
    assert_eq!(trex::sqlite::query_builder::bind_name_text(310, 1), ":param310x1");
}

#[test]
fn integer_literals_in_decimal() {
    let tuple = rooms();
    for (n, text) in [(-42i64, "-42"), (0, "0"), (1907, "1907"), (i64::MIN, "-9223372036854775808"), (i64::MAX, "9223372036854775807")] {
        let mut ctx = SqlContext::new(1, &tuple);
        let floor_is = Expression::BinaryOperation {
            operator: BinaryOperator::Equal,
            left: Box::new(Expression::Reference { attribute: 1 }),
            right: Box::new(Expression::Immediate { value: Value::Int(n) }),
        };
        let p = pred(PredicateType::StaticNegation, vec![floor_is]);
        let sql = ctx.encode_predicate(&p, &Plain);
        assert!(sql.contains(&format!("(rooms.floor = {})", text)), "{}", sql);
    }
}

#[test]
fn queries_that_can_be_planned() {
    let tuple = rooms();
    let mut types = LinearMap::new();
    types.insert((1, 0), BasicType::Int);
    let good = pred(PredicateType::UnorderedStatic { parameters: vec![floor_param()] }, vec![area_is_x()]);
    assert!(trex::sqlite::driver::can_plan_query(1, &tuple, &good, &types));
    // the type of the parameter is unknown
    assert!(!trex::sqlite::driver::can_plan_query(1, &tuple, &good, &LinearMap::new()));
    // a reference to a column the table lacks
    let bad = pred(
        PredicateType::StaticNegation,
        vec![Expression::BinaryOperation {
            operator: BinaryOperator::Equal,
            left: Box::new(Expression::Reference { attribute: 7 }),
            right: Box::new(Expression::Immediate { value: Value::Int(1) }),
        }],
    );
    assert!(!trex::sqlite::driver::can_plan_query(1, &tuple, &bad, &types));
    // an aggregate over a missing column
    let aggr = pred(
        PredicateType::StaticAggregate {
            aggregator: Aggregator::Sum(9),
            parameter: ParameterDeclaration { name: "s".to_owned(), expression: Expression::Aggregate },
        },
        vec![],
    );
    assert!(!trex::sqlite::driver::can_plan_query(1, &tuple, &aggr, &types));
}

#[test]
fn query_results_from_rows() {
    let rows = vec![vec![Value::Int(1), Value::Int(2)], vec![Value::Int(3), Value::Int(4)]];
    let unordered = PredicateType::UnorderedStatic { parameters: vec![] };
    match entry_of_rows(&unordered, 2, &rows) {
        Some(CacheEntryValue::Values(2, v)) => {
            assert_eq!(v.len(), 4);
            assert!(matches!(v[3], Value::Int(4)));
        }
        other => panic!("unexpected {:?}", other),
    }
    assert!(matches!(entry_of_rows(&unordered, 0, &vec![vec![Value::Int(7)]]), Some(CacheEntryValue::Count(7))));
    assert!(entry_of_rows(&unordered, 0, &vec![]).is_none());
    let aggr = PredicateType::StaticAggregate {
        aggregator: Aggregator::Max(1),
        parameter: ParameterDeclaration { name: "m".to_owned(), expression: Expression::Aggregate },
    };
    assert!(matches!(entry_of_rows(&aggr, 1, &vec![vec![Value::Int(9)]]), Some(CacheEntryValue::Aggr(Value::Int(9)))));
    assert!(matches!(entry_of_rows(&PredicateType::StaticNegation, 0, &vec![]), Some(CacheEntryValue::Exists(false))));
    assert!(matches!(entry_of_rows(&PredicateType::StaticNegation, 0, &vec![vec![]]), Some(CacheEntryValue::Exists(true))));
    assert!(entry_of_rows(&PredicateType::Trigger { parameters: vec![] }, 0, &vec![]).is_none());
}
