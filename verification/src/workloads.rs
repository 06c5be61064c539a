//! The workloads of the benchmarks: families of sequence rules over
//! families of event types. The random choices of a benchmark are drawn
//! outside and handed over; what is built from them is stated here.

use vstd::prelude::*;
use crate::expressions::{BinaryOperator, Expression, Value};
use crate::predicates::{
    ConstrainedTuple, EventSelection, ParameterDeclaration, Predicate, PredicateType, SpecPredicate, SpecPredicateType, Timing,
    TimingBound,
};
use crate::expressions::BasicType;
use crate::sqlite::query_builder::{decimal, usize_text};
use crate::tuples::{AttributeDeclaration, EventTemplate, Rule, TupleDeclaration, TupleType};
use vstd::string::*;

verus! {

/// Nanoseconds per millisecond.
pub const NANOS_PER_MILLI: i64 = 1_000_000;

/// `attr0 == 1`: the constraint every predicate of a workload rule has.
pub open spec fn first_is_one() -> Expression {
    Expression::BinaryOperation {
        operator: BinaryOperator::Equal,
        left: Box::new(Expression::Reference { attribute: 0 }),
        right: Box::new(Expression::Immediate { value: Value::Int(1) }),
    }
}

fn make_first_is_one() -> (r: Expression)
    ensures
        r == first_is_one(),
{
    Expression::BinaryOperation {
        operator: BinaryOperator::Equal,
        left: Box::new(Expression::Reference { attribute: 0 }),
        right: Box::new(Expression::Immediate { value: Value::Int(1) }),
    }
}

/// Whether a window in milliseconds is one in nanoseconds too.
pub open spec fn window_fits(ms: i64) -> bool {
    i64::MIN <= ms * NANOS_PER_MILLI <= i64::MAX
}

/// Predicate `j` of a length rule of family `id`: the trigger on type
/// `id * 1000`, then an event predicate on type `id * 1000 + j` with the
/// drawn selection and window, right after predicate `j - 1`.
pub open spec fn length_predicate(id: usize, j: int, draws: Seq<(EventSelection, i64)>, aliases: Seq<String>) -> SpecPredicate {
    SpecPredicate {
        ty: if j == 0 {
            SpecPredicateType::Trigger { parameters: Seq::empty() }
        } else {
            SpecPredicateType::Event {
                selection: draws[j - 1].0,
                parameters: Seq::empty(),
                timing: Timing {
                    upper: (j - 1) as usize,
                    bound: TimingBound::Within { window: (draws[j - 1].1 * NANOS_PER_MILLI) as i64 },
                },
            }
        },
        ty_id: (id * 1000 + j) as usize,
        constraints: seq![first_is_one()],
        alias: aliases[j],
    }
}

/// Rule `i` of a length workload: family `i % num_def + 1`, one predicate
/// per type of the family, no filter, an event of the family's own type with
/// no attribute, consuming predicate 1 when asked.
pub open spec fn length_rule(
    rule: Rule,
    i: int,
    num_def: usize,
    num_pred: usize,
    consuming: bool,
    draws: Seq<(EventSelection, i64)>,
    aliases: Seq<String>,
) -> bool {
    let id = (i % num_def as int + 1) as usize;
    &&& rule.predicates@.len() == num_pred
    &&& forall|j: int| 0 <= j < num_pred ==> #[trigger] rule.predicates@[j]@ == length_predicate(id, j, draws, aliases)
    &&& rule.filters@ == Seq::<Expression>::empty()
    &&& rule.event_template.ty_id == id
    &&& rule.event_template.attributes@ == Seq::<Expression>::empty()
    &&& rule.consuming@ == (if consuming { seq![1usize] } else { Seq::<usize>::empty() })
}

/// The rules of the length benchmark: rule `i` belongs to family
/// `i % num_def + 1` and takes its selections and windows (in milliseconds)
/// from `draws[i]` and its aliases from `aliases[i]`.
pub fn length_rules(
    num_rules: usize,
    num_def: usize,
    num_pred: usize,
    consuming: bool,
    draws: &Vec<Vec<(EventSelection, i64)>>,
    aliases: &Vec<Vec<String>>,
) -> (r: Vec<Rule>)
    requires
        num_def > 0,
        num_pred >= 1,
        num_def * 1000 + num_pred <= usize::MAX,
        draws@.len() == num_rules,
        aliases@.len() == num_rules,
        forall|i: int| 0 <= i < num_rules ==> #[trigger] draws@[i]@.len() == num_pred - 1,
        forall|i: int| 0 <= i < num_rules ==> #[trigger] aliases@[i]@.len() == num_pred,
        forall|i: int, j: int| 0 <= i < num_rules && 0 <= j < num_pred - 1 ==> window_fits(#[trigger] draws@[i]@[j].1),
    ensures
        r@.len() == num_rules,
        forall|i: int| 0 <= i < num_rules ==> #[trigger] length_rule(r@[i], i, num_def, num_pred, consuming, draws@[i]@, aliases@[i]@),
{
    let mut out: Vec<Rule> = Vec::new();
    let mut i: usize = 0;
    while i < num_rules
        invariant
            num_def > 0,
            num_pred >= 1,
            num_def * 1000 + num_pred <= usize::MAX,
            draws@.len() == num_rules,
            aliases@.len() == num_rules,
            forall|i: int| 0 <= i < num_rules ==> #[trigger] draws@[i]@.len() == num_pred - 1,
            forall|i: int| 0 <= i < num_rules ==> #[trigger] aliases@[i]@.len() == num_pred,
            forall|i: int, j: int| 0 <= i < num_rules && 0 <= j < num_pred - 1 ==> window_fits(#[trigger] draws@[i]@[j].1),
            i <= num_rules,
            out@.len() == i,
            forall|k: int| 0 <= k < i ==> #[trigger] length_rule(out@[k], k, num_def, num_pred, consuming, draws@[k]@, aliases@[k]@),
        decreases num_rules - i,
    {
        let id = i % num_def + 1;
        assert(id * 1000 + num_pred <= num_def * 1000 + num_pred) by (nonlinear_arith)
            requires
                id <= num_def,
        ;
        let ds = &draws[i];
        let als = &aliases[i];
        let mut predicates: Vec<Predicate> = Vec::new();
        let mut j: usize = 0;
        while j < num_pred
            invariant
                id * 1000 + num_pred <= usize::MAX,
                ds@.len() == num_pred - 1,
                als@.len() == num_pred,
                forall|j: int| 0 <= j < num_pred - 1 ==> window_fits(#[trigger] ds@[j].1),
                j <= num_pred,
                predicates@.len() == j,
                forall|k: int| 0 <= k < j ==> #[trigger] predicates@[k]@ == length_predicate(id, k, ds@, als@),
            decreases num_pred - j,
        {
            let ty = if j == 0 {
                PredicateType::Trigger { parameters: Vec::new() }
            } else {
                let (selection, ms) = ds[j - 1];
                assert(window_fits(ds@[j - 1].1));
                PredicateType::Event {
                    selection,
                    parameters: Vec::new(),
                    timing: Timing { upper: j - 1, bound: TimingBound::Within { window: ms * NANOS_PER_MILLI } },
                }
            };
            let tuple = ConstrainedTuple {
                ty_id: id * 1000 + j,
                constraints: vec![make_first_is_one()],
                alias: als[j].clone(),
            };
            let p = Predicate { ty, tuple };
            proof {
                assert(p.tuple.constraints@ =~= seq![first_is_one()]);
                assert(p.ty@ == length_predicate(id, j as int, ds@, als@).ty);
            }
            predicates.push(p);
            j = j + 1;
        }
        let rule = Rule {
            predicates,
            filters: Vec::new(),
            event_template: EventTemplate { ty_id: id, attributes: Vec::new() },
            consuming: if consuming { vec![1] } else { Vec::new() },
        };
        proof {
            assert(rule.consuming@ =~= (if consuming { seq![1usize] } else { Seq::<usize>::empty() }));
            assert(length_rule(rule, i as int, num_def, num_pred, consuming, draws@[i as int]@, aliases@[i as int]@));
        }
        out.push(rule);
        i = i + 1;
    }
    out
}

/// `prefix` followed by the decimal text of `k`.
fn numbered(prefix: &str, k: usize) -> (r: String)
    ensures
        r@ == prefix@ + decimal(k as int),
{
    let mut s = String::from_str(prefix);
    let t = usize_text(k);
    s.append(t.as_str());
    s
}

/// Whether `attrs` are `n` integer attributes named `prefix` followed by
/// their position.
pub open spec fn numbered_ints(attrs: Seq<AttributeDeclaration>, prefix: Seq<char>, n: int) -> bool {
    &&& attrs.len() == n
    &&& forall|k: int| 0 <= k < n ==> (#[trigger] attrs[k]).name@ == prefix + decimal(k) && attrs[k].ty == BasicType::Int
}

/// `n` integer attributes named `prefix` followed by their position.
fn numbered_int_attributes(prefix: &str, n: usize) -> (r: Vec<AttributeDeclaration>)
    ensures
        numbered_ints(r@, prefix@, n as int),
{
    let mut out: Vec<AttributeDeclaration> = Vec::new();
    let mut k: usize = 0;
    while k < n
        invariant
            k <= n,
            numbered_ints(out@, prefix@, k as int),
        decreases n - k,
    {
        out.push(AttributeDeclaration { name: numbered(prefix, k), ty: BasicType::Int });
        k = k + 1;
    }
    out
}

/// Declaration `s` of family `i` of the equivalence benchmark: first the
/// type `i + 1` of the derived event, with one integer attribute `attr`;
/// then, for each predicate `j = s - 1`, the type `(i + 1) * 1000 + j`, with
/// integer attributes `attr0`, `attr1` (and `attr2` for the last
/// predicate). Each is named `event` followed by its identifier.
pub open spec fn equivalence_declaration(d: TupleDeclaration, i: int, s: int, num_pred: usize) -> bool {
    let id = i + 1;
    let ty_id = if s == 0 { id } else { id * 1000 + (s - 1) };
    &&& d.ty == TupleType::Event
    &&& d.id == ty_id
    &&& d.name@ == "event"@ + decimal(ty_id)
    &&& if s == 0 {
        d.attributes@.len() == 1 && d.attributes@[0].name@ == "attr"@ && d.attributes@[0].ty == BasicType::Int
    } else {
        numbered_ints(d.attributes@, "attr"@, if s - 1 == num_pred - 1 { 3 } else { 2 })
    }
}

/// The table every equivalence rule queries: the type `0` named `test`,
/// with integer columns `col0` to `col{table_columns - 1}`.
pub open spec fn test_table(d: TupleDeclaration, table_columns: usize) -> bool {
    &&& d.ty == TupleType::Event
    &&& d.id == 0
    &&& d.name@ == "test"@
    &&& numbered_ints(d.attributes@, "col"@, table_columns as int)
}

/// The declarations of the equivalence benchmark: for each of the
/// `num_def` families, `num_pred + 1` declarations (the derived type first,
/// then one per predicate), family `k / (num_pred + 1)` at index `k`, and the
/// table `test` last.
pub fn equivalence_declarations(num_def: usize, num_pred: usize, table_columns: usize) -> (r: Vec<TupleDeclaration>)
    requires
        num_def * 1000 + num_pred <= usize::MAX,
    ensures
        r@.len() == num_def * (num_pred + 1) + 1,
        forall|k: int| 0 <= k < num_def * (num_pred + 1) ==> #[trigger] equivalence_declaration(r@[k], k / (num_pred + 1), k % (num_pred + 1), num_pred),
        test_table(r@[num_def * (num_pred + 1)], table_columns),
{
    let ghost n = num_pred + 1;
    let mut out: Vec<TupleDeclaration> = Vec::new();
    let mut i: usize = 0;
    while i < num_def
        invariant
            n == num_pred + 1,
            num_def * 1000 + num_pred <= usize::MAX,
            i <= num_def,
            out@.len() == i * n,
            forall|k: int| 0 <= k < out@.len() ==> #[trigger] equivalence_declaration(out@[k], k / n, k % n, num_pred),
        decreases num_def - i,
    {
        let id = i + 1;
        assert(id * 1000 + num_pred <= num_def * 1000 + num_pred) by (nonlinear_arith)
            requires
                id <= num_def,
        ;
        let mut s: usize = 0;
        while s <= num_pred
            invariant
                n == num_pred + 1,
                id == i + 1,
                id * 1000 + num_pred <= usize::MAX,
                s <= num_pred + 1,
                out@.len() == i * n + s,
                forall|k: int| 0 <= k < out@.len() ==> #[trigger] equivalence_declaration(out@[k], k / n, k % n, num_pred),
            decreases num_pred + 1 - s,
        {
            let d = if s == 0 {
                TupleDeclaration {
                    ty: TupleType::Event,
                    id,
                    name: numbered("event", id),
                    attributes: vec![AttributeDeclaration { name: String::from_str("attr"), ty: BasicType::Int }],
                }
            } else {
                let j = s - 1;
                let num_attr: usize = if j == num_pred - 1 { 3 } else { 2 };
                TupleDeclaration {
                    ty: TupleType::Event,
                    id: id * 1000 + j,
                    name: numbered("event", id * 1000 + j),
                    attributes: numbered_int_attributes("attr", num_attr),
                }
            };
            proof {
                let k = out@.len() as int;
                vstd::arithmetic::div_mod::lemma_fundamental_div_mod_converse(k, n, i as int, s as int);
                assert(i * n + s == k);
                assert(equivalence_declaration(d, i as int, s as int, num_pred));
            }
            out.push(d);
            s = s + 1;
        }
        assert(i * n + n == (i + 1) * n) by (nonlinear_arith);
        i = i + 1;
    }
    let test = TupleDeclaration {
        ty: TupleType::Event,
        id: 0,
        name: String::from_str("test"),
        attributes: numbered_int_attributes("col", table_columns),
    };
    out.push(test);
    out
}

/// Nanoseconds in a hundred days: the window of the query predicate of an
/// equivalence rule.
pub const HUNDRED_DAYS: i64 = 8_640_000_000_000_000;

/// The name `param{j}x{k}` of parameter `k` of predicate `j`.
pub open spec fn param_name(j: int, k: int) -> Seq<char> {
    "param"@ + decimal(j) + "x"@ + decimal(k)
}

/// The alias `alias{t}` of a predicate on type `t`.
pub open spec fn alias_name(t: int) -> Seq<char> {
    "alias"@ + decimal(t)
}

/// The name `param{j}x{k}`.
fn make_param_name(j: usize, k: usize) -> (r: String)
    ensures
        r@ == param_name(j as int, k as int),
{
    let mut s = numbered("param", j);
    let t = numbered("x", k);
    s.append(t.as_str());
    proof {
        assert(s@ =~= param_name(j as int, k as int));
    }
    s
}

/// Whether `ps` declare parameters `param{j}x{k}` for `k < n`, parameter
/// `k` being attribute `k + shift`.
pub open spec fn numbered_params(ps: Seq<ParameterDeclaration>, j: int, n: int, shift: int) -> bool {
    &&& ps.len() == n
    &&& forall|k: int| 0 <= k < n ==> (#[trigger] ps[k]).name@ == param_name(j, k)
        && ps[k].expression == Expression::Reference { attribute: (k + shift) as usize }
}

/// Parameters `param{j}x{k}` for `k < n`, parameter `k` being attribute
/// `k + shift`.
fn make_params(j: usize, n: usize, shift: usize) -> (r: Vec<ParameterDeclaration>)
    requires
        n + shift <= usize::MAX,
    ensures
        numbered_params(r@, j as int, n as int, shift as int),
{
    let mut out: Vec<ParameterDeclaration> = Vec::new();
    let mut k: usize = 0;
    while k < n
        invariant
            n + shift <= usize::MAX,
            k <= n,
            numbered_params(out@, j as int, k as int, shift as int),
        decreases n - k,
    {
        out.push(ParameterDeclaration { name: make_param_name(j, k), expression: Expression::Reference { attribute: k + shift } });
        k = k + 1;
    }
    out
}

/// `left op right` for two expressions.
pub open spec fn compare(operator: BinaryOperator, left: Expression, right: Expression) -> Expression {
    Expression::BinaryOperation { operator, left: Box::new(left), right: Box::new(right) }
}

/// Constraint `m` of the query predicate of an equivalence rule: the first
/// column lies between the two parameters of the last event predicate, and
/// the first parameter of each of the `query_dependencies - 1` predicates
/// before it is below 1 000 000 000.
pub open spec fn query_constraint(m: int, num_pred: usize) -> Expression {
    let last = (num_pred - 1) as usize;
    if m == 0 {
        compare(BinaryOperator::GreaterEqual, Expression::Reference { attribute: 0 }, Expression::Parameter { predicate: last, parameter: 0 })
    } else if m == 1 {
        compare(BinaryOperator::LowerThan, Expression::Reference { attribute: 0 }, Expression::Parameter { predicate: last, parameter: 1 })
    } else {
        compare(
            BinaryOperator::LowerThan,
            Expression::Parameter { predicate: (num_pred - 1 - (m - 1)) as usize, parameter: 0 },
            Expression::Immediate { value: Value::Int(1_000_000_000) },
        )
    }
}

/// The constraints of the query predicate of an equivalence rule.
fn query_constraints(num_pred: usize, query_dependencies: usize) -> (r: Vec<Expression>)
    requires
        1 <= num_pred,
        query_dependencies <= num_pred,
    ensures
        r@.len() == (if query_dependencies == 0 { 2 } else { query_dependencies + 1 }),
        forall|m: int| 0 <= m < r@.len() ==> #[trigger] r@[m] == query_constraint(m, num_pred),
{
    let last = num_pred - 1;
    let mut out: Vec<Expression> = Vec::new();
    out.push(Expression::BinaryOperation {
        operator: BinaryOperator::GreaterEqual,
        left: Box::new(Expression::Reference { attribute: 0 }),
        right: Box::new(Expression::Parameter { predicate: last, parameter: 0 }),
    });
    out.push(Expression::BinaryOperation {
        operator: BinaryOperator::LowerThan,
        left: Box::new(Expression::Reference { attribute: 0 }),
        right: Box::new(Expression::Parameter { predicate: last, parameter: 1 }),
    });
    let mut j: usize = 1;
    while j < query_dependencies
        invariant
            1 <= num_pred,
            query_dependencies <= num_pred,
            last == num_pred - 1,
            1 <= j,
            j <= query_dependencies || j == 1,
            out@.len() == j + 1,
            forall|m: int| 0 <= m < out@.len() ==> #[trigger] out@[m] == query_constraint(m, num_pred),
        decreases query_dependencies - j,
    {
        out.push(Expression::BinaryOperation {
            operator: BinaryOperator::LowerThan,
            left: Box::new(Expression::Parameter { predicate: last - j, parameter: 0 }),
            right: Box::new(Expression::Immediate { value: Value::Int(1_000_000_000) }),
        });
        j = j + 1;
    }
    assert(query_dependencies == 0 ==> out@.len() == 2);
    assert(query_dependencies > 0 ==> out@.len() == query_dependencies + 1);
    out
}

/// Predicate `j < num_pred` of an equivalence rule of family `id`: the
/// trigger on type `id * 1000` with parameter `param0x1` (attribute 1), then
/// event predicates on types `id * 1000 + j` with the drawn selection and
/// window, with parameter `param{j}x0` (and `param{j}x1` for the last),
/// attribute `k + 1` each.
pub open spec fn equivalence_predicate(p: SpecPredicate, id: usize, j: int, num_pred: usize, draws: Seq<(EventSelection, i64)>) -> bool {
    &&& p.ty_id == id * 1000 + j
    &&& p.constraints == seq![first_is_one()]
    &&& p.alias@ == alias_name(id * 1000 + j)
    &&& if j == 0 {
        p.ty matches SpecPredicateType::Trigger { parameters } && parameters.len() == 1
            && parameters[0].name@ == "param0x1"@ && parameters[0].expression == Expression::Reference { attribute: 1 }
    } else {
        p.ty matches SpecPredicateType::Event { selection, parameters, timing }
            && selection == draws[j - 1].0
            && timing == (Timing { upper: (j - 1) as usize, bound: TimingBound::Within { window: (draws[j - 1].1 * NANOS_PER_MILLI) as i64 } })
            && numbered_params(parameters, j, if j == num_pred - 1 { 2 } else { 1 }, 1)
    }
}

/// The query predicate of an equivalence rule: each row of the table `test`
/// within a hundred days, after the last event predicate, its columns as
/// parameters `param{num_pred}x{k}`.
pub open spec fn query_predicate(p: SpecPredicate, num_pred: usize, table_columns: usize, query_dependencies: usize) -> bool {
    &&& p.ty_id == 0
    &&& p.alias@ == "alias0"@
    &&& p.constraints.len() == (if query_dependencies == 0 { 2 } else { query_dependencies + 1 })
    &&& forall|m: int| 0 <= m < p.constraints.len() ==> #[trigger] p.constraints[m] == query_constraint(m, num_pred)
    &&& p.ty matches SpecPredicateType::Event { selection, parameters, timing }
        && selection == EventSelection::Each
        && timing == (Timing { upper: (num_pred - 1) as usize, bound: TimingBound::Within { window: HUNDRED_DAYS } })
        && numbered_params(parameters, num_pred as int, table_columns as int, 0)
}

/// Rule `i` of an equivalence workload: family `i % num_def + 1`, its
/// predicates, then the query predicate when `with_query`; no filter; an
/// event of the family's type carrying parameter 0 of predicate `num_pred`.
pub open spec fn equivalence_rule(
    rule: Rule,
    i: int,
    num_def: usize,
    num_pred: usize,
    table_columns: usize,
    query_dependencies: usize,
    consuming: bool,
    with_query: bool,
    draws: Seq<(EventSelection, i64)>,
) -> bool {
    let id = (i % num_def as int + 1) as usize;
    &&& rule.predicates@.len() == (if with_query { num_pred + 1 } else { num_pred as int })
    &&& forall|j: int| 0 <= j < num_pred ==> #[trigger] equivalence_predicate(rule.predicates@[j]@, id, j, num_pred, draws)
    &&& with_query ==> query_predicate(rule.predicates@[num_pred as int]@, num_pred, table_columns, query_dependencies)
    &&& rule.filters@ == Seq::<Expression>::empty()
    &&& rule.event_template.ty_id == id
    &&& rule.event_template.attributes@ == seq![Expression::Parameter { predicate: num_pred, parameter: 0 }]
    &&& rule.consuming@ == (if consuming { seq![1usize] } else { Seq::<usize>::empty() })
}

/// The rules of the equivalence benchmark: rule `i` belongs to family
/// `i % num_def + 1`, has the query predicate when `draws[i].0`, and takes
/// the selections and windows (in milliseconds) of its event predicates
/// from `draws[i].1`.
pub fn equivalence_rules(
    num_rules: usize,
    num_def: usize,
    num_pred: usize,
    table_columns: usize,
    query_dependencies: usize,
    consuming: bool,
    draws: &Vec<(bool, Vec<(EventSelection, i64)>)>,
) -> (r: Vec<Rule>)
    requires
        num_def > 0,
        num_pred >= 1,
        num_def * 1000 + num_pred <= usize::MAX,
        query_dependencies <= num_pred,
        draws@.len() == num_rules,
        forall|i: int| 0 <= i < num_rules ==> (#[trigger] draws@[i]).1@.len() == num_pred - 1,
        forall|i: int, j: int| 0 <= i < num_rules && 0 <= j < num_pred - 1 ==> window_fits(#[trigger] draws@[i].1@[j].1),
    ensures
        r@.len() == num_rules,
        forall|i: int| 0 <= i < num_rules ==> #[trigger] equivalence_rule(r@[i], i, num_def, num_pred, table_columns, query_dependencies, consuming, draws@[i].0, draws@[i].1@),
{
    let mut out: Vec<Rule> = Vec::new();
    let mut i: usize = 0;
    while i < num_rules
        invariant
            num_def > 0,
            num_pred >= 1,
            num_def * 1000 + num_pred <= usize::MAX,
            query_dependencies <= num_pred,
            draws@.len() == num_rules,
            forall|i: int| 0 <= i < num_rules ==> (#[trigger] draws@[i]).1@.len() == num_pred - 1,
            forall|i: int, j: int| 0 <= i < num_rules && 0 <= j < num_pred - 1 ==> window_fits(#[trigger] draws@[i].1@[j].1),
            i <= num_rules,
            out@.len() == i,
            forall|k: int| 0 <= k < i ==> #[trigger] equivalence_rule(out@[k], k, num_def, num_pred, table_columns, query_dependencies, consuming, draws@[k].0, draws@[k].1@),
        decreases num_rules - i,
    {
        let id = i % num_def + 1;
        assert(id * 1000 + num_pred <= num_def * 1000 + num_pred) by (nonlinear_arith)
            requires
                id <= num_def,
        ;
        let with_query = draws[i].0;
        let ds = &draws[i].1;
        let mut predicates: Vec<Predicate> = Vec::new();
        let mut j: usize = 0;
        while j < num_pred
            invariant
                id * 1000 + num_pred <= usize::MAX,
                num_pred >= 1,
                ds@.len() == num_pred - 1,
                forall|j: int| 0 <= j < num_pred - 1 ==> window_fits(#[trigger] ds@[j].1),
                j <= num_pred,
                predicates@.len() == j,
                forall|k: int| 0 <= k < j ==> #[trigger] equivalence_predicate(predicates@[k]@, id, k, num_pred, ds@),
            decreases num_pred - j,
        {
            let ty = if j == 0 {
                let name = String::from_str("param0x1");
                PredicateType::Trigger {
                    parameters: vec![ParameterDeclaration { name, expression: Expression::Reference { attribute: 1 } }],
                }
            } else {
                let (selection, ms) = ds[j - 1];
                assert(window_fits(ds@[j - 1].1));
                let num_param: usize = if j == num_pred - 1 { 2 } else { 1 };
                PredicateType::Event {
                    selection,
                    parameters: make_params(j, num_param, 1),
                    timing: Timing { upper: j - 1, bound: TimingBound::Within { window: ms * NANOS_PER_MILLI } },
                }
            };
            let tuple = ConstrainedTuple {
                ty_id: id * 1000 + j,
                constraints: vec![make_first_is_one()],
                alias: numbered("alias", id * 1000 + j),
            };
            let p = Predicate { ty, tuple };
            proof {
                assert(p.tuple.constraints@ =~= seq![first_is_one()]);
                assert(equivalence_predicate(p@, id, j as int, num_pred, ds@));
            }
            predicates.push(p);
            j = j + 1;
        }
        if with_query {
            let q = Predicate {
                ty: PredicateType::Event {
                    selection: EventSelection::Each,
                    parameters: make_params(num_pred, table_columns, 0),
                    timing: Timing { upper: num_pred - 1, bound: TimingBound::Within { window: HUNDRED_DAYS } },
                },
                tuple: ConstrainedTuple {
                    ty_id: 0,
                    constraints: query_constraints(num_pred, query_dependencies),
                    alias: String::from_str("alias0"),
                },
            };
            proof {
                assert(query_predicate(q@, num_pred, table_columns, query_dependencies));
            }
            predicates.push(q);
        }
        let rule = Rule {
            predicates,
            filters: Vec::new(),
            event_template: EventTemplate {
                ty_id: id,
                attributes: vec![Expression::Parameter { predicate: num_pred, parameter: 0 }],
            },
            consuming: if consuming { vec![1] } else { Vec::new() },
        };
        proof {
            assert(rule.consuming@ =~= (if consuming { seq![1usize] } else { Seq::<usize>::empty() }));
            assert(rule.event_template.attributes@ =~= seq![Expression::Parameter { predicate: num_pred, parameter: 0 }]);
            assert(equivalence_rule(rule, i as int, num_def, num_pred, table_columns, query_dependencies, consuming, draws@[i as int].0, draws@[i as int].1@));
        }
        out.push(rule);
        i = i + 1;
    }
    out
}

/// Declaration `s` of family `i` of the length benchmark: for each
/// predicate `s < num_pred`, the type `(i + 1) * 1000 + s` with one integer
/// attribute, then the type `i + 1` of the derived event, with none; names
/// from `names` and `attr_names`.
pub open spec fn length_declaration(d: TupleDeclaration, i: int, s: int, num_pred: usize, names: Seq<String>, attr_names: Seq<String>) -> bool {
    let id = i + 1;
    &&& d.ty == TupleType::Event
    &&& d.name == names[s]
    &&& if s < num_pred {
        &&& d.id == id * 1000 + s
        &&& d.attributes@.len() == 1
        &&& d.attributes@[0].name == attr_names[s]
        &&& d.attributes@[0].ty == BasicType::Int
    } else {
        d.id == id && d.attributes@.len() == 0
    }
}

/// The declarations of the length benchmark: `num_pred + 1` per family,
/// family `k / (num_pred + 1)` at index `k`; family `i` takes its type names
/// from `names[i]` and its attribute names from `attr_names[i]`.
pub fn length_declarations(num_def: usize, num_pred: usize, names: &Vec<Vec<String>>, attr_names: &Vec<Vec<String>>) -> (r: Vec<TupleDeclaration>)
    requires
        num_def * 1000 + num_pred <= usize::MAX,
        names@.len() == num_def,
        attr_names@.len() == num_def,
        forall|i: int| 0 <= i < num_def ==> #[trigger] names@[i]@.len() == num_pred + 1,
        forall|i: int| 0 <= i < num_def ==> #[trigger] attr_names@[i]@.len() == num_pred,
    ensures
        r@.len() == num_def * (num_pred + 1),
        forall|k: int| 0 <= k < r@.len() ==> #[trigger] length_declaration(r@[k], k / (num_pred + 1), k % (num_pred + 1), num_pred, names@[k / (num_pred + 1)]@, attr_names@[k / (num_pred + 1)]@),
{
    let ghost n = num_pred + 1;
    let mut out: Vec<TupleDeclaration> = Vec::new();
    let mut i: usize = 0;
    while i < num_def
        invariant
            n == num_pred + 1,
            num_def * 1000 + num_pred <= usize::MAX,
            names@.len() == num_def,
            attr_names@.len() == num_def,
            forall|i: int| 0 <= i < num_def ==> #[trigger] names@[i]@.len() == num_pred + 1,
            forall|i: int| 0 <= i < num_def ==> #[trigger] attr_names@[i]@.len() == num_pred,
            i <= num_def,
            out@.len() == i * n,
            forall|k: int| 0 <= k < out@.len() ==> #[trigger] length_declaration(out@[k], k / n, k % n, num_pred, names@[k / n]@, attr_names@[k / n]@),
        decreases num_def - i,
    {
        let id = i + 1;
        assert(id * 1000 + num_pred <= num_def * 1000 + num_pred) by (nonlinear_arith)
            requires
                id <= num_def,
        ;
        let ns = &names[i];
        let ans = &attr_names[i];
        let mut s: usize = 0;
        while s <= num_pred
            invariant
                n == num_pred + 1,
                id == i + 1,
                i < num_def,
                id * 1000 + num_pred <= usize::MAX,
                ns@ == names@[i as int]@,
                ans@ == attr_names@[i as int]@,
                ns@.len() == num_pred + 1,
                ans@.len() == num_pred,
                s <= num_pred + 1,
                out@.len() == i * n + s,
                forall|k: int| 0 <= k < out@.len() ==> #[trigger] length_declaration(out@[k], k / n, k % n, num_pred, names@[k / n]@, attr_names@[k / n]@),
            decreases num_pred + 1 - s,
        {
            let d = if s < num_pred {
                TupleDeclaration {
                    ty: TupleType::Event,
                    id: id * 1000 + s,
                    name: ns[s].clone(),
                    attributes: vec![AttributeDeclaration { name: ans[s].clone(), ty: BasicType::Int }],
                }
            } else {
                TupleDeclaration { ty: TupleType::Event, id, name: ns[s].clone(), attributes: Vec::new() }
            };
            proof {
                let k = out@.len() as int;
                vstd::arithmetic::div_mod::lemma_fundamental_div_mod_converse(k, n, i as int, s as int);
                assert(length_declaration(d, i as int, s as int, num_pred, ns@, ans@));
            }
            out.push(d);
            s = s + 1;
        }
        assert(i * n + n == (i + 1) * n) by (nonlinear_arith);
        i = i + 1;
    }
    out
}

} // verus!
