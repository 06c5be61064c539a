//! The translation of a static predicate into the SQL query that evaluates
//! it against the table of its tuple type.

use vstd::prelude::*;
use vstd::string::*;
use crate::expressions::{BinaryOperator, Expression, SpecValue, UnaryOperator, Value};
use crate::predicates::{Aggregator, AttributeOrdering, Order, ParameterDeclaration, Predicate, PredicateType};
use crate::tuples::{AttributeDeclaration, TupleDeclaration};

verus! {

/// The decimal digits of a natural number.
pub open spec fn digits(n: nat) -> Seq<char>
    decreases n,
{
    if n < 10 {
        seq![(48 + n) as char]
    } else {
        digits(n / 10).push((48 + n % 10) as char)
    }
}

/// The decimal text of an integer: its digits, after a minus sign when it
/// is negative.
pub open spec fn decimal(n: int) -> Seq<char> {
    if n < 0 {
        seq!['-'] + digits((-n) as nat)
    } else {
        digits(n as nat)
    }
}

/// The text a string has when written with its quotes and escapes, as
/// `{:?}` writes it.
pub uninterp spec fn debug_text(s: Seq<char>) -> Seq<char>;

/// The text of one decimal digit.
fn digit_text(d: u64) -> (r: &'static str)
    requires
        d < 10,
    ensures
        r@ == seq![(48 + d) as char],
{
    match d {
        0 => {
            proof {
                reveal_strlit("0");
                assert((48 + 0) as char == '0');
            }
            "0"
        },
        1 => {
            proof {
                reveal_strlit("1");
                assert((48 + 1) as char == '1');
            }
            "1"
        },
        2 => {
            proof {
                reveal_strlit("2");
                assert((48 + 2) as char == '2');
            }
            "2"
        },
        3 => {
            proof {
                reveal_strlit("3");
                assert((48 + 3) as char == '3');
            }
            "3"
        },
        4 => {
            proof {
                reveal_strlit("4");
                assert((48 + 4) as char == '4');
            }
            "4"
        },
        5 => {
            proof {
                reveal_strlit("5");
                assert((48 + 5) as char == '5');
            }
            "5"
        },
        6 => {
            proof {
                reveal_strlit("6");
                assert((48 + 6) as char == '6');
            }
            "6"
        },
        7 => {
            proof {
                reveal_strlit("7");
                assert((48 + 7) as char == '7');
            }
            "7"
        },
        8 => {
            proof {
                reveal_strlit("8");
                assert((48 + 8) as char == '8');
            }
            "8"
        },
        _ => {
            proof {
                reveal_strlit("9");
                assert((48 + 9) as char == '9');
            }
            "9"
        },
    }
}

/// The decimal digits of a number.
fn digits_text(n: u64) -> (r: String)
    ensures
        r@ == digits(n as nat),
    decreases n,
{
    if n < 10 {
        String::from_str(digit_text(n))
    } else {
        let mut s = digits_text(n / 10);
        s.append(digit_text(n % 10));
        s
    }
}

/// `i64` as `Display` writes it: its decimal text.
fn i64_text(x: i64) -> (r: String)
    ensures
        r@ == decimal(x as int),
{
    if x < 0 {
        let m: u64 = (-(x + 1)) as u64 + 1;
        let mut s = String::from_str("-");
        proof {
            reveal_strlit("-");
        }
        let d = digits_text(m);
        s.append(d.as_str());
        s
    } else {
        digits_text(x as u64)
    }
}

/// `usize` as `Display` writes it: its decimal text.
pub(crate) fn usize_text(x: usize) -> (r: String)
    ensures
        r@ == decimal(x as int),
{
    digits_text(x as u64)
}

/// `String` as `Debug` writes it: quoted, with its special characters
/// escaped.
#[verifier::external_body]
fn debug_string(s: &String) -> (r: String)
    ensures
        r@ == debug_text(s@),
{
    format!("{:?}", s)
}

/// What writes a floating-point number, given by its bit pattern, in SQL.
pub trait FloatRenderer {
    fn render(&self, bits: u64) -> String;
}

/// What the SQL of an expression can refer to: the table and the names of
/// its columns, the index of the predicate, the SQL of the predicate's own
/// parameters so far, and the SQL of its aggregate once set.
pub struct SqlScope {
    pub name: Seq<char>,
    pub attrs: Seq<Seq<char>>,
    pub idx: usize,
    pub params: Seq<Seq<char>>,
    pub aggregate: Option<Seq<char>>,
}

/// The SQL of a value (floating-point numbers are written by a renderer and
/// have no text here).
pub open spec fn sql_value(v: SpecValue) -> Seq<char> {
    match v {
        SpecValue::Int(i) => decimal(i as int),
        SpecValue::Bool(b) => if b {
            "true"@
        } else {
            "false"@
        },
        SpecValue::Str(s) => debug_text(s),
        SpecValue::Float(_) => Seq::empty(),
    }
}

/// The SQL of a unary operator.
pub open spec fn unary_sql(op: UnaryOperator) -> Seq<char> {
    match op {
        UnaryOperator::Minus => "-"@,
        UnaryOperator::Not => "!"@,
    }
}

/// The SQL of a binary operator.
pub open spec fn binary_sql(op: BinaryOperator) -> Seq<char> {
    match op {
        BinaryOperator::Plus => "+"@,
        BinaryOperator::Minus => "-"@,
        BinaryOperator::Times => "*"@,
        BinaryOperator::Division => "/"@,
        BinaryOperator::Equal => "="@,
        BinaryOperator::NotEqual => "!="@,
        BinaryOperator::GreaterThan => ">"@,
        BinaryOperator::GreaterEqual => ">="@,
        BinaryOperator::LowerThan => "<"@,
        BinaryOperator::LowerEqual => "<="@,
    }
}

/// The SQL name of a column: `table.column`.
pub open spec fn column_sql(sc: SqlScope, a: int) -> Seq<char> {
    sc.name + "."@ + sc.attrs[a]
}

/// The SQL of a parameter: the SQL of the predicate's own parameter, or the
/// named query parameter `:param<predicate>x<parameter>`.
pub open spec fn parameter_sql(sc: SqlScope, p: usize, q: usize) -> Seq<char> {
    if p == sc.idx {
        sc.params[q as int]
    } else {
        bind_name(p, q)
    }
}

/// The name `:param{p}x{q}` a statement binds parameter `q` of predicate
/// `p` under.
pub open spec fn bind_name(p: usize, q: usize) -> Seq<char> {
    ":param"@ + decimal(p as int) + "x"@ + decimal(q as int)
}

/// The name `:param{p}x{q}` a statement binds parameter `q` of predicate
/// `p` under.
pub fn bind_name_text(p: usize, q: usize) -> (r: String)
    ensures
        r@ == bind_name(p, q),
{
    let mut s = String::from_str(":param");
    let a = usize_text(p);
    s.append(a.as_str());
    s.append("x");
    let b = usize_text(q);
    s.append(b.as_str());
    s
}

/// Whether an expression can be written in SQL in a scope: its columns
/// exist, its own parameters are known, and its aggregate is set.
pub open spec fn sql_encodable(e: Expression, sc: SqlScope) -> bool
    decreases e,
{
    match e {
        Expression::Immediate { .. } => true,
        Expression::Reference { attribute } => attribute < sc.attrs.len(),
        Expression::Parameter { predicate, parameter } => predicate == sc.idx ==> parameter < sc.params.len(),
        Expression::Aggregate => sc.aggregate is Some,
        Expression::Cast { expression, .. } => sql_encodable(*expression, sc),
        Expression::UnaryOperation { expression, .. } => sql_encodable(*expression, sc),
        Expression::BinaryOperation { left, right, .. } => sql_encodable(*left, sc) && sql_encodable(*right, sc),
    }
}

/// Whether an expression holds no floating-point literal.
pub open spec fn float_free(e: Expression) -> bool
    decreases e,
{
    match e {
        Expression::Immediate { value } => !(value is Float),
        Expression::Cast { expression, .. } => float_free(*expression),
        Expression::UnaryOperation { expression, .. } => float_free(*expression),
        Expression::BinaryOperation { left, right, .. } => float_free(*left) && float_free(*right),
        _ => true,
    }
}

/// The SQL of an expression: operations in parentheses, casts left to the
/// database.
pub open spec fn sql_expr(e: Expression, sc: SqlScope) -> Seq<char>
    decreases e,
{
    match e {
        Expression::Immediate { value } => sql_value(value@),
        Expression::Reference { attribute } => column_sql(sc, attribute as int),
        Expression::Parameter { predicate, parameter } => parameter_sql(sc, predicate, parameter),
        Expression::Aggregate => sc.aggregate->0,
        Expression::Cast { expression, .. } => sql_expr(*expression, sc),
        Expression::UnaryOperation { operator, expression } => "("@ + unary_sql(operator) + sql_expr(*expression, sc) + ")"@,
        Expression::BinaryOperation { operator, left, right } => "("@ + sql_expr(*left, sc) + " "@ + binary_sql(operator) + " "@ + sql_expr(*right, sc) + ")"@,
    }
}

/// The names of a list of attributes.
pub open spec fn attr_names(v: Seq<AttributeDeclaration>) -> Seq<Seq<char>> {
    v.map_values(|a: AttributeDeclaration| a.name@)
}

/// The texts of a list of strings.
pub open spec fn strings_view(v: Seq<String>) -> Seq<Seq<char>> {
    v.map_values(|s: String| s@)
}

/// The text of an optional string.
pub open spec fn opt_text(o: Option<String>) -> Option<Seq<char>> {
    match o {
        Some(s) => Some(s@),
        None => None,
    }
}

/// The SQL of an aggregate over the table.
pub open spec fn aggregate_sql(a: Aggregator, sc: SqlScope) -> Seq<char> {
    match a {
        Aggregator::Avg(i) => "AVG("@ + column_sql(sc, i as int) + ")"@,
        Aggregator::Sum(i) => "SUM("@ + column_sql(sc, i as int) + ")"@,
        Aggregator::Max(i) => "MAX("@ + column_sql(sc, i as int) + ")"@,
        Aggregator::Min(i) => "MIN("@ + column_sql(sc, i as int) + ")"@,
        Aggregator::Count => "COUNT(*)"@,
    }
}

/// Texts joined with a separator.
pub open spec fn join(parts: Seq<Seq<char>>, sep: Seq<char>) -> Seq<char>
    decreases parts.len(),
{
    if parts.len() == 0 {
        Seq::empty()
    } else if parts.len() == 1 {
        parts[0]
    } else {
        join(parts.drop_last(), sep) + sep + parts.last()
    }
}

/// The context of the translation of predicate `idx` over a tuple type.
#[derive(Debug)]
pub struct SqlContext<'a> {
    idx: usize,
    tuple: &'a TupleDeclaration,
    parameters: Vec<String>,
    aggregate: Option<String>,
}

impl<'a> SqlContext<'a> {
    /// What the SQL of an expression can refer to in this context.
    pub closed spec fn scope(&self) -> SqlScope {
        SqlScope {
            name: self.tuple.name@,
            attrs: attr_names(self.tuple.attributes@),
            idx: self.idx,
            params: strings_view(self.parameters@),
            aggregate: opt_text(self.aggregate),
        }
    }

    /// The context of predicate `idx` over `tuple`: no parameter and no
    /// aggregate yet.
    pub fn new(idx: usize, tuple: &'a TupleDeclaration) -> (r: Self)
        ensures
            r.scope() == (SqlScope {
                name: tuple.name@,
                attrs: attr_names(tuple.attributes@),
                idx,
                params: Seq::empty(),
                aggregate: None,
            }),
            r.attr_types() == crate::tuples::attribute_types(*tuple),
    {
        let r = SqlContext { idx, tuple, parameters: Vec::new(), aggregate: None };
        proof {
            assert(strings_view(r.parameters@) =~= Seq::<Seq<char>>::empty());
        }
        r
    }

    /// The SQL name of a column.
    fn encode_attribute(&self, attribute: usize) -> (r: String)
        requires
            attribute < self.scope().attrs.len(),
        ensures
            r@ == column_sql(self.scope(), attribute as int),
    {
        let mut s = self.tuple.name.clone();
        s.append(".");
        s.append(self.tuple.attributes[attribute].name.as_str());
        proof {
            assert(self.scope().attrs[attribute as int] == self.tuple.attributes@[attribute as int].name@);
        }
        s
    }

    /// Sets the aggregate the predicate computes.
    fn set_aggregate(&mut self, aggr: &Aggregator)
        requires
            crate::rule_checks::aggregate_index_ok(*aggr, crate::tuples::attribute_types(*old(self).tuple)),
        ensures
            final(self).scope() == (SqlScope { aggregate: Some(aggregate_sql(*aggr, old(self).scope())), ..old(self).scope() }),
            final(self).tuple == old(self).tuple,
    {
        let sql = match aggr {
            Aggregator::Avg(a) => {
                let mut s = String::from_str("AVG(");
                let c = self.encode_attribute(*a);
                s.append(c.as_str());
                s.append(")");
                s
            },
            Aggregator::Sum(a) => {
                let mut s = String::from_str("SUM(");
                let c = self.encode_attribute(*a);
                s.append(c.as_str());
                s.append(")");
                s
            },
            Aggregator::Max(a) => {
                let mut s = String::from_str("MAX(");
                let c = self.encode_attribute(*a);
                s.append(c.as_str());
                s.append(")");
                s
            },
            Aggregator::Min(a) => {
                let mut s = String::from_str("MIN(");
                let c = self.encode_attribute(*a);
                s.append(c.as_str());
                s.append(")");
                s
            },
            Aggregator::Count => String::from_str("COUNT(*)"),
        };
        self.aggregate = Some(sql);
    }

    /// The SQL of a value; a floating-point number is written by the
    /// renderer.
    fn encode_value<R: FloatRenderer>(&self, value: &Value, renderer: &R) -> (r: String)
        ensures
            !(*value is Float) ==> r@ == sql_value(value@),
    {
        match value {
            Value::Int(x) => i64_text(*x),
            Value::Float(bits) => renderer.render(*bits),
            Value::Bool(b) => if *b {
                String::from_str("true")
            } else {
                String::from_str("false")
            },
            Value::Str(s) => debug_string(s),
        }
    }

    /// The SQL of a unary operator.
    fn encode_unary(&self, op: &UnaryOperator) -> (r: String)
        ensures
            r@ == unary_sql(*op),
    {
        match op {
            UnaryOperator::Minus => String::from_str("-"),
            UnaryOperator::Not => String::from_str("!"),
        }
    }

    /// The SQL of a binary operator.
    fn encode_binary(&self, op: &BinaryOperator) -> (r: String)
        ensures
            r@ == binary_sql(*op),
    {
        match op {
            BinaryOperator::Plus => String::from_str("+"),
            BinaryOperator::Minus => String::from_str("-"),
            BinaryOperator::Times => String::from_str("*"),
            BinaryOperator::Division => String::from_str("/"),
            BinaryOperator::Equal => String::from_str("="),
            BinaryOperator::NotEqual => String::from_str("!="),
            BinaryOperator::GreaterThan => String::from_str(">"),
            BinaryOperator::GreaterEqual => String::from_str(">="),
            BinaryOperator::LowerThan => String::from_str("<"),
            BinaryOperator::LowerEqual => String::from_str("<="),
        }
    }

    /// The SQL of a parameter.
    fn get_parameter(&self, predicate: usize, parameter: usize) -> (r: String)
        requires
            predicate == self.idx ==> parameter < self.parameters@.len(),
        ensures
            r@ == parameter_sql(self.scope(), predicate, parameter),
    {
        if predicate == self.idx {
            self.parameters[parameter].clone()
        } else {
            bind_name_text(predicate, parameter)
        }
    }

    /// The SQL of an expression.
    fn encode_expression<R: FloatRenderer>(&self, expr: &Expression, renderer: &R) -> (r: String)
        requires
            sql_encodable(*expr, self.scope()),
        ensures
            float_free(*expr) ==> r@ == sql_expr(*expr, self.scope()),
        decreases expr,
    {
        match expr {
            Expression::Immediate { value } => self.encode_value(value, renderer),
            Expression::Reference { attribute } => self.encode_attribute(*attribute),
            Expression::Parameter { predicate, parameter } => self.get_parameter(*predicate, *parameter),
            Expression::Aggregate => match &self.aggregate {
                Some(a) => a.clone(),
                None => String::new(),
            },
            Expression::Cast { expression, .. } => self.encode_expression(expression, renderer),
            Expression::UnaryOperation { operator, expression } => {
                let mut s = String::from_str("(");
                let o = self.encode_unary(operator);
                s.append(o.as_str());
                let e = self.encode_expression(expression, renderer);
                s.append(e.as_str());
                s.append(")");
                s
            },
            Expression::BinaryOperation { operator, left, right } => {
                let mut s = String::from_str("(");
                let l = self.encode_expression(left, renderer);
                s.append(l.as_str());
                s.append(" ");
                let o = self.encode_binary(operator);
                s.append(o.as_str());
                s.append(" ");
                let r = self.encode_expression(right, renderer);
                s.append(r.as_str());
                s.append(")");
                s
            },
        }
    }

    /// The SQL of a parameter, which becomes the SQL the predicate's later
    /// expressions refer to it by.
    fn insert_parameter<R: FloatRenderer>(&mut self, param: &ParameterDeclaration, renderer: &R) -> (r: String)
        requires
            sql_encodable(param.expression, old(self).scope()),
        ensures
            float_free(param.expression) ==> r@ == sql_expr(param.expression, old(self).scope()),
            final(self).scope() == (SqlScope { params: old(self).scope().params.push(r@), ..old(self).scope() }),
            final(self).tuple == old(self).tuple,
    {
        let sql = self.encode_expression(&param.expression, renderer);
        let ghost before = self.parameters@;
        self.parameters.push(sql.clone());
        proof {
            assert(strings_view(self.parameters@) =~= strings_view(before).push(sql@));
        }
        sql
    }

    /// The SQL of a direction of ordering.
    fn encode_order(&self, ord: &Order) -> (r: String)
        ensures
            r@ == (match *ord {
                Order::Asc => "ASC"@,
                Order::Desc => "DESC"@,
            }),
    {
        match ord {
            Order::Asc => String::from_str("ASC"),
            Order::Desc => String::from_str("DESC"),
        }
    }

    /// The SQL of an ordering criterion: the column and the direction.
    fn encode_ordering(&self, ord: &AttributeOrdering) -> (r: String)
        requires
            ord.attribute < self.scope().attrs.len(),
        ensures
            r@ == ordering_sql(*ord, self.scope()),
    {
        let mut s = self.encode_attribute(ord.attribute);
        s.append(" ");
        let d = self.encode_order(&ord.direction);
        s.append(d.as_str());
        s
    }
}

/// The SQL of an ordering criterion.
pub open spec fn ordering_sql(o: AttributeOrdering, sc: SqlScope) -> Seq<char> {
    column_sql(sc, o.attribute as int) + " "@ + match o.direction {
        Order::Asc => "ASC"@,
        Order::Desc => "DESC"@,
    }
}


/// The SQL of the parameters of a predicate, in order, each in the scope of
/// the parameters before it.
pub open spec fn param_sqls(ps: Seq<ParameterDeclaration>, sc: SqlScope) -> Seq<Seq<char>>
    decreases ps.len(),
{
    if ps.len() == 0 {
        Seq::empty()
    } else {
        let prev = param_sqls(ps.drop_last(), sc);
        prev.push(sql_expr(ps.last().expression, SqlScope { params: sc.params + prev, ..sc }))
    }
}

/// Whether the parameters of a predicate can be written in SQL in order.
pub open spec fn params_encodable(ps: Seq<ParameterDeclaration>, sc: SqlScope) -> bool
    decreases ps.len(),
{
    if ps.len() == 0 {
        true
    } else {
        params_encodable(ps.drop_last(), sc) && sql_encodable(
            ps.last().expression,
            SqlScope { params: sc.params + param_sqls(ps.drop_last(), sc), ..sc },
        )
    }
}

/// Whether no parameter expression holds a floating-point literal.
pub open spec fn params_float_free(ps: Seq<ParameterDeclaration>) -> bool {
    forall|i: int| 0 <= i < ps.len() ==> #[trigger] float_free(ps[i].expression)
}

/// The selected columns of a predicate's parameters: `sql AS name`.
pub open spec fn selection_parts(ps: Seq<ParameterDeclaration>, sqls: Seq<Seq<char>>) -> Seq<Seq<char>> {
    Seq::new(ps.len(), |i: int| sqls[i] + " AS "@ + ps[i].name@)
}

/// The SQL of a list of expressions.
pub open spec fn exprs_sql(v: Seq<Expression>, sc: SqlScope) -> Seq<Seq<char>> {
    v.map_values(|e: Expression| sql_expr(e, sc))
}

/// The SQL of a list of ordering criteria.
pub open spec fn orderings_sql(v: Seq<AttributeOrdering>, sc: SqlScope) -> Seq<Seq<char>> {
    v.map_values(|o: AttributeOrdering| ordering_sql(o, sc))
}

/// The selection and the trailing clauses of the query of a static
/// predicate.
pub open spec fn selection_and_rest(ty: crate::predicates::SpecPredicateType, sc: SqlScope) -> (Seq<char>, Seq<char>) {
    match ty {
        crate::predicates::SpecPredicateType::OrderedStatic { parameters, ordering } => (
            join(selection_parts(parameters, param_sqls(parameters, sc)), ", "@),
            "ORDER BY "@ + join(orderings_sql(ordering, sc), ", "@) + " LIMIT 1"@,
        ),
        crate::predicates::SpecPredicateType::UnorderedStatic { parameters } => (
            join(selection_parts(parameters, param_sqls(parameters, sc)), ", "@),
            Seq::empty(),
        ),
        crate::predicates::SpecPredicateType::StaticAggregate { aggregator, parameter } => (
            sql_expr(parameter.expression, SqlScope { aggregate: Some(aggregate_sql(aggregator, sc)), ..sc }) + " AS "@ + parameter.name@,
            Seq::empty(),
        ),
        _ => ("1"@, "LIMIT 1"@),
    }
}

/// The query of a static predicate: `SELECT selection FROM table WHERE
/// constraints rest`, with the constraints joined by `AND` and `COUNT(1)`
/// selected when the predicate has no parameter.
pub open spec fn predicate_sql(p: crate::predicates::SpecPredicate, sc: SqlScope) -> Seq<char> {
    let (sel, rest) = selection_and_rest(p.ty, sc);
    "SELECT "@ + (if sel.len() > 0 {
        sel
    } else {
        "COUNT(1)"@
    }) + " FROM "@ + sc.name + " WHERE "@ + join(exprs_sql(p.constraints, sc), " AND "@) + " "@ + rest
}

/// Whether a predicate can be written as a query: it is static, and its
/// constraints, parameters, ordering columns and aggregate refer to what
/// exists.
pub open spec fn predicate_encodable(p: crate::predicates::SpecPredicate, sc: SqlScope, types: Seq<crate::expressions::BasicType>) -> bool {
    &&& forall|i: int| 0 <= i < p.constraints.len() ==> #[trigger] sql_encodable(p.constraints[i], sc)
    &&& match p.ty {
        crate::predicates::SpecPredicateType::OrderedStatic { parameters, ordering } => params_encodable(parameters, sc)
            && forall|i: int| 0 <= i < ordering.len() ==> #[trigger] ordering[i].attribute < sc.attrs.len(),
        crate::predicates::SpecPredicateType::UnorderedStatic { parameters } => params_encodable(parameters, sc),
        crate::predicates::SpecPredicateType::StaticAggregate { aggregator, parameter } =>
            crate::rule_checks::aggregate_index_ok(aggregator, types)
            && sql_encodable(parameter.expression, SqlScope { aggregate: Some(aggregate_sql(aggregator, sc)), ..sc }),
        crate::predicates::SpecPredicateType::StaticNegation => true,
        _ => false,
    }
}

/// Whether a predicate holds no floating-point literal.
pub open spec fn predicate_float_free(p: crate::predicates::SpecPredicate) -> bool {
    &&& forall|i: int| 0 <= i < p.constraints.len() ==> #[trigger] float_free(p.constraints[i])
    &&& match p.ty {
        crate::predicates::SpecPredicateType::OrderedStatic { parameters, .. } => params_float_free(parameters),
        crate::predicates::SpecPredicateType::UnorderedStatic { parameters } => params_float_free(parameters),
        crate::predicates::SpecPredicateType::StaticAggregate { parameter, .. } => float_free(parameter.expression),
        _ => true,
    }
}

impl<'a> SqlContext<'a> {
    /// The SQL of a list of expressions joined by a separator.
    fn encode_joined<R: FloatRenderer>(&self, v: &Vec<Expression>, sep: &str, renderer: &R) -> (r: String)
        requires
            forall|i: int| 0 <= i < v@.len() ==> #[trigger] sql_encodable(v@[i], self.scope()),
        ensures
            (forall|i: int| 0 <= i < v@.len() ==> #[trigger] float_free(v@[i])) ==> r@ == join(exprs_sql(v@, self.scope()), sep@),
    {
        let mut out = String::new();
        let mut i: usize = 0;
        proof {
            assert(exprs_sql(v@, self.scope()).subrange(0, 0) =~= Seq::<Seq<char>>::empty());
        }
        while i < v.len()
            invariant
                i <= v@.len(),
                forall|k: int| 0 <= k < v@.len() ==> #[trigger] sql_encodable(v@[k], self.scope()),
                (forall|k: int| 0 <= k < i ==> #[trigger] float_free(v@[k])) ==> out@ == join(exprs_sql(v@, self.scope()).subrange(0, i as int), sep@),
            decreases v@.len() - i,
        {
            let ghost before = out@;
            let part = self.encode_expression(&v[i], renderer);
            if i > 0 {
                out.append(sep);
            }
            out.append(part.as_str());
            proof {
                let all = exprs_sql(v@, self.scope());
                let pre = all.subrange(0, i + 1);
                assert(pre.drop_last() =~= all.subrange(0, i as int));
                assert(pre.last() == sql_expr(v@[i as int], self.scope()));
                if forall|k: int| 0 <= k < i + 1 ==> #[trigger] float_free(v@[k]) {
                    assert(float_free(v@[i as int]));
                    assert(forall|k: int| 0 <= k < i ==> #[trigger] float_free(v@[k]));
                    if i == 0 {
                        assert(out@ =~= pre[0]);
                    } else {
                        assert(out@ =~= before + sep@ + part@);
                    }
                }
            }
            i = i + 1;
        }
        proof {
            assert(exprs_sql(v@, self.scope()).subrange(0, v@.len() as int) =~= exprs_sql(v@, self.scope()));
        }
        out
    }
}


/// Whether an expression can be written is a matter of how many parameters
/// are known, not of their SQL.
proof fn lemma_encodable_params_len(e: Expression, a: SqlScope, b: SqlScope)
    requires
        sql_encodable(e, a),
        a.attrs == b.attrs,
        a.idx == b.idx,
        a.aggregate is Some ==> b.aggregate is Some,
        a.params.len() == b.params.len(),
    ensures
        sql_encodable(e, b),
    decreases e,
{
    match e {
        Expression::Cast { expression, .. } => lemma_encodable_params_len(*expression, a, b),
        Expression::UnaryOperation { expression, .. } => lemma_encodable_params_len(*expression, a, b),
        Expression::BinaryOperation { left, right, .. } => {
            lemma_encodable_params_len(*left, a, b);
            lemma_encodable_params_len(*right, a, b);
        },
        _ => {},
    }
}

/// There is one SQL text per parameter.
pub(crate) proof fn lemma_param_sqls_len(ps: Seq<ParameterDeclaration>, sc: SqlScope)
    ensures
        param_sqls(ps, sc).len() == ps.len(),
    decreases ps.len(),
{
    if ps.len() > 0 {
        lemma_param_sqls_len(ps.drop_last(), sc);
    }
}

impl<'a> SqlContext<'a> {
    /// The types of the attributes of the table.
    pub closed spec fn attr_types(&self) -> Seq<crate::expressions::BasicType> {
        crate::tuples::attribute_types(*self.tuple)
    }

    /// The selection of a predicate's parameters, each becoming known to the
    /// ones after it: `sql AS name`, joined by commas.
    fn encode_params<R: FloatRenderer>(&mut self, ps: &Vec<ParameterDeclaration>, renderer: &R) -> (r: String)
        requires
            params_encodable(ps@, old(self).scope()),
        ensures
            final(self).scope().name == old(self).scope().name,
            final(self).scope().attrs == old(self).scope().attrs,
            final(self).scope().idx == old(self).scope().idx,
            final(self).scope().aggregate == old(self).scope().aggregate,
            final(self).attr_types() == old(self).attr_types(),
            params_float_free(ps@) ==> r@ == join(selection_parts(ps@, param_sqls(ps@, old(self).scope())), ", "@),
    {
        let ghost sc = self.scope();
        let mut out = String::new();
        let mut j: usize = 0;
        proof {
            assert(ps@.subrange(0, 0) =~= Seq::<ParameterDeclaration>::empty());
            assert(sc.params + param_sqls(ps@.subrange(0, 0), sc) =~= sc.params);
        }
        while j < ps.len()
            invariant
                j <= ps@.len(),
                params_encodable(ps@, sc),
                self.scope().name == sc.name,
                self.scope().attrs == sc.attrs,
                self.scope().idx == sc.idx,
                self.scope().aggregate == sc.aggregate,
                self.attr_types() == old(self).attr_types(),
                sc == old(self).scope(),
                self.scope().params.len() == sc.params.len() + j,
                params_float_free(ps@.subrange(0, j as int)) ==> self.scope().params == sc.params + param_sqls(ps@.subrange(0, j as int), sc)
                    && out@ == join(selection_parts(ps@.subrange(0, j as int), param_sqls(ps@.subrange(0, j as int), sc)), ", "@),
            decreases ps@.len() - j,
        {
            let ghost pre = ps@.subrange(0, j + 1);
            let ghost prev = param_sqls(ps@.subrange(0, j as int), sc);
            let ghost cur = self.scope();
            let ghost before = out@;
            proof {
                assert(pre.drop_last() =~= ps@.subrange(0, j as int));
                assert(pre.last() == ps@[j as int]);
                lemma_params_encodable_prefix(ps@, j + 1, sc);
                lemma_param_sqls_len(ps@.subrange(0, j as int), sc);
                lemma_encodable_params_len(ps@[j as int].expression, SqlScope { params: sc.params + prev, ..sc }, cur);
            }
            let sql = self.insert_parameter(&ps[j], renderer);
            if j > 0 {
                out.append(", ");
            }
            out.append(sql.as_str());
            out.append(" AS ");
            out.append(ps[j].name.as_str());
            proof {
                if params_float_free(pre) {
                    assert(params_float_free(ps@.subrange(0, j as int))) by {
                        assert forall|i: int| 0 <= i < j implies #[trigger] float_free(ps@.subrange(0, j as int)[i].expression) by {
                            assert(ps@.subrange(0, j as int)[i] == pre[i]);
                        }
                    }
                    assert(float_free(pre[j as int].expression));
                    let now = param_sqls(pre, sc);
                    assert(now == prev.push(sql@));
                    assert(self.scope().params =~= sc.params + now);
                    let parts = selection_parts(pre, now);
                    assert(parts.drop_last() =~= selection_parts(ps@.subrange(0, j as int), prev));
                    if j == 0 {
                        assert(out@ =~= parts[0]);
                    } else {
                        assert(out@ =~= before + ", "@ + parts.last());
                    }
                }
            }
            j = j + 1;
        }
        proof {
            assert(ps@.subrange(0, ps@.len() as int) =~= ps@);
        }
        out
    }

    /// The ordering criteria, joined by commas.
    fn encode_orderings(&self, v: &Vec<AttributeOrdering>) -> (r: String)
        requires
            forall|i: int| 0 <= i < v@.len() ==> #[trigger] v@[i].attribute < self.scope().attrs.len(),
        ensures
            r@ == join(orderings_sql(v@, self.scope()), ", "@),
    {
        let mut out = String::new();
        let mut i: usize = 0;
        proof {
            assert(orderings_sql(v@, self.scope()).subrange(0, 0) =~= Seq::<Seq<char>>::empty());
        }
        while i < v.len()
            invariant
                i <= v@.len(),
                forall|k: int| 0 <= k < v@.len() ==> #[trigger] v@[k].attribute < self.scope().attrs.len(),
                out@ == join(orderings_sql(v@, self.scope()).subrange(0, i as int), ", "@),
            decreases v@.len() - i,
        {
            let ghost before = out@;
            let part = self.encode_ordering(&v[i]);
            if i > 0 {
                out.append(", ");
            }
            out.append(part.as_str());
            proof {
                let all = orderings_sql(v@, self.scope());
                let pre = all.subrange(0, i + 1);
                assert(pre.drop_last() =~= all.subrange(0, i as int));
                if i == 0 {
                    assert(out@ =~= pre[0]);
                } else {
                    assert(out@ =~= before + ", "@ + pre.last());
                }
            }
            i = i + 1;
        }
        proof {
            assert(orderings_sql(v@, self.scope()).subrange(0, v@.len() as int) =~= orderings_sql(v@, self.scope()));
        }
        out
    }

    /// The query that evaluates a static predicate against its table.
    pub fn encode_predicate<R: FloatRenderer>(&mut self, pred: &Predicate, renderer: &R) -> (r: String)
        requires
            predicate_encodable(pred@, old(self).scope(), old(self).attr_types()),
        ensures
            predicate_float_free(pred@) ==> r@ == predicate_sql(pred@, old(self).scope()),
    {
        let ghost sc = self.scope();
        proof {
            assert forall|i: int| 0 <= i < pred.tuple.constraints@.len() implies #[trigger] sql_encodable(pred.tuple.constraints@[i], self.scope()) by {
                assert(sql_encodable(pred@.constraints[i], sc));
            }
        }
        let filters = self.encode_joined(&pred.tuple.constraints, " AND ", renderer);
        let (selection, rest) = match &pred.ty {
            PredicateType::OrderedStatic { parameters, ordering } => {
                let sel = self.encode_params(parameters, renderer);
                proof {
                    assert forall|i: int| 0 <= i < ordering@.len() implies #[trigger] ordering@[i].attribute < self.scope().attrs.len() by {}
                }
                let order = self.encode_orderings(ordering);
                proof {
                    assert(orderings_sql(ordering@, self.scope()) =~= orderings_sql(ordering@, sc));
                }
                let mut rest = String::from_str("ORDER BY ");
                rest.append(order.as_str());
                rest.append(" LIMIT 1");
                (sel, rest)
            },
            PredicateType::UnorderedStatic { parameters } => {
                let sel = self.encode_params(parameters, renderer);
                (sel, String::new())
            },
            PredicateType::StaticAggregate { aggregator, parameter } => {
                self.set_aggregate(aggregator);
                let sql = self.insert_parameter(parameter, renderer);
                let mut sel = sql;
                sel.append(" AS ");
                sel.append(parameter.name.as_str());
                (sel, String::new())
            },
            PredicateType::StaticNegation => (String::from_str("1"), String::from_str("LIMIT 1")),
            _ => (String::new(), String::new()),
        };
        let mut out = String::from_str("SELECT ");
        if !selection.as_str().is_empty() {
            out.append(selection.as_str());
        } else {
            out.append("COUNT(1)");
        }
        out.append(" FROM ");
        out.append(self.tuple.name.as_str());
        out.append(" WHERE ");
        out.append(filters.as_str());
        out.append(" ");
        out.append(rest.as_str());
        proof {
            if predicate_float_free(pred@) {
                let (sel, rst) = selection_and_rest(pred@.ty, sc);
                assert(selection@ == sel);
                assert(rest@ == rst);
            }
        }
        out
    }
}

/// The parameters of a prefix can be written when all of them can.
proof fn lemma_params_encodable_prefix(ps: Seq<ParameterDeclaration>, k: int, sc: SqlScope)
    requires
        0 <= k <= ps.len(),
        params_encodable(ps, sc),
    ensures
        params_encodable(ps.subrange(0, k), sc),
    decreases ps.len() - k,
{
    if k < ps.len() {
        lemma_params_encodable_prefix(ps, k + 1, sc);
        assert(ps.subrange(0, k + 1).drop_last() =~= ps.subrange(0, k));
    } else {
        assert(ps.subrange(0, k) =~= ps);
    }
}

/// Whether an expression can be written in SQL in a scope of predicate
/// `idx` with `n_attrs` columns, `n_params` parameters of its own, and an
/// aggregate when `has_aggr`.
pub(crate) fn encodable(e: &Expression, Ghost(sc): Ghost<SqlScope>, idx: usize, n_attrs: usize, n_params: usize, has_aggr: bool) -> (r: bool)
    requires
        sc.idx == idx,
        sc.attrs.len() == n_attrs,
        sc.params.len() == n_params,
        has_aggr == (sc.aggregate is Some),
    ensures
        r == sql_encodable(*e, sc),
    decreases e,
{
    match e {
        Expression::Immediate { .. } => true,
        Expression::Reference { attribute } => *attribute < n_attrs,
        Expression::Parameter { predicate, parameter } => *predicate != idx || *parameter < n_params,
        Expression::Aggregate => has_aggr,
        Expression::Cast { expression, .. } => encodable(expression, Ghost(sc), idx, n_attrs, n_params, has_aggr),
        Expression::UnaryOperation { expression, .. } => encodable(expression, Ghost(sc), idx, n_attrs, n_params, has_aggr),
        Expression::BinaryOperation { left, right, .. } => encodable(left, Ghost(sc), idx, n_attrs, n_params, has_aggr)
            && encodable(right, Ghost(sc), idx, n_attrs, n_params, has_aggr),
    }
}

/// Whether the parameters of a predicate can be written in SQL in order, in
/// a scope with no parameters of its own yet.
pub(crate) fn params_encodable_exec(ps: &Vec<ParameterDeclaration>, Ghost(sc): Ghost<SqlScope>, idx: usize, n_attrs: usize, has_aggr: bool) -> (r: bool)
    requires
        sc.idx == idx,
        sc.attrs.len() == n_attrs,
        sc.params.len() == 0,
        has_aggr == (sc.aggregate is Some),
    ensures
        r == params_encodable(ps@, sc),
{
    let mut k: usize = 0;
    proof {
        assert(ps@.subrange(0, 0) =~= Seq::<ParameterDeclaration>::empty());
    }
    while k < ps.len()
        invariant
            sc.idx == idx,
            sc.attrs.len() == n_attrs,
            sc.params.len() == 0,
            has_aggr == (sc.aggregate is Some),
            k <= ps@.len(),
            params_encodable(ps@.subrange(0, k as int), sc),
        decreases ps@.len() - k,
    {
        let ghost pre = ps@.subrange(0, k + 1);
        proof {
            assert(pre.drop_last() =~= ps@.subrange(0, k as int));
            assert(pre.last() == ps@[k as int]);
            lemma_param_sqls_len(ps@.subrange(0, k as int), sc);
        }
        let ghost sc2 = SqlScope { params: sc.params + param_sqls(ps@.subrange(0, k as int), sc), ..sc };
        if !encodable(&ps[k].expression, Ghost(sc2), idx, n_attrs, k, has_aggr) {
            proof {
                lemma_params_prefix_fails(ps@, sc, k as int + 1);
            }
            return false;
        }
        k = k + 1;
    }
    proof {
        assert(ps@.subrange(0, ps@.len() as int) =~= ps@);
    }
    true
}

/// Once the parameters up to `k` cannot be written, none can.
proof fn lemma_params_prefix_fails(ps: Seq<ParameterDeclaration>, sc: SqlScope, k: int)
    requires
        0 <= k <= ps.len(),
        !params_encodable(ps.subrange(0, k), sc),
    ensures
        !params_encodable(ps, sc),
    decreases ps.len() - k,
{
    if k < ps.len() {
        assert(ps.subrange(0, k + 1).drop_last() =~= ps.subrange(0, k));
        lemma_params_prefix_fails(ps, sc, k + 1);
    } else {
        assert(ps.subrange(0, k) =~= ps);
    }
}

/// Each aggregator is written as the SQL aggregate function of the same
/// name over its column (`AVG`, `SUM`, `MAX`, `MIN`), and a count as
/// `COUNT(*)`; in particular a minimum and a maximum are never written
/// alike.
pub proof fn law_aggregate_functions(i: usize, sc: SqlScope)
    ensures
        aggregate_sql(Aggregator::Avg(i), sc) == seq!['A', 'V', 'G', '('] + column_sql(sc, i as int) + seq![')'],
        aggregate_sql(Aggregator::Sum(i), sc) == seq!['S', 'U', 'M', '('] + column_sql(sc, i as int) + seq![')'],
        aggregate_sql(Aggregator::Max(i), sc) == seq!['M', 'A', 'X', '('] + column_sql(sc, i as int) + seq![')'],
        aggregate_sql(Aggregator::Min(i), sc) == seq!['M', 'I', 'N', '('] + column_sql(sc, i as int) + seq![')'],
        aggregate_sql(Aggregator::Count, sc) == seq!['C', 'O', 'U', 'N', 'T', '(', '*', ')'],
        aggregate_sql(Aggregator::Min(i), sc) != aggregate_sql(Aggregator::Max(i), sc),
{
    reveal_strlit("AVG(");
    reveal_strlit("SUM(");
    reveal_strlit("MAX(");
    reveal_strlit("MIN(");
    reveal_strlit(")");
    reveal_strlit("COUNT(*)");
    assert("AVG("@ =~= seq!['A', 'V', 'G', '(']);
    assert("SUM("@ =~= seq!['S', 'U', 'M', '(']);
    assert("MAX("@ =~= seq!['M', 'A', 'X', '(']);
    assert("MIN("@ =~= seq!['M', 'I', 'N', '(']);
    assert(")"@ =~= seq![')']);
    assert("COUNT(*)"@ =~= seq!['C', 'O', 'U', 'N', 'T', '(', '*', ')']);
    let mn = aggregate_sql(Aggregator::Min(i), sc);
    let mx = aggregate_sql(Aggregator::Max(i), sc);
    assert(mn[1] == 'I');
    assert(mx[1] == 'A');
}

} // verus!
