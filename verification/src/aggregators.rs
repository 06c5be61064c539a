//! Aggregates over the events selected by an aggregate predicate.

use vstd::prelude::*;
use crate::expressions::{BasicType, SpecValue, Value};
use crate::predicates::Aggregator;
use crate::tuples::{AttributeDeclaration, Event, SpecEvent, declared_types};

verus! {

/// The integers held by attribute `attr` of each event; `None` when an event
/// lacks the attribute or holds something else than an integer there.
pub open spec fn int_column(events: Seq<SpecEvent>, attr: int) -> Option<Seq<i64>>
    decreases events.len(),
{
    if events.len() == 0 {
        Some(Seq::empty())
    } else {
        match int_column(events.drop_last(), attr) {
            Some(s) => {
                let d = events.last().data;
                if 0 <= attr < d.len() && d[attr] is Int {
                    Some(s.push(d[attr]->Int_0))
                } else {
                    None
                }
            },
            None => None,
        }
    }
}

/// The sum of a sequence of integers added from the left, `None` when a
/// partial sum overflows `i64`.
pub open spec fn checked_sum(s: Seq<i64>) -> Option<i64>
    decreases s.len(),
{
    if s.len() == 0 {
        Some(0)
    } else {
        match checked_sum(s.drop_last()) {
            Some(t) => if i64::MIN <= t + s.last() <= i64::MAX {
                Some((t + s.last()) as i64)
            } else {
                None
            },
            None => None,
        }
    }
}

/// The least element of a sequence of integers, `None` when it is empty.
pub open spec fn seq_min(s: Seq<i64>) -> Option<i64>
    decreases s.len(),
{
    if s.len() == 0 {
        None
    } else {
        match seq_min(s.drop_last()) {
            Some(m) => Some(if s.last() < m { s.last() } else { m }),
            None => Some(s.last()),
        }
    }
}

/// The greatest element of a sequence of integers, `None` when it is empty.
pub open spec fn seq_max(s: Seq<i64>) -> Option<i64>
    decreases s.len(),
{
    if s.len() == 0 {
        None
    } else {
        match seq_max(s.drop_last()) {
            Some(m) => Some(if s.last() >= m { s.last() } else { m }),
            None => Some(s.last()),
        }
    }
}

/// The aggregate of the selected events: `Some(None)` when there is no
/// aggregate (an average, minimum or maximum of no event), `None` when the
/// computation fails (a wrong attribute, a non-numeric attribute, an
/// overflow) or needs floating-point arithmetic, which this library does not
/// do.
pub open spec fn aggregate_value(aggregator: Aggregator, events: Seq<SpecEvent>, types: Seq<BasicType>) -> Option<Option<SpecValue>> {
    match aggregator {
        Aggregator::Count => Some(Some(SpecValue::Int(events.len() as i64))),
        Aggregator::Avg(attr) => if attr >= types.len() {
            None
        } else {
            match types[attr as int] {
                BasicType::Int | BasicType::Float => if events.len() == 0 {
                    Some(None)
                } else {
                    None
                },
                _ => None,
            }
        },
        Aggregator::Sum(attr) => if attr >= types.len() {
            None
        } else {
            match types[attr as int] {
                BasicType::Int => match int_column(events, attr as int) {
                    Some(s) => match checked_sum(s) {
                        Some(t) => Some(Some(SpecValue::Int(t))),
                        None => None,
                    },
                    None => None,
                },
                BasicType::Float => if events.len() == 0 {
                    Some(Some(SpecValue::Float(0)))
                } else {
                    None
                },
                _ => None,
            }
        },
        Aggregator::Min(attr) => if attr >= types.len() {
            None
        } else {
            match types[attr as int] {
                BasicType::Int => match int_column(events, attr as int) {
                    Some(s) => Some(
                        match seq_min(s) {
                            Some(m) => Some(SpecValue::Int(m)),
                            None => None,
                        },
                    ),
                    None => None,
                },
                BasicType::Float => if events.len() == 0 {
                    Some(None)
                } else {
                    None
                },
                _ => None,
            }
        },
        Aggregator::Max(attr) => if attr >= types.len() {
            None
        } else {
            match types[attr as int] {
                BasicType::Int => match int_column(events, attr as int) {
                    Some(s) => Some(
                        match seq_max(s) {
                            Some(m) => Some(SpecValue::Int(m)),
                            None => None,
                        },
                    ),
                    None => None,
                },
                BasicType::Float => if events.len() == 0 {
                    Some(None)
                } else {
                    None
                },
                _ => None,
            }
        },
    }
}

/// The models of a list of events.
pub open spec fn events_view(v: Seq<Event>) -> Seq<SpecEvent> {
    v.map_values(|e: Event| e@)
}

/// The integers held by attribute `attr` of each event.
fn int_column_of(events: &Vec<Event>, attr: usize) -> (r: Option<Vec<i64>>)
    ensures
        r is Some <==> int_column(events_view(events@), attr as int) is Some,
        r matches Some(v) ==> int_column(events_view(events@), attr as int) == Some(v@),
{
    let mut out: Vec<i64> = Vec::new();
    let mut i: usize = 0;
    proof {
        assert(events_view(events@).subrange(0, 0) =~= Seq::<SpecEvent>::empty());
    }
    while i < events.len()
        invariant
            i <= events@.len(),
            int_column(events_view(events@).subrange(0, i as int), attr as int) == Some(out@),
        decreases events@.len() - i,
    {
        proof {
            let pre = events_view(events@).subrange(0, i + 1);
            assert(pre.drop_last() =~= events_view(events@).subrange(0, i as int));
            assert(pre.last() == events@[i as int]@);
        }
        let data = &events[i].tuple.data;
        if attr < data.len() {
            match &data[attr] {
                Value::Int(x) => {
                    out.push(*x);
                },
                _ => {
                    proof {
                        lemma_int_column_none_extends(events_view(events@), i as int + 1, attr as int);
                    }
                    return None;
                },
            }
        } else {
            proof {
                lemma_int_column_none_extends(events_view(events@), i as int + 1, attr as int);
            }
            return None;
        }
        i = i + 1;
    }
    proof {
        assert(events_view(events@).subrange(0, events@.len() as int) =~= events_view(events@));
    }
    Some(out)
}

/// Once a prefix of the events has no integer column, no longer prefix has.
proof fn lemma_int_column_none_extends(events: Seq<SpecEvent>, k: int, attr: int)
    requires
        0 <= k <= events.len(),
        int_column(events.subrange(0, k), attr) is None,
    ensures
        int_column(events, attr) is None,
    decreases events.len() - k,
{
    if k < events.len() {
        assert(events.subrange(0, k + 1).drop_last() =~= events.subrange(0, k));
        lemma_int_column_none_extends(events, k + 1, attr);
    } else {
        assert(events.subrange(0, k) =~= events);
    }
}

/// The sum of the integers, `None` on overflow.
fn sum_of(s: &Vec<i64>) -> (r: Option<i64>)
    ensures
        r == checked_sum(s@),
{
    let mut acc: i64 = 0;
    let mut i: usize = 0;
    proof {
        assert(s@.subrange(0, 0) =~= Seq::<i64>::empty());
    }
    while i < s.len()
        invariant
            i <= s@.len(),
            checked_sum(s@.subrange(0, i as int)) == Some(acc),
        decreases s@.len() - i,
    {
        proof {
            assert(s@.subrange(0, i + 1).drop_last() =~= s@.subrange(0, i as int));
        }
        match acc.checked_add(s[i]) {
            Some(x) => {
                acc = x;
            },
            None => {
                proof {
                    lemma_sum_none_extends(s@, i as int + 1);
                }
                return None;
            },
        }
        i = i + 1;
    }
    proof {
        assert(s@.subrange(0, s@.len() as int) =~= s@);
    }
    Some(acc)
}

/// Once a partial sum overflows, the whole sum does.
proof fn lemma_sum_none_extends(s: Seq<i64>, k: int)
    requires
        0 <= k <= s.len(),
        checked_sum(s.subrange(0, k)) is None,
    ensures
        checked_sum(s) is None,
    decreases s.len() - k,
{
    if k < s.len() {
        assert(s.subrange(0, k + 1).drop_last() =~= s.subrange(0, k));
        lemma_sum_none_extends(s, k + 1);
    } else {
        assert(s.subrange(0, k) =~= s);
    }
}

/// The least integer, `None` when there is none.
fn min_of(s: &Vec<i64>) -> (r: Option<i64>)
    ensures
        r == seq_min(s@),
{
    let mut acc: Option<i64> = None;
    let mut i: usize = 0;
    proof {
        assert(s@.subrange(0, 0) =~= Seq::<i64>::empty());
    }
    while i < s.len()
        invariant
            i <= s@.len(),
            seq_min(s@.subrange(0, i as int)) == acc,
        decreases s@.len() - i,
    {
        proof {
            assert(s@.subrange(0, i + 1).drop_last() =~= s@.subrange(0, i as int));
        }
        let x = s[i];
        acc = match acc {
            Some(m) => Some(if x < m { x } else { m }),
            None => Some(x),
        };
        i = i + 1;
    }
    proof {
        assert(s@.subrange(0, s@.len() as int) =~= s@);
    }
    acc
}

/// The greatest integer, `None` when there is none.
fn max_of(s: &Vec<i64>) -> (r: Option<i64>)
    ensures
        r == seq_max(s@),
{
    let mut acc: Option<i64> = None;
    let mut i: usize = 0;
    proof {
        assert(s@.subrange(0, 0) =~= Seq::<i64>::empty());
    }
    while i < s.len()
        invariant
            i <= s@.len(),
            seq_max(s@.subrange(0, i as int)) == acc,
        decreases s@.len() - i,
    {
        proof {
            assert(s@.subrange(0, i + 1).drop_last() =~= s@.subrange(0, i as int));
        }
        let x = s[i];
        acc = match acc {
            Some(m) => Some(if x >= m { x } else { m }),
            None => Some(x),
        };
        i = i + 1;
    }
    proof {
        assert(s@.subrange(0, s@.len() as int) =~= s@);
    }
    acc
}

/// The spec value of an optional integer.
pub open spec fn opt_int(m: Option<i64>) -> Option<SpecValue> {
    match m {
        Some(x) => Some(SpecValue::Int(x)),
        None => None,
    }
}

/// Whether an aggregator reads an attribute that exists and is numeric
/// (any count is).
pub open spec fn aggregator_well_typed(aggregator: Aggregator, types: Seq<BasicType>) -> bool {
    match aggregator {
        Aggregator::Count => true,
        Aggregator::Avg(attr) | Aggregator::Sum(attr) | Aggregator::Min(attr) | Aggregator::Max(attr) =>
            attr < types.len() && (types[attr as int] == BasicType::Int || types[attr as int] == BasicType::Float),
    }
}

/// Computes the aggregate of the selected events over a numeric attribute
/// that exists (the rule check refuses the others); `None` exactly where
/// [`aggregate_value`] fails, `Some(None)` when there is no aggregate.
pub fn compute_aggregate(aggregator: &Aggregator, events: &Vec<Event>, attributes: &Vec<AttributeDeclaration>) -> (r: Option<Option<Value>>)
    requires
        aggregator_well_typed(*aggregator, declared_types(attributes@)),
    ensures
        r is Some <==> aggregate_value(*aggregator, events_view(events@), declared_types(attributes@)) is Some,
        r matches Some(o) ==> aggregate_value(*aggregator, events_view(events@), declared_types(attributes@)) == Some(
            match o {
                Some(v) => Some(v@),
                None => None::<SpecValue>,
            },
        ),
{
    match aggregator {
        Aggregator::Count => Some(Some(Value::Int(events.len() as i64))),
        Aggregator::Avg(attr) => {
            let attr = *attr;
            if attr >= attributes.len() {
                return None;
            }
            match attributes[attr].ty {
                BasicType::Int | BasicType::Float => if events.len() == 0 {
                    Some(None)
                } else {
                    None
                },
                _ => None,
            }
        },
        Aggregator::Sum(attr) => {
            let attr = *attr;
            if attr >= attributes.len() {
                return None;
            }
            match attributes[attr].ty {
                BasicType::Int => match int_column_of(events, attr) {
                    Some(col) => match sum_of(&col) {
                        Some(t) => Some(Some(Value::Int(t))),
                        None => None,
                    },
                    None => None,
                },
                BasicType::Float => if events.len() == 0 {
                    Some(Some(Value::Float(0)))
                } else {
                    None
                },
                _ => None,
            }
        },
        Aggregator::Min(attr) => {
            let attr = *attr;
            if attr >= attributes.len() {
                return None;
            }
            match attributes[attr].ty {
                BasicType::Int => match int_column_of(events, attr) {
                    Some(col) => match min_of(&col) {
                        Some(m) => Some(Some(Value::Int(m))),
                        None => Some(None),
                    },
                    None => None,
                },
                BasicType::Float => if events.len() == 0 {
                    Some(None)
                } else {
                    None
                },
                _ => None,
            }
        },
        Aggregator::Max(attr) => {
            let attr = *attr;
            if attr >= attributes.len() {
                return None;
            }
            match attributes[attr].ty {
                BasicType::Int => match int_column_of(events, attr) {
                    Some(col) => match max_of(&col) {
                        Some(m) => Some(Some(Value::Int(m))),
                        None => Some(None),
                    },
                    None => None,
                },
                BasicType::Float => if events.len() == 0 {
                    Some(None)
                } else {
                    None
                },
                _ => None,
            }
        },
    }
}

/// The least element is one of the elements and no element is below it;
/// only an empty sequence has none.
proof fn lemma_seq_min(s: Seq<i64>)
    ensures
        seq_min(s) is None <==> s.len() == 0,
        seq_min(s) matches Some(m) ==> s.contains(m) && forall|i: int| 0 <= i < s.len() ==> m <= #[trigger] s[i],
    decreases s.len(),
{
    if s.len() > 0 {
        let p = s.drop_last();
        lemma_seq_min(p);
        if let Some(m) = seq_min(s) {
            assert forall|i: int| 0 <= i < s.len() implies m <= #[trigger] s[i] by {
                if i < s.len() - 1 {
                    assert(s[i] == p[i]);
                }
            }
            if m == s.last() {
                assert(s[s.len() - 1] == m);
            } else {
                let pm = seq_min(p)->0;
                let j = choose|j: int| 0 <= j < p.len() && p[j] == pm;
                assert(s[j] == m);
            }
        }
    }
}

/// The greatest element is one of the elements and no element is above it;
/// only an empty sequence has none.
proof fn lemma_seq_max(s: Seq<i64>)
    ensures
        seq_max(s) is None <==> s.len() == 0,
        seq_max(s) matches Some(m) ==> s.contains(m) && forall|i: int| 0 <= i < s.len() ==> #[trigger] s[i] <= m,
    decreases s.len(),
{
    if s.len() > 0 {
        let p = s.drop_last();
        lemma_seq_max(p);
        if let Some(m) = seq_max(s) {
            assert forall|i: int| 0 <= i < s.len() implies #[trigger] s[i] <= m by {
                if i < s.len() - 1 {
                    assert(s[i] == p[i]);
                }
            }
            if m == s.last() {
                assert(s[s.len() - 1] == m);
            } else {
                let pm = seq_max(p)->0;
                let j = choose|j: int| 0 <= j < p.len() && p[j] == pm;
                assert(s[j] == m);
            }
        }
    }
}

/// A minimum or maximum of an integer attribute over the selected events is
/// the value one of them holds there, and no event holds a smaller one (for
/// the minimum) or a greater one (for the maximum); there is none exactly
/// when no event is selected.
pub proof fn law_min_max(attr: usize, events: Seq<SpecEvent>, types: Seq<BasicType>)
    requires
        attr < types.len(),
        types[attr as int] == BasicType::Int,
    ensures
        aggregate_value(Aggregator::Min(attr), events, types) matches Some(o) ==> (o is None <==> events.len() == 0),
        aggregate_value(Aggregator::Max(attr), events, types) matches Some(o) ==> (o is None <==> events.len() == 0),
        aggregate_value(Aggregator::Min(attr), events, types) matches Some(Some(SpecValue::Int(m))) ==> (
            int_column(events, attr as int) matches Some(col) && col.contains(m)
            && forall|i: int| 0 <= i < col.len() ==> m <= #[trigger] col[i]),
        aggregate_value(Aggregator::Max(attr), events, types) matches Some(Some(SpecValue::Int(m))) ==> (
            int_column(events, attr as int) matches Some(col) && col.contains(m)
            && forall|i: int| 0 <= i < col.len() ==> #[trigger] col[i] <= m),
{
    lemma_int_column_len(events, attr as int);
    if let Some(col) = int_column(events, attr as int) {
        lemma_seq_min(col);
        lemma_seq_max(col);
    }
}

/// A column has one integer per event.
proof fn lemma_int_column_len(events: Seq<SpecEvent>, attr: int)
    ensures
        int_column(events, attr) matches Some(col) ==> col.len() == events.len(),
    decreases events.len(),
{
    if events.len() > 0 {
        lemma_int_column_len(events.drop_last(), attr);
    }
}

/// The mathematical sum of a sequence of integers.
pub open spec fn total(s: Seq<i64>) -> int
    decreases s.len(),
{
    if s.len() == 0 {
        0
    } else {
        s[0] + total(s.drop_first())
    }
}

/// Summing from the right gives the same total.
proof fn lemma_total_last(s: Seq<i64>)
    requires
        s.len() > 0,
    ensures
        total(s) == total(s.drop_last()) + s.last(),
    decreases s.len(),
{
    if s.len() > 1 {
        lemma_total_last(s.drop_first());
        assert(s.drop_first().drop_last() =~= s.drop_last().drop_first());
        assert(s.drop_last()[0] == s[0]);
        assert(s.drop_first().last() == s.last());
        assert(total(s.drop_last()) == s.drop_last()[0] + total(s.drop_last().drop_first()));
    } else {
        assert(s.drop_first().len() == 0);
        assert(s.drop_last().len() == 0);
        assert(total(s.drop_first()) == 0);
        assert(total(s.drop_last()) == 0);
    }
}

/// A checked sum, when it has a value, is the mathematical sum.
proof fn lemma_checked_sum_total(s: Seq<i64>)
    ensures
        checked_sum(s) matches Some(t) ==> t == total(s),
    decreases s.len(),
{
    if s.len() > 0 {
        lemma_checked_sum_total(s.drop_last());
        lemma_total_last(s);
    }
}

/// A count is the number of selected events; a sum of an integer attribute
/// over them is the mathematical sum of the values they hold there.
pub proof fn law_count_sum(attr: usize, events: Seq<SpecEvent>, types: Seq<BasicType>)
    requires
        attr < types.len(),
        types[attr as int] == BasicType::Int,
    ensures
        aggregate_value(Aggregator::Count, events, types) == Some(Some(SpecValue::Int(events.len() as i64))),
        aggregate_value(Aggregator::Sum(attr), events, types) matches Some(Some(SpecValue::Int(t))) ==> (
            int_column(events, attr as int) matches Some(col) && col.len() == events.len() && t == total(col)),
{
    lemma_int_column_len(events, attr as int);
    if let Some(col) = int_column(events, attr as int) {
        lemma_checked_sum_total(col);
    }
}

} // verus!
