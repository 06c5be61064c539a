//! Tuple declarations, rules, and the events that flow through the engine.

use vstd::prelude::*;
use crate::expressions::{BasicType, Expression, SpecValue, Value};
use crate::predicates::Predicate;

verus! {

#[derive(Clone, Copy, Debug, PartialEq, Eq, Structural)]
pub enum TupleType {
    Static,
    Event,
}

/// A named, typed attribute of a tuple.
#[derive(Debug)]
pub struct AttributeDeclaration {
    pub name: String,
    pub ty: BasicType,
}

impl Clone for AttributeDeclaration {
    fn clone(&self) -> (r: Self)
        ensures
            r == *self,
    {
        AttributeDeclaration { name: self.name.clone(), ty: self.ty }
    }
}

/// The declaration of a tuple type: its kind, identifier, name and attributes.
#[derive(Debug)]
pub struct TupleDeclaration {
    pub ty: TupleType,
    pub id: usize,
    pub name: String,
    pub attributes: Vec<AttributeDeclaration>,
}

/// Two declarations that agree on everything, attributes compared by content.
pub open spec fn same_declaration(a: TupleDeclaration, b: TupleDeclaration) -> bool {
    a.ty == b.ty && a.id == b.id && a.name == b.name && a.attributes@ == b.attributes@
}

/// The types of a list of attribute declarations.
pub open spec fn declared_types(attrs: Seq<AttributeDeclaration>) -> Seq<BasicType> {
    attrs.map_values(|a: AttributeDeclaration| a.ty)
}

/// The types of the attributes of a declaration.
pub open spec fn attribute_types(d: TupleDeclaration) -> Seq<BasicType> {
    declared_types(d.attributes@)
}

impl Clone for TupleDeclaration {
    fn clone(&self) -> (r: Self)
        ensures
            same_declaration(r, *self),
    {
        let mut attributes: Vec<AttributeDeclaration> = Vec::new();
        let mut i: usize = 0;
        while i < self.attributes.len()
            invariant
                i <= self.attributes@.len(),
                attributes@ == self.attributes@.subrange(0, i as int),
            decreases self.attributes@.len() - i,
        {
            attributes.push(self.attributes[i].clone());
            proof {
                assert(self.attributes@.subrange(0, i + 1) == self.attributes@.subrange(
                    0,
                    i as int,
                ).push(self.attributes@[i as int]));
            }
            i = i + 1;
        }
        proof {
            assert(self.attributes@.subrange(0, self.attributes@.len() as int) == self.attributes@);
        }
        TupleDeclaration { ty: self.ty, id: self.id, name: self.name.clone(), attributes }
    }
}

/// The event a rule emits: its type and one expression per attribute.
#[derive(Debug)]
pub struct EventTemplate {
    pub ty_id: usize,
    pub attributes: Vec<Expression>,
}

/// A rule: a trigger predicate followed by further predicates, filters over
/// their parameters, and the template of the event it emits.
#[derive(Debug)]
pub struct Rule {
    pub predicates: Vec<Predicate>,
    pub filters: Vec<Expression>,
    pub event_template: EventTemplate,
    pub consuming: Vec<usize>,
}

/// The attribute values of a tuple of a given type.
#[derive(Debug)]
pub struct Tuple {
    pub ty_id: usize,
    pub data: Vec<Value>,
}

/// A tuple that occurred at a given time (nanoseconds since the epoch).
#[derive(Debug)]
pub struct Event {
    pub tuple: Tuple,
    pub time: i64,
}

/// The model of a sequence of values.
pub open spec fn values_view(v: Seq<Value>) -> Seq<SpecValue> {
    v.map_values(|x: Value| x@)
}

/// The model of an event: its type, its attribute values and its time.
pub struct SpecEvent {
    pub ty_id: usize,
    pub data: Seq<SpecValue>,
    pub time: i64,
}

impl View for Event {
    type V = SpecEvent;

    open spec fn view(&self) -> SpecEvent {
        SpecEvent { ty_id: self.tuple.ty_id, data: values_view(self.tuple.data@), time: self.time }
    }
}

/// A copy of a list of values.
pub fn clone_values(v: &Vec<Value>) -> (r: Vec<Value>)
    ensures
        r@ == v@,
{
    let mut r: Vec<Value> = Vec::new();
    let mut i: usize = 0;
    while i < v.len()
        invariant
            i <= v@.len(),
            r@ == v@.subrange(0, i as int),
        decreases v@.len() - i,
    {
        r.push(v[i].clone());
        proof {
            assert(v@.subrange(0, i + 1) == v@.subrange(0, i as int).push(v@[i as int]));
        }
        i = i + 1;
    }
    proof {
        assert(v@.subrange(0, v@.len() as int) == v@);
    }
    r
}

impl Clone for Event {
    fn clone(&self) -> (r: Self)
        ensures
            r@ == self@,
            r.tuple.data@ == self.tuple.data@,
    {
        Event { tuple: Tuple { ty_id: self.tuple.ty_id, data: clone_values(&self.tuple.data) }, time: self.time }
    }
}

/// Whether two events are the same: same type, same time, same values.
pub fn same_event(a: &Event, b: &Event) -> (r: bool)
    ensures
        r == (a@ == b@),
{
    if a.tuple.ty_id != b.tuple.ty_id || a.time != b.time || a.tuple.data.len() != b.tuple.data.len() {
        proof {
            if a.tuple.data.len() != b.tuple.data.len() {
                assert(a@.data.len() != b@.data.len());
            }
        }
        return false;
    }
    let mut i: usize = 0;
    while i < a.tuple.data.len()
        invariant
            i <= a.tuple.data@.len() == b.tuple.data@.len(),
            forall|j: int| 0 <= j < i ==> #[trigger] a.tuple.data@[j]@ == b.tuple.data@[j]@,
        decreases a.tuple.data@.len() - i,
    {
        if !crate::expressions::same_value(&a.tuple.data[i], &b.tuple.data[i]) {
            proof {
                assert(a@.data[i as int] != b@.data[i as int]);
            }
            return false;
        }
        i = i + 1;
    }
    proof {
        assert(a@.data =~= b@.data);
    }
    true
}

/// Which events a subscription asks for.
#[derive(Debug)]
pub enum SubscrFilter {
    Any,
    Topic { ty: usize },
    Content { ty: usize, filters: Vec<Expression> },
}

} // verus!
