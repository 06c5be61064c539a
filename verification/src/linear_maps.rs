//! The `linear_map` maps the engine keeps its parameters, events and
//! parameter types in. `LinearMap` is a vector of key-value pairs searched
//! linearly; these items state what its methods do to the pairs it holds.

use vstd::prelude::*;
use linear_map::LinearMap;
use crate::expressions::{BasicType, SpecValue, Value};
use crate::tuples::{Event, SpecEvent};

verus! {

#[verifier::external_type_specification]
#[verifier::external_body]
#[verifier::reject_recursive_types(K)]
#[verifier::reject_recursive_types(V)]
pub struct ExLinearMap<K, V>(LinearMap<K, V>);

/// The parameter values held by a map of parameters, by `(predicate, parameter)` index.
pub uninterp spec fn parameter_values(m: LinearMap<(usize, usize), Value>) -> Map<(usize, usize), SpecValue>;

/// The events held by a map of events, by predicate index.
pub uninterp spec fn event_values(m: LinearMap<usize, Event>) -> Map<usize, SpecEvent>;

/// The parameter types held by a map of types, by `(predicate, parameter)` index.
pub uninterp spec fn type_values(m: LinearMap<(usize, usize), BasicType>) -> Map<(usize, usize), BasicType>;

/// `LinearMap::new`: an empty map of parameters.
#[verifier::external_body]
pub(crate) fn new_parameter_map() -> (r: LinearMap<(usize, usize), Value>)
    ensures
        parameter_values(r).dom().is_empty(),
{
    LinearMap::new()
}

/// `LinearMap::insert`: the key now maps to the value; any earlier value of
/// the key is replaced.
#[verifier::external_body]
pub(crate) fn insert_parameter_value(m: &mut LinearMap<(usize, usize), Value>, k: (usize, usize), v: Value)
    ensures
        parameter_values(*final(m)) == parameter_values(*old(m)).insert(k, v@),
{
    m.insert(k, v);
}

/// `LinearMap::get`: the value of the key, if the map holds the key.
#[verifier::external_body]
pub(crate) fn get_parameter_value<'a>(m: &'a LinearMap<(usize, usize), Value>, k: &(usize, usize)) -> (r: Option<&'a Value>)
    ensures
        r is Some <==> parameter_values(*m).contains_key(*k),
        r matches Some(v) ==> parameter_values(*m)[*k] == v@,
{
    m.get(k)
}

/// `LinearMap::clone`: a map holding the same parameters.
#[verifier::external_body]
pub(crate) fn clone_parameter_map(m: &LinearMap<(usize, usize), Value>) -> (r: LinearMap<(usize, usize), Value>)
    ensures
        parameter_values(r) == parameter_values(*m),
{
    m.clone()
}

/// `LinearMap::new`: an empty map of events.
#[verifier::external_body]
pub(crate) fn new_event_map() -> (r: LinearMap<usize, Event>)
    ensures
        event_values(r).dom().is_empty(),
{
    LinearMap::new()
}

/// `LinearMap::insert`: the key now maps to the event; any earlier event of
/// the key is replaced.
#[verifier::external_body]
pub(crate) fn insert_event_value(m: &mut LinearMap<usize, Event>, k: usize, v: Event)
    ensures
        event_values(*final(m)) == event_values(*old(m)).insert(k, v@),
{
    m.insert(k, v);
}

/// `LinearMap::get`: the event of the key, if the map holds the key.
#[verifier::external_body]
pub(crate) fn get_event_value<'a>(m: &'a LinearMap<usize, Event>, k: &usize) -> (r: Option<&'a Event>)
    ensures
        r is Some <==> event_values(*m).contains_key(*k),
        r matches Some(v) ==> event_values(*m)[*k] == v@,
{
    m.get(k)
}

/// `LinearMap::clone`: a map holding the same events.
#[verifier::external_body]
pub(crate) fn clone_event_map(m: &LinearMap<usize, Event>) -> (r: LinearMap<usize, Event>)
    ensures
        event_values(r) == event_values(*m),
{
    m.clone()
}

/// `LinearMap::new`: an empty map of parameter types.
#[verifier::external_body]
pub(crate) fn new_type_map() -> (r: LinearMap<(usize, usize), BasicType>)
    ensures
        type_values(r).dom().is_empty(),
{
    LinearMap::new()
}

/// `LinearMap::insert`: the key now maps to the type; any earlier type of
/// the key is replaced.
#[verifier::external_body]
pub(crate) fn insert_type_value(m: &mut LinearMap<(usize, usize), BasicType>, k: (usize, usize), v: BasicType)
    ensures
        type_values(*final(m)) == type_values(*old(m)).insert(k, v),
{
    m.insert(k, v);
}

/// `LinearMap::get`: the type of the key, if the map holds the key.
#[verifier::external_body]
pub(crate) fn get_type_value(m: &LinearMap<(usize, usize), BasicType>, k: &(usize, usize)) -> (r: Option<BasicType>)
    ensures
        r is Some <==> type_values(*m).contains_key(*k),
        r matches Some(t) ==> type_values(*m)[*k] == t,
{
    m.get(k).copied()
}

} // verus!
