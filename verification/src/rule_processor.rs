//! Partial results of a rule evaluation.

use vstd::prelude::*;
use linear_map::LinearMap;
use crate::expressions::{SpecValue, Value};
use crate::linear_maps::{
    clone_event_map, clone_parameter_map, event_values, get_event_value, get_parameter_value,
    insert_event_value, insert_parameter_value, new_event_map, new_parameter_map, parameter_values,
};
use crate::tuples::{Event, SpecEvent};

verus! {

/// The model of a partial result: the parameter values and the events
/// matched so far, by predicate index.
pub struct SpecResult {
    pub params: Map<(usize, usize), SpecValue>,
    pub events: Map<usize, SpecEvent>,
}

/// The parameters computed and the events matched while evaluating a rule.
#[derive(Debug)]
pub struct PartialResult {
    parameters: LinearMap<(usize, usize), Value>,
    events: LinearMap<usize, Event>,
}

impl View for PartialResult {
    type V = SpecResult;

    closed spec fn view(&self) -> SpecResult {
        SpecResult { params: parameter_values(self.parameters), events: event_values(self.events) }
    }
}

impl Clone for PartialResult {
    fn clone(&self) -> (r: Self)
        ensures
            r@ == self@,
    {
        PartialResult {
            parameters: clone_parameter_map(&self.parameters),
            events: clone_event_map(&self.events),
        }
    }
}

impl PartialResult {
    /// An empty partial result.
    pub fn new() -> (r: Self)
        ensures
            r@ == (SpecResult { params: Map::empty(), events: Map::empty() }),
    {
        let r = PartialResult { parameters: new_parameter_map(), events: new_event_map() };
        proof {
            assert(r@.params =~= Map::empty());
            assert(r@.events =~= Map::empty());
        }
        r
    }

    /// The result with `event` matched by predicate `idx`.
    pub fn insert_event(self, idx: usize, event: Event) -> (r: Self)
        ensures
            r@ == (SpecResult { params: self@.params, events: self@.events.insert(idx, event@) }),
    {
        let mut s = self;
        insert_event_value(&mut s.events, idx, event);
        s
    }

    /// The result with parameter `idx` set to `parameter`.
    pub fn insert_parameter(self, idx: (usize, usize), parameter: Value) -> (r: Self)
        ensures
            r@ == (SpecResult { params: self@.params.insert(idx, parameter@), events: self@.events }),
    {
        let mut s = self;
        insert_parameter_value(&mut s.parameters, idx, parameter);
        s
    }

    /// The value of parameter `idx`, which must be set.
    pub fn get_parameter(&self, idx: (usize, usize)) -> (r: &Value)
        requires
            self@.params.contains_key(idx),
        ensures
            r@ == self@.params[idx],
    {
        get_parameter_value(&self.parameters, &idx).unwrap()
    }

    /// The value of parameter `idx`, if it is set.
    pub fn find_parameter(&self, idx: (usize, usize)) -> (r: Option<&Value>)
        ensures
            r is Some <==> self@.params.contains_key(idx),
            r matches Some(v) ==> v@ == self@.params[idx],
    {
        get_parameter_value(&self.parameters, &idx)
    }

    /// The time of the event matched by predicate `idx`, which must be set.
    pub fn get_time(&self, idx: usize) -> (r: i64)
        requires
            self@.events.contains_key(idx),
        ensures
            r == self@.events[idx].time,
    {
        get_event_value(&self.events, &idx).unwrap().time
    }

    /// The time of the event matched by predicate `idx`, if any.
    pub fn find_time(&self, idx: usize) -> (r: Option<i64>)
        ensures
            r is Some <==> self@.events.contains_key(idx),
            r matches Some(t) ==> t == self@.events[idx].time,
    {
        match get_event_value(&self.events, &idx) {
            Some(e) => Some(e.time),
            None => None,
        }
    }
}

} // verus!
