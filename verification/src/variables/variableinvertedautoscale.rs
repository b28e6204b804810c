//! The inverted variable flavour: rescaling maps the raw minimum to 1.0
//! and the raw maximum to 0.0, for criteria where smaller raw values are
//! preferable.
use crate::variables::name::Name;
use crate::variables::scaling::autorescale_vector;
use crate::variables::traits::VariableProperties;
use crate::variables::values::Values;
use vstd::prelude::*;

verus! {

/// A named observation vector that rescales with a reflection: larger raw
/// values come out smaller after normalization.
#[derive(Debug)]
pub struct VariableInvertedAutoscale {
    name: Name,
    values: Values,
}

impl VariableInvertedAutoscale {
    /// Binds a validated name to a validated observation vector.
    pub fn new(name: Name, values: Values) -> (r: VariableInvertedAutoscale)
        ensures
            r.name_spec() == name@,
            r.values_spec() == values@,
            r.inverted_spec(),
    {
        VariableInvertedAutoscale { name, values }
    }
}

impl VariableProperties for VariableInvertedAutoscale {
    closed spec fn name_spec(&self) -> Seq<char> {
        self.name@
    }

    closed spec fn values_spec(&self) -> Seq<u64> {
        self.values@
    }

    closed spec fn inverted_spec(&self) -> bool {
        true
    }

    fn name(&self) -> (r: &Name) {
        &self.name
    }

    fn values(&self) -> (r: &Values) {
        &self.values
    }

    fn rescale(&self) -> (r: Values) {
        autorescale_vector(&self.values, true)
    }
}

} // verus!
