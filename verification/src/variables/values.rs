//! The observed values of a variable: one double per alternative, stored as
//! IEEE 754 bit patterns and validated to be non-empty and all finite.
use crate::ieee::is_finite_bits;
use vstd::prelude::*;

verus! {

/// Every entry of the sequence is the bit pattern of a finite double.
pub open spec fn all_finite(s: Seq<u64>) -> bool {
    forall|i: int| 0 <= i < s.len() ==> is_finite_bits(#[trigger] s[i])
}

/// What a valid observation vector is: non-empty and fully finite.
pub open spec fn valid_values(s: Seq<u64>) -> bool {
    s.len() > 0 && all_finite(s)
}

/// Why a sequence of doubles is rejected as the values of a variable.
#[derive(Debug, PartialEq, Eq, Structural)]
pub enum ValuesError {
    /// The sequence has no entries.
    Empty,
    /// Some entry is a NaN or an infinity.
    NoFiniteValues,
}

impl ValuesError {
    /// The stable, human-readable description of the failure.
    pub fn message(&self) -> (r: String)
        ensures
            self == ValuesError::Empty ==> r@ == "The values cannot be empty"@,
            self == ValuesError::NoFiniteValues ==> r@
                == "The values cannot be NaN or Infinity"@,
    {
        match self {
            ValuesError::Empty => "The values cannot be empty".to_owned(),
            ValuesError::NoFiniteValues => "The values cannot be NaN or Infinity".to_owned(),
        }
    }
}

/// A non-empty, fully finite vector of doubles, one per alternative, held
/// as bit patterns.
#[derive(Debug)]
pub struct Values {
    vals: Vec<u64>,
}

impl View for Values {
    type V = Seq<u64>;

    closed spec fn view(&self) -> Seq<u64> {
        self.vals@
    }
}

impl Values {
    /// The values are non-empty and all finite.
    #[verifier::type_invariant]
    pub open spec fn wf(self) -> bool {
        valid_values(self@)
    }

    /// Validates a vector of doubles, given as bit patterns: it is accepted
    /// exactly when it is non-empty and every entry is finite, and the
    /// stored values read back unchanged.
    pub fn try_from(values: Vec<u64>) -> (r: Result<Values, ValuesError>)
        ensures
            r is Ok <==> valid_values(values@),
            r matches Ok(v) ==> v@ == values@,
            r matches Err(e) ==> (e == ValuesError::Empty <==> values@.len() == 0),
            r matches Err(e) ==> (e == ValuesError::NoFiniteValues <==> values@.len() > 0
                && !all_finite(values@)),
    {
        if values.len() == 0 {
            return Err(ValuesError::Empty);
        }
        let n = values.len();
        for i in 0..n
            invariant
                n == values@.len(),
                forall|j: int| 0 <= j < i ==> is_finite_bits(#[trigger] values@[j]),
        {
            if !crate::ieee::check_finite_bits(values[i]) {
                return Err(ValuesError::NoFiniteValues);
            }
        }
        Ok(Values { vals: values })
    }

    /// Wraps an already validated vector.
    pub(crate) fn from_raw(vals: Vec<u64>) -> (r: Values)
        requires
            valid_values(vals@),
        ensures
            r@ == vals@,
    {
        Values { vals }
    }

    /// The stored bit patterns, as an owned vector.
    pub fn into_vec(self) -> (r: Vec<u64>)
        ensures
            r@ == self@,
            valid_values(self@),
    {
        proof {
            use_type_invariant(&self);
        }
        self.vals
    }

    /// Read-only access to the stored bit patterns.
    pub fn values(&self) -> (r: &Vec<u64>)
        ensures
            r@ == self@,
            valid_values(self@),
    {
        proof {
            use_type_invariant(self);
        }
        &self.vals
    }
}

} // verus!
