//! The capability set shared by all variable flavours: a name, raw values,
//! and a rescaling of those values onto a common scale.
use crate::ieee::ONE_BITS;
use crate::ieee::f_le;
use crate::ieee::is_finite_bits;
use crate::ieee::sign_bits;
use crate::variables::name::Name;
use crate::variables::scaling::autorescale_spec;
use crate::variables::scaling::degenerate;
use crate::variables::scaling::fmax;
use crate::variables::scaling::fmin;
use crate::variables::values::Values;
use vstd::prelude::*;

verus! {

/// What every variable exposes: its name, its raw values, and a min-max
/// rescaling of those values, reflected for an inverted variable. The
/// rescale contract carries the numeric guarantees of
/// [`crate::variables::scaling::autorescale_vector`]: every rescaled entry
/// of a non-degenerate variable is finite and lies in [0.0, 1.0], the raw
/// minimum maps exactly to 0.0 and the raw maximum exactly to 1.0 (the
/// other way round when inverted), and a degenerate variable rescales to
/// all 0.0.
pub trait VariableProperties: Sized {
    /// The name, at specification level.
    spec fn name_spec(&self) -> Seq<char>;

    /// The raw values, at specification level.
    spec fn values_spec(&self) -> Seq<u64>;

    /// Whether rescaling reflects the result about one half.
    spec fn inverted_spec(&self) -> bool;

    /// The variable's name.
    fn name(&self) -> (r: &Name)
        ensures
            r@ == self.name_spec(),
    ;

    /// The variable's raw values.
    fn values(&self) -> (r: &Values)
        ensures
            r@ == self.values_spec(),
    ;

    /// The variable's values, min-max rescaled according to its flavour.
    fn rescale(&self) -> (r: Values)
        ensures
            r@ == autorescale_spec(self.values_spec(), self.inverted_spec()),
            r@.len() == self.values_spec().len(),
            degenerate(self.values_spec()) ==> forall|k: int|
                0 <= k < r@.len() ==> #[trigger] r@[k] == 0u64,
            !degenerate(self.values_spec()) ==> forall|k: int|
                0 <= k < r@.len() ==> !sign_bits(#[trigger] r@[k]) && is_finite_bits(r@[k])
                    && f_le(r@[k], ONE_BITS),
            !degenerate(self.values_spec()) && !self.inverted_spec() ==> forall|k: int|
                0 <= k < self.values_spec().len() ==> (#[trigger] self.values_spec()[k] == fmin(
                    self.values_spec(),
                ) ==> r@[k] == 0u64) && (self.values_spec()[k] == fmax(self.values_spec())
                    ==> r@[k] == ONE_BITS),
            !degenerate(self.values_spec()) && self.inverted_spec() ==> forall|k: int|
                0 <= k < self.values_spec().len() ==> (#[trigger] self.values_spec()[k] == fmin(
                    self.values_spec(),
                ) ==> r@[k] == ONE_BITS) && (self.values_spec()[k] == fmax(self.values_spec())
                    ==> r@[k] == 0u64),
    ;
}

} // verus!
