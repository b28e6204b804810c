//! The building blocks of a problem: validated names, validated value
//! vectors, and the two variable flavours (direct and inverted scaling).
use vstd::prelude::*;

pub mod name;
pub mod scaling;
pub mod traits;
pub mod values;
pub mod variableautoscale;
pub mod variableinvertedautoscale;

pub use name::Name;
pub use name::NameError;
pub use traits::VariableProperties;
pub use values::Values;
pub use values::ValuesError;
pub use variableautoscale::VariableAutoscale;
pub use variableinvertedautoscale::VariableInvertedAutoscale;

verus! {

/// What a variable is at specification level: its name, its raw values,
/// and its orientation.
pub ghost struct VarView {
    /// The characters of the variable's name.
    pub name: Seq<char>,
    /// The bit patterns of the variable's raw values.
    pub vals: Seq<u64>,
    /// Whether rescaling reflects the result about one half.
    pub inverted: bool,
}

/// A variable of either flavour: the closed union over the two scaling
/// strategies, so that one problem can mix them.
#[derive(Debug)]
pub enum Variable {
    /// A directly rescaled variable.
    Autoscale(VariableAutoscale),
    /// An inverted rescaled variable.
    InvertedAutoscale(VariableInvertedAutoscale),
}

impl View for Variable {
    type V = VarView;

    open spec fn view(&self) -> VarView {
        VarView { name: self.name_spec(), vals: self.values_spec(), inverted: self.inverted_spec() }
    }
}

impl VariableProperties for Variable {
    open spec fn name_spec(&self) -> Seq<char> {
        match self {
            Variable::Autoscale(v) => v.name_spec(),
            Variable::InvertedAutoscale(v) => v.name_spec(),
        }
    }

    open spec fn values_spec(&self) -> Seq<u64> {
        match self {
            Variable::Autoscale(v) => v.values_spec(),
            Variable::InvertedAutoscale(v) => v.values_spec(),
        }
    }

    open spec fn inverted_spec(&self) -> bool {
        match self {
            Variable::Autoscale(v) => v.inverted_spec(),
            Variable::InvertedAutoscale(v) => v.inverted_spec(),
        }
    }

    fn name(&self) -> (r: &Name) {
        match self {
            Variable::Autoscale(v) => v.name(),
            Variable::InvertedAutoscale(v) => v.name(),
        }
    }

    fn values(&self) -> (r: &Values) {
        match self {
            Variable::Autoscale(v) => v.values(),
            Variable::InvertedAutoscale(v) => v.values(),
        }
    }

    fn rescale(&self) -> (r: Values) {
        match self {
            Variable::Autoscale(v) => v.rescale(),
            Variable::InvertedAutoscale(v) => v.rescale(),
        }
    }
}

} // verus!
