//! A self-contained evaluation context: one input, one output, a budget and
//! a name-keyed variable table.
use vstd::prelude::*;

use crate::gas_plan::GasPlan;
use crate::variable::Variable;

verus! {

/// One evaluation context.
pub struct Context {
    /// The input bytes.
    pub input: Vec<u8>,
    /// The output bytes.
    pub output: Vec<u8>,
    /// The budget the context runs under.
    pub gas: GasPlan,
    /// The variable bindings, keyed by name; a later binding of a name
    /// shadows an earlier one.
    pub variables: Vec<(Vec<u8>, Variable)>,
}

impl Context {
    /// A context over the given buffers and budget, with no bindings.
    pub fn new(input: Vec<u8>, output: Vec<u8>, gas: GasPlan) -> (r: Self)
        ensures
            r.input == input,
            r.output == output,
            r.gas == gas,
            r.variables@.len() == 0,
    {
        Self { input, output, gas, variables: Vec::new() }
    }
}

} // verus!
