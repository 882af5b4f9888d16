//! Storage modes of local variables.

use vstd::prelude::*;

use crate::chars::str_eq;

verus! {

/// Storage mode selected for a local variable.
#[derive(Debug, Clone, Copy, PartialEq, Eq, Structural)]
pub enum VarMode {
    Value,
    Variable,
    StackSlot,
}

/// `name` is among `ref_vars`.
pub open spec fn contains_name(ref_vars: Seq<String>, name: Seq<char>) -> bool {
    exists|i: int| 0 <= i < ref_vars.len() && #[trigger] ref_vars[i]@ == name
}

/// The storage a local gets: a stack slot when its address is taken,
/// a mutable variable when it is mutable, a plain value otherwise.
pub open spec fn spec_var_mode(name: Seq<char>, mutable: bool, ref_vars: Seq<String>) -> VarMode {
    if contains_name(ref_vars, name) {
        VarMode::StackSlot
    } else if mutable {
        VarMode::Variable
    } else {
        VarMode::Value
    }
}

/// Selects local storage from mutability and address-taking information.
/// `ref_vars` holds the names of address-taken locals.
pub fn var_mode(name: &str, mutable: bool, ref_vars: &Vec<String>) -> (m: VarMode)
    ensures
        m == spec_var_mode(name@, mutable, ref_vars@),
{
    let mut i: usize = 0;
    while i < ref_vars.len()
        invariant
            i <= ref_vars@.len(),
            forall|j: int| 0 <= j < i ==> #[trigger] ref_vars@[j]@ != name@,
        decreases ref_vars.len() - i,
    {
        if str_eq(ref_vars[i].as_str(), name) {
            return VarMode::StackSlot;
        }
        i += 1;
    }
    if mutable {
        VarMode::Variable
    } else {
        VarMode::Value
    }
}

} // verus!
