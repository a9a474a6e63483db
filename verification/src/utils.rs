//! The built-in clock.

use vstd::prelude::*;
use vstd::string::StringExecFns;

verus! {

/// The native function `clock`. Reading the time is left to the caller
/// of the interpreter, which is asked for it when the function is called.
#[derive(Clone, Copy, Debug)]
pub struct Clock {}

impl Clock {
    /// The number of arguments the function takes: none.
    pub fn arity(&self) -> (count: usize)
        ensures
            count == 0,
    {
        0
    }

    /// What `print` writes for the function.
    pub fn to_string(&self) -> (text: String)
        ensures
            text@ == "<native fn>"@,
    {
        String::from_str("<native fn>")
    }
}

} // verus!
