use vstd::prelude::*;

use crate::error::{err_view, Error, ErrorModel};
use crate::interpret::{lookup, Value, VariableMap};

verus! {

/// A reference to a variable by name.
#[derive(Debug, Clone)]
pub struct Variable {
    pub name: String,
}

/// The most recent binding of the variable; `UnboundNameError` with its name where it has none.
pub fn interpret_variable_expr(variable: &Variable, variable_map: &VariableMap) -> (r: Result<Value, Error>)
    ensures
        match lookup(variable_map@, variable.name@) {
            Some(v) => err_view(r) == Ok::<Value, ErrorModel>(v),
            None => err_view(r) == Err::<Value, ErrorModel>(ErrorModel::UnboundNameError(variable.name@)),
        },
{
    match variable_map.lookup(&variable.name) {
        Some(v) => Ok(v),
        None => Err(Error::UnboundNameError(variable.name.clone())),
    }
}

} // verus!
