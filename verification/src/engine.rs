use vstd::prelude::*;

use crate::types::value::Value;

verus! {

/// What executing a statement produced.
#[derive(Debug, PartialEq)]
pub enum ExecResult {
    Rows { columns: Vec<String>, rows: Vec<Vec<Value>> },
    Modified(usize),
    Success,
}

} // verus!
