use vstd::prelude::*;

use crate::error::ExecError;
use crate::text::{chars_of, push_str, string_of};
use crate::types::schema::{ColumnView, TableSchema};
use crate::types::value::{row_view, Value, ValueView};

verus! {

/// The message for a text value holding a NUL character in column `name`.
pub open spec fn nul_message(name: Seq<char>) -> Seq<char> {
    name + " contains an interior NUL byte, which cannot be represented in an order-preserving key"@
}

/// What is wrong with a row of a table, column by column from the first: a NULL in a
/// NOT NULL column, or text holding a NUL character; columns beyond the row are not
/// looked at.
pub enum RowFault {
    NotNull(Seq<char>),
    InteriorNul(Seq<char>),
}

/// The first fault of `row` from column `i` on, if any.
pub open spec fn row_fault(cols: Seq<ColumnView>, row: Seq<ValueView>, i: int) -> Option<RowFault>
    decreases cols.len() - i,
{
    if i < 0 || i >= cols.len() || i >= row.len() {
        None
    } else if cols[i].2 && row[i] is Null {
        Some(RowFault::NotNull(cols[i].0))
    } else if row[i] matches ValueView::Text(s) && s.contains('\0') {
        Some(RowFault::InteriorNul(cols[i].0))
    } else {
        row_fault(cols, row, i + 1)
    }
}

fn has_nul(s: &str) -> (r: bool)
    ensures
        r == s@.contains('\0'),
{
    let cs = chars_of(s);
    let mut i: usize = 0;
    while i < cs.len()
        invariant
            i <= cs@.len(),
            cs@ == s@,
            forall|j: int| 0 <= j < i ==> cs@[j] != '\0',
        decreases cs@.len() - i,
    {
        if cs[i] == '\0' {
            return true;
        }
        i = i + 1;
    }
    false
}

/// Checks a row before it is stored in a table: the first column, in order, that holds
/// NULL though declared NOT NULL, or text with a NUL character, refuses the row.
pub fn check_row(schema: &TableSchema, row: &[Value]) -> (r: Result<(), ExecError>)
    ensures
        match row_fault(schema@.columns, row_view(row@), 0) {
            None => r is Ok,
            Some(RowFault::NotNull(n)) => r matches Err(ExecError::NotNullViolation(m)) && m@ == n,
            Some(RowFault::InteriorNul(n)) => r matches Err(ExecError::InvalidValue(m)) && m@ == nul_message(n),
        },
{
    let ghost cols = schema@.columns;
    let ghost rv = row_view(row@);
    let mut i: usize = 0;
    while i < schema.columns.len() && i < row.len()
        invariant
            cols == schema@.columns,
            rv == row_view(row@),
            i <= schema.columns@.len(),
            row_fault(cols, rv, 0) == row_fault(cols, rv, i as int),
        decreases schema.columns@.len() - i,
    {
        let col = &schema.columns[i];
        assert(cols[i as int] == col@);
        assert(rv[i as int] == row@[i as int]@);
        if col.not_null {
            if let Value::Null = &row[i] {
                return Err(ExecError::NotNullViolation(col.name.clone()));
            }
        }
        if let Value::Text(s) = &row[i] {
            if has_nul(s.as_str()) {
                let mut v: Vec<char> = chars_of(col.name.as_str());
                push_str(&mut v, " contains an interior NUL byte, which cannot be represented in an order-preserving key");
                return Err(ExecError::InvalidValue(string_of(v.as_slice())));
            }
        }
        i = i + 1;
    }
    Ok(())
}

} // verus!
