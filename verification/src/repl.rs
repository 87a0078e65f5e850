use vstd::prelude::*;

use crate::engine::ExecResult;
use crate::text::{
    int_decimal, join_with, nat_decimal, push_i64_decimal, push_joined, push_str,
    push_u64_decimal, string_of, string_seqs,
};
use crate::types::value::{Value, ValueView};

verus! {

/// The text shown for a value: its digits, its characters, `true`/`false` or `NULL`.
pub open spec fn value_text(v: ValueView) -> Seq<char> {
    match v {
        ValueView::Integer(i) => int_decimal(i as int),
        ValueView::Text(s) => s,
        ValueView::Json(s) => s,
        ValueView::Boolean(b) => if b {
            "true"@
        } else {
            "false"@
        },
        ValueView::Null => "NULL"@,
    }
}

fn push_value(out: &mut Vec<char>, v: &Value)
    ensures
        final(out)@ == old(out)@ + value_text(v@),
{
    match v {
        Value::Integer(i) => push_i64_decimal(out, *i),
        Value::Text(s) => push_str(out, s.as_str()),
        Value::Json(s) => push_str(out, s.as_str()),
        Value::Boolean(b) => if *b {
            push_str(out, "true")
        } else {
            push_str(out, "false")
        },
        Value::Null => push_str(out, "NULL"),
    }
}

/// Formats a value for display.
pub fn format_value(v: &Value) -> (s: String)
    ensures
        s@ == value_text(v@),
{
    let mut out: Vec<char> = Vec::new();
    push_value(&mut out, v);
    assert(out@ =~= value_text(v@));
    string_of(out.as_slice())
}

/// The cells of a row joined with ` | `.
pub open spec fn row_line(row: Seq<Value>) -> Seq<char> {
    join_with(Seq::new(row.len(), |i: int| value_text(row[i]@)), " | "@)
}

/// One line per row, each ended by a newline.
pub open spec fn rows_text(rows: Seq<Vec<Value>>) -> Seq<char>
    decreases rows.len(),
{
    if rows.len() == 0 {
        Seq::empty()
    } else {
        rows_text(rows.drop_last()) + row_line(rows.last()@) + seq!['\n']
    }
}

/// The display form of a statement's result: `OK`, the count of modified rows, or a
/// header line, one line per row and the row count.
pub open spec fn spec_format_result(r: ExecResult) -> Seq<char> {
    match r {
        ExecResult::Success => "OK"@,
        ExecResult::Modified(n) => nat_decimal(n as nat) + " row(s) modified"@,
        ExecResult::Rows { columns, rows } => join_with(string_seqs(columns@), " | "@) + seq!['\n']
            + rows_text(rows@) + "("@ + nat_decimal(rows@.len()) + " row(s))"@,
    }
}

fn push_row(out: &mut Vec<char>, row: &Vec<Value>)
    ensures
        final(out)@ == old(out)@ + row_line(row@),
{
    let ghost start = out@;
    let ghost cells = Seq::new(row@.len(), |i: int| value_text(row@[i]@));
    let mut i: usize = 0;
    assert(cells.subrange(0, 0) =~= Seq::<Seq<char>>::empty());
    assert(out@ =~= start + join_with(cells.subrange(0, 0), " | "@));
    while i < row.len()
        invariant
            cells == Seq::new(row@.len(), |i: int| value_text(row@[i]@)),
            i <= row@.len(),
            out@ == start + join_with(cells.subrange(0, i as int), " | "@),
        decreases row@.len() - i,
    {
        let ghost sub = cells.subrange(0, i + 1);
        assert(sub.drop_last() =~= cells.subrange(0, i as int));
        if i > 0 {
            push_str(out, " | ");
        }
        push_value(out, &row[i]);
        assert(out@ =~= start + join_with(sub, " | "@));
        i = i + 1;
    }
    assert(cells.subrange(0, cells.len() as int) =~= cells);
}

/// Formats a statement's result for display.
pub fn format_result(result: &ExecResult) -> (s: String)
    ensures
        s@ == spec_format_result(*result),
{
    let mut out: Vec<char> = Vec::new();
    match result {
        ExecResult::Success => push_str(&mut out, "OK"),
        ExecResult::Modified(n) => {
            push_u64_decimal(&mut out, *n as u64);
            push_str(&mut out, " row(s) modified");
        },
        ExecResult::Rows { columns, rows } => {
            push_joined(&mut out, columns.as_slice(), " | ");
            out.push('\n');
            let ghost head = out@;
            let mut i: usize = 0;
            assert(rows@.subrange(0, 0) =~= Seq::<Vec<Value>>::empty());
            assert(out@ =~= head + rows_text(rows@.subrange(0, 0)));
            while i < rows.len()
                invariant
                    i <= rows@.len(),
                    out@ == head + rows_text(rows@.subrange(0, i as int)),
                decreases rows@.len() - i,
            {
                let ghost sub = rows@.subrange(0, i + 1);
                assert(sub.drop_last() =~= rows@.subrange(0, i as int));
                push_row(&mut out, &rows[i]);
                out.push('\n');
                assert(out@ =~= head + rows_text(sub));
                i = i + 1;
            }
            assert(rows@.subrange(0, rows@.len() as int) =~= rows@);
            push_str(&mut out, "(");
            push_u64_decimal(&mut out, rows.len() as u64);
            push_str(&mut out, " row(s))");
        },
    }
    assert(out@ =~= spec_format_result(*result));
    string_of(out.as_slice())
}

} // verus!
