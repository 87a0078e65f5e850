use vstd::prelude::*;

use crate::text::{chars_of, join_with, push_chars, push_str, str_equal, string_of, string_seqs};

verus! {

/// A JSON value as a CSV cell sees it: null, a string, or another value by its JSON text.
#[derive(Debug, Clone)]
pub enum JsonCell {
    Null,
    Str(String),
    Other(String),
}

/// The content of a cell.
pub enum CellView {
    Null,
    Str(Seq<char>),
    Other(Seq<char>),
}

impl View for JsonCell {
    type V = CellView;

    open spec fn view(&self) -> CellView {
        match self {
            JsonCell::Null => CellView::Null,
            JsonCell::Str(s) => CellView::Str(s@),
            JsonCell::Other(s) => CellView::Other(s@),
        }
    }
}

/// The fields of a JSON object, in order.
pub open spec fn fields_view(f: Seq<(String, JsonCell)>) -> Seq<(Seq<char>, CellView)> {
    Seq::new(f.len(), |i: int| (f[i].0@, f[i].1@))
}

/// The rows: each a JSON object's fields, or `None` for a value that is no object.
pub open spec fn rows_view(rows: Seq<Option<Vec<(String, JsonCell)>>>) -> Seq<Option<Seq<(Seq<char>, CellView)>>> {
    Seq::new(
        rows.len(),
        |i: int|
            match rows[i] {
                Some(f) => Some(fields_view(f@)),
                None => None,
            },
    )
}

/// `s` with every `"` doubled.
pub open spec fn double_quotes(s: Seq<char>) -> Seq<char>
    decreases s.len(),
{
    if s.len() == 0 {
        Seq::empty()
    } else if s.last() == '"' {
        double_quotes(s.drop_last()) + seq!['"', '"']
    } else {
        double_quotes(s.drop_last()).push(s.last())
    }
}

/// Whether a field must be quoted: it holds a comma, a quote or a line break.
pub open spec fn needs_quotes(s: Seq<char>) -> bool {
    s.contains(',') || s.contains('"') || s.contains('\n') || s.contains('\r')
}

/// A text as a CSV field: quoted, with quotes doubled, when it needs quotes.
pub open spec fn csv_field(s: Seq<char>) -> Seq<char> {
    if needs_quotes(s) {
        seq!['"'] + double_quotes(s) + seq!['"']
    } else {
        s
    }
}

/// The field of a cell: empty for null or a missing field.
pub open spec fn cell_text(c: Option<CellView>) -> Seq<char> {
    match c {
        Some(CellView::Str(s)) => csv_field(s),
        Some(CellView::Other(t)) => csv_field(t),
        _ => Seq::empty(),
    }
}

/// The value of the first field named `h`.
pub open spec fn lookup(fields: Seq<(Seq<char>, CellView)>, h: Seq<char>) -> Option<CellView>
    decreases fields.len(),
{
    if fields.len() == 0 {
        None
    } else if fields[0].0 == h {
        Some(fields[0].1)
    } else {
        lookup(fields.drop_first(), h)
    }
}

/// One row's fields under the headers, joined with commas.
pub open spec fn csv_line(fields: Seq<(Seq<char>, CellView)>, headers: Seq<Seq<char>>) -> Seq<char> {
    join_with(Seq::new(headers.len(), |i: int| cell_text(lookup(fields, headers[i]))), ","@)
}

/// A line per object row, each ended by a newline; rows that are no objects are left out.
pub open spec fn csv_body(rows: Seq<Option<Seq<(Seq<char>, CellView)>>>, headers: Seq<Seq<char>>) -> Seq<char>
    decreases rows.len(),
{
    if rows.len() == 0 {
        Seq::empty()
    } else {
        csv_body(rows.drop_last(), headers) + match rows.last() {
            Some(f) => csv_line(f, headers) + seq!['\n'],
            None => Seq::empty(),
        }
    }
}

/// The names of the fields.
pub open spec fn field_names(f: Seq<(Seq<char>, CellView)>) -> Seq<Seq<char>> {
    Seq::new(f.len(), |i: int| f[i].0)
}

/// JSON rows as CSV: the first row's field names as the header line, then a line per
/// object row; empty when there are no rows or the first row has no fields.
pub open spec fn spec_rows_to_csv(rows: Seq<Option<Seq<(Seq<char>, CellView)>>>) -> Seq<char> {
    if rows.len() == 0 {
        Seq::empty()
    } else {
        let headers = match rows[0] {
            Some(f) => field_names(f),
            None => Seq::empty(),
        };
        if headers.len() == 0 {
            Seq::empty()
        } else {
            join_with(headers, ","@) + seq!['\n'] + csv_body(rows, headers)
        }
    }
}

fn push_doubled(out: &mut Vec<char>, s: &[char])
    ensures
        final(out)@ == old(out)@ + double_quotes(s@),
{
    let ghost start = out@;
    let mut i: usize = 0;
    assert(s@.take(0) =~= Seq::<char>::empty());
    assert(out@ =~= start + double_quotes(s@.take(0)));
    while i < s.len()
        invariant
            i <= s@.len(),
            out@ == start + double_quotes(s@.take(i as int)),
        decreases s@.len() - i,
    {
        assert(s@.take(i + 1).drop_last() =~= s@.take(i as int));
        assert(s@.take(i + 1).last() == s@[i as int]);
        if s[i] == '"' {
            out.push('"');
            out.push('"');
        } else {
            out.push(s[i]);
        }
        i = i + 1;
        assert(out@ =~= start + double_quotes(s@.take(i as int)));
    }
    assert(s@.take(s@.len() as int) =~= s@);
}

fn push_field(out: &mut Vec<char>, s: &str)
    ensures
        final(out)@ == old(out)@ + csv_field(s@),
{
    let cs = chars_of(s);
    let mut quote = false;
    let mut i: usize = 0;
    while i < cs.len()
        invariant
            cs@ == s@,
            i <= cs@.len(),
            quote == exists|j: int| 0 <= j < i && (cs@[j] == ',' || cs@[j] == '"' || cs@[j] == '\n' || cs@[j] == '\r'),
        decreases cs@.len() - i,
    {
        let c = cs[i];
        if c == ',' || c == '"' || c == '\n' || c == '\r' {
            quote = true;
        }
        i = i + 1;
    }
    proof {
        if quote {
            let j = choose|j: int| 0 <= j < i && (cs@[j] == ',' || cs@[j] == '"' || cs@[j] == '\n' || cs@[j] == '\r');
            assert(s@[j] == cs@[j]);
        } else {
            assert(!s@.contains(',') && !s@.contains('"') && !s@.contains('\n') && !s@.contains('\r')) by {
                if s@.contains(',') || s@.contains('"') || s@.contains('\n') || s@.contains('\r') {
                    let j = choose|j: int| 0 <= j < s@.len() && (s@[j] == ',' || s@[j] == '"' || s@[j] == '\n' || s@[j] == '\r');
                    assert(cs@[j] == s@[j]);
                }
            }
        }
    }
    let ghost start = out@;
    if quote {
        out.push('"');
        push_doubled(out, cs.as_slice());
        out.push('"');
        assert(out@ =~= start + csv_field(s@));
    } else {
        push_chars(out, cs.as_slice());
    }
}

fn find_field<'a>(fields: &'a Vec<(String, JsonCell)>, h: &str) -> (r: Option<&'a JsonCell>)
    ensures
        match lookup(fields_view(fields@), h@) {
            Some(c) => r matches Some(x) && x@ == c,
            None => r is None,
        },
{
    let ghost fv = fields_view(fields@);
    let mut i: usize = 0;
    assert(fv.skip(0) =~= fv);
    while i < fields.len()
        invariant
            fv == fields_view(fields@),
            i <= fv.len(),
            lookup(fv, h@) == lookup(fv.skip(i as int), h@),
        decreases fv.len() - i,
    {
        assert(fv.skip(i as int)[0] == (fields@[i as int].0@, fields@[i as int].1@));
        if str_equal(fields[i].0.as_str(), h) {
            return Some(&fields[i].1);
        }
        assert(fv.skip(i as int).drop_first() =~= fv.skip(i + 1));
        i = i + 1;
    }
    None
}

fn push_line(out: &mut Vec<char>, fields: &Vec<(String, JsonCell)>, headers: &Vec<String>)
    ensures
        final(out)@ == old(out)@ + csv_line(fields_view(fields@), string_seqs(headers@)),
{
    let ghost start = out@;
    let ghost hs = string_seqs(headers@);
    let ghost cells = Seq::new(hs.len(), |i: int| cell_text(lookup(fields_view(fields@), hs[i])));
    let mut i: usize = 0;
    assert(cells.subrange(0, 0) =~= Seq::<Seq<char>>::empty());
    assert(out@ =~= start + join_with(cells.subrange(0, 0), ","@));
    while i < headers.len()
        invariant
            hs == string_seqs(headers@),
            cells == Seq::new(hs.len(), |i: int| cell_text(lookup(fields_view(fields@), hs[i]))),
            i <= headers@.len(),
            out@ == start + join_with(cells.subrange(0, i as int), ","@),
        decreases headers@.len() - i,
    {
        let ghost sub = cells.subrange(0, i + 1);
        assert(sub.drop_last() =~= cells.subrange(0, i as int));
        if i > 0 {
            push_str(out, ",");
        }
        match find_field(fields, headers[i].as_str()) {
            Some(JsonCell::Str(s)) => push_field(out, s.as_str()),
            Some(JsonCell::Other(t)) => push_field(out, t.as_str()),
            _ => {},
        }
        assert(out@ =~= start + join_with(sub, ","@));
        i = i + 1;
    }
    assert(cells.subrange(0, cells.len() as int) =~= cells);
}

/// JSON rows written as CSV with a header line.
pub fn json_rows_to_csv(rows: &Vec<Option<Vec<(String, JsonCell)>>>) -> (r: String)
    ensures
        r@ == spec_rows_to_csv(rows_view(rows@)),
{
    let ghost rv = rows_view(rows@);
    if rows.len() == 0 {
        return String::new();
    }
    let mut headers: Vec<String> = Vec::new();
    match &rows[0] {
        Some(f) => {
            let mut i: usize = 0;
            while i < f.len()
                invariant
                    i <= f@.len(),
                    headers@.len() == i,
                    string_seqs(headers@) == field_names(fields_view(f@)).take(i as int),
                decreases f@.len() - i,
            {
                let ghost before = headers@;
                let name = string_of(chars_of(f[i].0.as_str()).as_slice());
                headers.push(name);
                assert forall|x: int| 0 <= x < i implies #[trigger] headers@[x]@ == field_names(fields_view(f@))[x] by {
                    assert(headers@[x] == before[x]);
                    assert(string_seqs(before)[x] == field_names(fields_view(f@)).take(i as int)[x]);
                }
                assert(string_seqs(headers@) =~= field_names(fields_view(f@)).take(i + 1));
                i = i + 1;
            }
            assert(field_names(fields_view(f@)).take(f@.len() as int) =~= field_names(fields_view(f@)));
        },
        None => {},
    }
    assert(string_seqs(headers@) == match rv[0] {
        Some(f) => field_names(f),
        None => Seq::<Seq<char>>::empty(),
    }) by {
        if rows@[0] is None {
            assert(string_seqs(headers@) =~= Seq::<Seq<char>>::empty());
        }
    }
    if headers.len() == 0 {
        return String::new();
    }
    let ghost hs = string_seqs(headers@);
    let mut out: Vec<char> = Vec::new();
    let mut k: usize = 0;
    while k < headers.len()
        invariant
            hs == string_seqs(headers@),
            k <= headers@.len(),
            out@ == join_with(hs.subrange(0, k as int), ","@),
        decreases headers@.len() - k,
    {
        assert(hs.subrange(0, k + 1).drop_last() =~= hs.subrange(0, k as int));
        if k > 0 {
            push_str(&mut out, ",");
        }
        push_str(&mut out, headers[k].as_str());
        assert(out@ =~= join_with(hs.subrange(0, k + 1), ","@));
        k = k + 1;
    }
    assert(hs.subrange(0, hs.len() as int) =~= hs);
    out.push('\n');
    let ghost head = out@;
    let mut j: usize = 0;
    assert(rv.take(0) =~= Seq::<Option<Seq<(Seq<char>, CellView)>>>::empty());
    while j < rows.len()
        invariant
            rv == rows_view(rows@),
            hs == string_seqs(headers@),
            j <= rows@.len(),
            out@ == head + csv_body(rv.take(j as int), hs),
        decreases rows@.len() - j,
    {
        assert(rv.take(j + 1).drop_last() =~= rv.take(j as int));
        match &rows[j] {
            Some(f) => {
                push_line(&mut out, f, &headers);
                out.push('\n');
            },
            None => {},
        }
        assert(out@ =~= head + csv_body(rv.take(j + 1), hs));
        j = j + 1;
    }
    assert(rv.take(rv.len() as int) =~= rv);
    string_of(out.as_slice())
}

} // verus!
