use vstd::prelude::*;

use crate::error::{DbError, PlanError};
use crate::http::request::{lines_of, spec_lines};
use crate::text::{
    char_vecs, chars_equal, chars_of, eq_ignore_ascii_case, parse_i64, spec_parse_i64, spec_trim,
    split_at_char, split_char, str_eq_ignore_ascii_case, string_of, trim_chars, push_str, str_equal, starts_with,
    chars_starts_with,
};
use crate::types::schema::{Column, ColumnType, ColumnView};
use crate::types::value::{row_view, Value, ValueView};

verus! {

/// How a foreign server is reached.
#[derive(Debug, Clone, Copy, PartialEq, Eq, Structural)]
pub enum FdwWrapperType {
    HttpJson,
    Csv,
    Mock,
}

/// A foreign data server and its options (name, value pairs).
#[derive(Debug, Clone)]
pub struct ForeignServer {
    pub name: String,
    pub wrapper_type: FdwWrapperType,
    pub options: Vec<(String, String)>,
}

/// A table served by a foreign server, with its columns and options.
#[derive(Debug, Clone)]
pub struct ForeignTable {
    pub name: String,
    pub server_name: String,
    pub columns: Vec<Column>,
    pub options: Vec<(String, String)>,
}

/// The position of the last header named `name`.
pub open spec fn header_index(headers: Seq<Seq<char>>, name: Seq<char>) -> Option<int>
    decreases headers.len(),
{
    if headers.len() == 0 {
        None
    } else if headers.last() == name {
        Some(headers.len() - 1)
    } else {
        header_index(headers.drop_last(), name)
    }
}

/// A CSV field read as a value of a column type: an integer (0 when unreadable), a boolean
/// (`true` in any ASCII case or `1`), else text.
pub open spec fn csv_value(ty: ColumnType, field: Seq<char>) -> ValueView {
    match ty {
        ColumnType::Integer => ValueView::Integer(
            match spec_parse_i64(field) {
                Some(i) => i,
                None => 0,
            },
        ),
        ColumnType::Boolean => ValueView::Boolean(eq_ignore_ascii_case(field, "true"@) || field == "1"@),
        _ => ValueView::Text(field),
    }
}

/// The comma-separated fields of a line, each trimmed.
pub open spec fn csv_fields(line: Seq<char>) -> Seq<Seq<char>> {
    split_at_char(line, ',').map_values(|f: Seq<char>| spec_trim(f))
}

/// One CSV line as a row of the columns: each column's field under its header, or null
/// when there is no such header or the line is too short.
pub open spec fn csv_row(headers: Seq<Seq<char>>, fields: Seq<Seq<char>>, cols: Seq<ColumnView>) -> Seq<ValueView> {
    Seq::new(
        cols.len(),
        |j: int|
            match header_index(headers, cols[j].0) {
                Some(i) => if i < fields.len() {
                    csv_value(cols[j].1, fields[i])
                } else {
                    ValueView::Null
                },
                None => ValueView::Null,
            },
    )
}

/// The rows of the lines that are not blank.
pub open spec fn csv_rows(headers: Seq<Seq<char>>, lines: Seq<Seq<char>>, cols: Seq<ColumnView>) -> Seq<Seq<ValueView>>
    decreases lines.len(),
{
    if lines.len() == 0 {
        Seq::empty()
    } else {
        let prev = csv_rows(headers, lines.drop_last(), cols);
        if spec_trim(lines.last()).len() == 0 {
            prev
        } else {
            prev.push(csv_row(headers, csv_fields(lines.last()), cols))
        }
    }
}

/// CSV text as rows of the columns: the first line names the fields.
pub open spec fn spec_csv_to_rows(csv: Seq<char>, cols: Seq<ColumnView>) -> Seq<Seq<ValueView>> {
    let lines = spec_lines(csv);
    if lines.len() == 0 {
        Seq::empty()
    } else {
        csv_rows(csv_fields(lines[0]), lines.drop_first(), cols)
    }
}

/// The views of the columns.
pub open spec fn columns_view(cols: Seq<Column>) -> Seq<ColumnView> {
    Seq::new(cols.len(), |i: int| cols[i]@)
}

/// The views of rows.
pub open spec fn rows_view(rows: Seq<Vec<Value>>) -> Seq<Seq<ValueView>> {
    Seq::new(rows.len(), |i: int| row_view(rows[i]@))
}

fn trimmed_fields(line: &[char]) -> (r: Vec<Vec<char>>)
    ensures
        char_vecs(r@) == csv_fields(line@),
{
    let parts = split_char(line, ',');
    let mut r: Vec<Vec<char>> = Vec::new();
    let mut i: usize = 0;
    while i < parts.len()
        invariant
            parts@.len() == split_at_char(line@, ',').len(),
            forall|j: int| 0 <= j < parts@.len() ==> #[trigger] parts@[j]@ == split_at_char(line@, ',')[j],
            i <= parts@.len(),
            r@.len() == i,
            forall|j: int| 0 <= j < i ==> #[trigger] r@[j]@ == spec_trim(split_at_char(line@, ',')[j]),
        decreases parts@.len() - i,
    {
        r.push(trim_chars(parts[i].as_slice()));
        i = i + 1;
    }
    assert(char_vecs(r@) =~= csv_fields(line@));
    r
}

fn find_header(headers: &Vec<Vec<char>>, name: &[char]) -> (r: Option<usize>)
    ensures
        r matches Some(x) ==> header_index(char_vecs(headers@), name@) == Some(x as int),
        r is None ==> header_index(char_vecs(headers@), name@) is None,
{
    let ghost hs = char_vecs(headers@);
    let mut i = headers.len();
    assert(hs.take(i as int) =~= hs);
    while i > 0
        invariant
            hs == char_vecs(headers@),
            i <= hs.len(),
            header_index(hs, name@) == header_index(hs.take(i as int), name@),
        decreases i,
    {
        assert(hs.take(i as int).last() == headers@[i - 1]@);
        assert(hs.take(i as int).drop_last() =~= hs.take(i - 1));
        if chars_equal(headers[i - 1].as_slice(), name) {
            return Some(i - 1);
        }
        i = i - 1;
    }
    None
}

fn read_csv_value(ty: ColumnType, field: &[char]) -> (v: Value)
    ensures
        v@ == csv_value(ty, field@),
{
    match ty {
        ColumnType::Integer => Value::Integer(
            match parse_i64(field) {
                Some(i) => i,
                None => 0,
            },
        ),
        ColumnType::Boolean => {
            let one = chars_of("1");
            proof {
                reveal_strlit("1");
            }
            let f = string_of(field);
            Value::Boolean(str_eq_ignore_ascii_case(f.as_str(), "true") || chars_equal(field, one.as_slice()))
        },
        _ => Value::Text(string_of(field)),
    }
}

/// Rows read from CSV text: the first line names the fields, blank lines are skipped, and
/// each column takes the field under its name.
pub fn convert_csv_to_rows(csv_content: &str, columns: &[Column]) -> (r: Result<Vec<Vec<Value>>, DbError>)
    ensures
        r matches Ok(rows) && rows_view(rows@) == spec_csv_to_rows(csv_content@, columns_view(columns@)),
{
    let ghost cols = columns_view(columns@);
    let lines = lines_of(csv_content);
    let ghost ls = char_vecs(lines@);
    if lines.len() == 0 {
        let r: Vec<Vec<Value>> = Vec::new();
        assert(rows_view(r@) =~= Seq::<Seq<ValueView>>::empty());
        return Ok(r);
    }
    let headers = trimmed_fields(lines[0].as_slice());
    let ghost hs = char_vecs(headers@);
    let ghost body = ls.drop_first();
    let mut rows: Vec<Vec<Value>> = Vec::new();
    let mut k: usize = 1;
    assert(body.take(0) =~= Seq::<Seq<char>>::empty());
    assert(rows_view(rows@) =~= Seq::<Seq<ValueView>>::empty());
    while k < lines.len()
        invariant
            ls == char_vecs(lines@),
            ls == spec_lines(csv_content@),
            hs == char_vecs(headers@),
            hs == csv_fields(ls[0]),
            body == ls.drop_first(),
            cols == columns_view(columns@),
            1 <= k <= lines@.len(),
            rows_view(rows@) == csv_rows(hs, body.take(k - 1), cols),
        decreases lines@.len() - k,
    {
        assert(body.take(k as int).drop_last() =~= body.take(k - 1));
        assert(body.take(k as int).last() == lines@[k as int]@);
        let line = lines[k].as_slice();
        let t = trim_chars(line);
        if t.len() > 0 {
            let fields = trimmed_fields(line);
            let ghost fs = char_vecs(fields@);
            let mut row: Vec<Value> = Vec::new();
            let mut j: usize = 0;
            while j < columns.len()
                invariant
                    hs == char_vecs(headers@),
                    fs == char_vecs(fields@),
                    cols == columns_view(columns@),
                    j <= columns@.len(),
                    row@.len() == j,
                    forall|x: int| 0 <= x < j ==> #[trigger] row@[x]@ == csv_row(hs, fs, cols)[x],
                decreases columns@.len() - j,
            {
                let name = chars_of(columns[j].name.as_str());
                assert(cols[j as int] == columns@[j as int]@);
                let v = match find_header(&headers, name.as_slice()) {
                    Some(i) => if i < fields.len() {
                        assert(fs[i as int] == fields@[i as int]@);
                        read_csv_value(columns[j].ty, fields[i].as_slice())
                    } else {
                        Value::Null
                    },
                    None => Value::Null,
                };
                let ghost before = row@;
                row.push(v);
                assert(row@[j as int]@ == csv_row(hs, fs, cols)[j as int]);
                assert forall|x: int| 0 <= x < j implies #[trigger] row@[x]@ == csv_row(hs, fs, cols)[x] by {
                    assert(row@[x] == before[x]);
                }
                j = j + 1;
            }
            assert(row_view(row@) =~= csv_row(hs, fs, cols));
            let ghost before = rows@;
            rows.push(row);
            assert(rows_view(rows@) =~= rows_view(before).push(csv_row(hs, fs, cols)));
        }
        k = k + 1;
    }
    assert(body.take(body.len() as int) =~= body);
    Ok(rows)
}


/// The abstract content of options: (name, value) pairs in order.
pub open spec fn options_view(o: Seq<(String, String)>) -> Seq<(Seq<char>, Seq<char>)> {
    Seq::new(o.len(), |i: int| (o[i].0@, o[i].1@))
}

/// The abstract content of a foreign server.
pub struct ForeignServerView {
    pub name: Seq<char>,
    pub wrapper_type: FdwWrapperType,
    pub options: Seq<(Seq<char>, Seq<char>)>,
}

/// The abstract content of a foreign table.
pub struct ForeignTableView {
    pub name: Seq<char>,
    pub server_name: Seq<char>,
    pub columns: Seq<ColumnView>,
    pub options: Seq<(Seq<char>, Seq<char>)>,
}

impl View for ForeignServer {
    type V = ForeignServerView;

    open spec fn view(&self) -> ForeignServerView {
        ForeignServerView { name: self.name@, wrapper_type: self.wrapper_type, options: options_view(self.options@) }
    }
}

impl View for ForeignTable {
    type V = ForeignTableView;

    open spec fn view(&self) -> ForeignTableView {
        ForeignTableView {
            name: self.name@,
            server_name: self.server_name@,
            columns: columns_view(self.columns@),
            options: options_view(self.options@),
        }
    }
}

fn copy_options(o: &Vec<(String, String)>) -> (r: Vec<(String, String)>)
    ensures
        options_view(r@) == options_view(o@),
{
    let mut out: Vec<(String, String)> = Vec::new();
    let mut i: usize = 0;
    while i < o.len()
        invariant
            i <= o@.len(),
            out@.len() == i,
            forall|j: int| 0 <= j < i ==> (#[trigger] out@[j]).0@ == o@[j].0@ && out@[j].1@ == o@[j].1@,
        decreases o@.len() - i,
    {
        out.push((o[i].0.clone(), o[i].1.clone()));
        i = i + 1;
    }
    assert(options_view(out@) =~= options_view(o@));
    out
}

fn copy_columns(c: &Vec<Column>) -> (r: Vec<Column>)
    ensures
        columns_view(r@) == columns_view(c@),
{
    let mut out: Vec<Column> = Vec::new();
    let mut i: usize = 0;
    while i < c.len()
        invariant
            i <= c@.len(),
            out@.len() == i,
            forall|j: int| 0 <= j < i ==> (#[trigger] out@[j])@ == c@[j]@,
        decreases c@.len() - i,
    {
        out.push(Column {
            name: c[i].name.clone(),
            ty: c[i].ty,
            not_null: c[i].not_null,
            is_primary_key: c[i].is_primary_key,
        });
        i = i + 1;
    }
    assert(columns_view(out@) =~= columns_view(c@));
    out
}

impl ForeignServer {
    /// A copy of the server description.
    pub fn copy(&self) -> (r: Self)
        ensures
            r@ == self@,
    {
        ForeignServer { name: self.name.clone(), wrapper_type: self.wrapper_type, options: copy_options(&self.options) }
    }
}

impl ForeignTable {
    /// A copy of the table description.
    pub fn copy(&self) -> (r: Self)
        ensures
            r@ == self@,
    {
        ForeignTable {
            name: self.name.clone(),
            server_name: self.server_name.clone(),
            columns: copy_columns(&self.columns),
            options: copy_options(&self.options),
        }
    }
}

/// The value of the last option named `key`, if any (a later setting overrides an
/// earlier one).
pub open spec fn option_value(o: Seq<(Seq<char>, Seq<char>)>, key: Seq<char>) -> Option<Seq<char>>
    decreases o.len(),
{
    if o.len() == 0 {
        None
    } else if o.last().0 == key {
        Some(o.last().1)
    } else {
        option_value(o.drop_last(), key)
    }
}

/// The value of the last option named `key`.
pub fn get_option(o: &Vec<(String, String)>, key: &str) -> (r: Option<String>)
    ensures
        match option_value(options_view(o@), key@) {
            Some(v) => r matches Some(x) && x@ == v,
            None => r is None,
        },
{
    let ghost ov = options_view(o@);
    let mut i: usize = o.len();
    assert(ov.take(ov.len() as int) =~= ov);
    while i > 0
        invariant
            i <= o@.len(),
            ov == options_view(o@),
            option_value(ov, key@) == option_value(ov.take(i as int), key@),
        decreases i,
    {
        let j = i - 1;
        assert(ov.take(i as int).drop_last() =~= ov.take(j as int));
        assert(ov.take(i as int).last() == (o@[j as int].0@, o@[j as int].1@));
        if str_equal(o[j].0.as_str(), key) {
            return Some(o[j].1.clone());
        }
        i = j;
    }
    assert(ov.take(0) =~= Seq::<(Seq<char>, Seq<char>)>::empty());
    None
}

/// Where the rows of a foreign table come from.
#[derive(Debug)]
pub enum ScanSource {
    /// JSON fetched from this URL.
    Url(String),
    /// CSV read from this file.
    File(String),
    /// JSON given inline.
    Inline(String),
}

/// The abstract content of a scan source: its kind (0 URL, 1 file, 2 inline) and text.
pub open spec fn source_view(s: ScanSource) -> (int, Seq<char>) {
    match s {
        ScanSource::Url(u) => (0, u@),
        ScanSource::File(f) => (1, f@),
        ScanSource::Inline(j) => (2, j@),
    }
}

/// The first of two options that is set, or empty.
pub open spec fn option_or(o: Seq<(Seq<char>, Seq<char>)>, a: Seq<char>, b: Seq<char>, default: Seq<char>) -> Seq<char> {
    match option_value(o, a) {
        Some(v) => v,
        None => match option_value(o, b) {
            Some(v) => v,
            None => default,
        },
    }
}

/// Where a table of `server` is read from: for HTTP JSON, the table's `endpoint` (or
/// `path`) when it is a full URL, else appended to the server's `url` (or `base_url`);
/// for CSV, the table's `filename` (or `path`); for mock data, the table's `data` (or an
/// empty array).
pub open spec fn spec_scan_source(server: ForeignServerView, table: ForeignTableView) -> (int, Seq<char>) {
    match server.wrapper_type {
        FdwWrapperType::HttpJson => {
            let base = option_or(server.options, "url"@, "base_url"@, Seq::empty());
            let endpoint = option_or(table.options, "endpoint"@, "path"@, Seq::empty());
            if starts_with(endpoint, "http://"@) || starts_with(endpoint, "https://"@) {
                (0, endpoint)
            } else {
                (0, base + endpoint)
            }
        },
        FdwWrapperType::Csv => (1, option_or(table.options, "filename"@, "path"@, Seq::empty())),
        FdwWrapperType::Mock => (
            2,
            match option_value(table.options, "data"@) {
                Some(v) => v,
                None => "[]"@,
            },
        ),
    }
}

fn get_option_or(o: &Vec<(String, String)>, a: &str, b: &str, default: &str) -> (r: String)
    ensures
        r@ == option_or(options_view(o@), a@, b@, default@),
{
    match get_option(o, a) {
        Some(v) => v,
        None => match get_option(o, b) {
            Some(v) => v,
            None => String::from_str(default),
        },
    }
}

/// The message for a foreign table that is not registered.
pub open spec fn no_table_message(t: Seq<char>) -> Seq<char> {
    "foreign table '"@ + t + "' not found"@
}

/// The message for a foreign server that is not registered.
pub open spec fn no_server_message(s: Seq<char>) -> Seq<char> {
    "foreign server '"@ + s + "' not found"@
}

/// The message for a table naming a server that does not exist.
pub open spec fn missing_server_message(s: Seq<char>) -> Seq<char> {
    "foreign server '"@ + s + "' does not exist"@
}

fn quoted_message(before: &str, name: &str, after: &str) -> (r: String)
    ensures
        r@ == before@ + name@ + after@,
{
    let mut v: Vec<char> = Vec::new();
    push_str(&mut v, before);
    push_str(&mut v, name);
    push_str(&mut v, after);
    string_of(v.as_slice())
}

/// Whether the descriptions hold an entry named `n`.
pub open spec fn names_server(s: Seq<ForeignServerView>, n: Seq<char>) -> bool {
    exists|i: int| 0 <= i < s.len() && (#[trigger] s[i]).name == n
}

/// Whether the descriptions hold a table named `n`.
pub open spec fn names_table(s: Seq<ForeignTableView>, n: Seq<char>) -> bool {
    exists|i: int| 0 <= i < s.len() && (#[trigger] s[i]).name == n
}

/// The registered foreign servers and tables, each name once.
pub struct FdwManager {
    servers: Vec<ForeignServer>,
    tables: Vec<ForeignTable>,
}

impl FdwManager {
    #[verifier::type_invariant]
    spec fn inv(self) -> bool {
        &&& forall|i: int, j: int|
            0 <= i < j < self.servers@.len() ==> (#[trigger] self.servers@[i]).name@ != (#[trigger] self.servers@[j]).name@
        &&& forall|i: int, j: int|
            0 <= i < j < self.tables@.len() ==> (#[trigger] self.tables@[i]).name@ != (#[trigger] self.tables@[j]).name@
    }

    /// The servers, in the order first registered.
    pub closed spec fn server_list(&self) -> Seq<ForeignServerView> {
        Seq::new(self.servers@.len(), |i: int| self.servers@[i]@)
    }

    /// The tables, in the order first created.
    pub closed spec fn table_list(&self) -> Seq<ForeignTableView> {
        Seq::new(self.tables@.len(), |i: int| self.tables@[i]@)
    }

    /// Nothing registered.
    pub fn new() -> (m: Self)
        ensures
            m.server_list() == Seq::<ForeignServerView>::empty(),
            m.table_list() == Seq::<ForeignTableView>::empty(),
    {
        let m = FdwManager { servers: Vec::new(), tables: Vec::new() };
        assert(m.server_list() =~= Seq::<ForeignServerView>::empty());
        assert(m.table_list() =~= Seq::<ForeignTableView>::empty());
        m
    }

    fn server_pos(&self, name: &str) -> (r: Option<usize>)
        ensures
            r matches Some(i) ==> i < self.server_list().len() && self.server_list()[i as int].name == name@,
            r is None ==> !names_server(self.server_list(), name@),
    {
        let mut i: usize = 0;
        while i < self.servers.len()
            invariant
                i <= self.servers@.len(),
                forall|j: int| 0 <= j < i ==> self.servers@[j].name@ != name@,
            decreases self.servers@.len() - i,
        {
            if str_equal(self.servers[i].name.as_str(), name) {
                return Some(i);
            }
            i = i + 1;
        }
        proof {
            assert forall|j: int| 0 <= j < self.server_list().len() implies (#[trigger] self.server_list()[j]).name
                != name@ by {
                assert(self.server_list()[j] == self.servers@[j]@);
            }
        }
        None
    }

    fn table_pos(&self, name: &str) -> (r: Option<usize>)
        ensures
            r matches Some(i) ==> i < self.table_list().len() && self.table_list()[i as int].name == name@,
            r is None ==> !names_table(self.table_list(), name@),
    {
        let mut i: usize = 0;
        while i < self.tables.len()
            invariant
                i <= self.tables@.len(),
                forall|j: int| 0 <= j < i ==> self.tables@[j].name@ != name@,
            decreases self.tables@.len() - i,
        {
            if str_equal(self.tables[i].name.as_str(), name) {
                return Some(i);
            }
            i = i + 1;
        }
        proof {
            assert forall|j: int| 0 <= j < self.table_list().len() implies (#[trigger] self.table_list()[j]).name
                != name@ by {
                assert(self.table_list()[j] == self.tables@[j]@);
            }
        }
        None
    }

    /// Registers a server, replacing one of the same name.
    pub fn register_server(&mut self, server: ForeignServer) -> (r: Result<(), DbError>)
        ensures
            r is Ok,
            final(self).table_list() == old(self).table_list(),
            names_server(old(self).server_list(), server@.name) ==> exists|i: int|
                0 <= i < old(self).server_list().len() && old(self).server_list()[i].name == server@.name
                    && final(self).server_list() == old(self).server_list().update(i, server@),
            !names_server(old(self).server_list(), server@.name) ==> final(self).server_list() == old(self).server_list().push(server@),
    {
        proof {
            use_type_invariant(&*self);
        }
        let ghost before = self.server_list();
        let ghost sv = server@;
        let pos = self.server_pos(server.name.as_str());
        let mut v: Vec<ForeignServer> = Vec::new();
        std::mem::swap(&mut v, &mut self.servers);
        let ghost old_v = v@;
        match pos {
            Some(i) => {
                v.set(i, server);
                proof {
                    assert forall|a: int, b: int| 0 <= a < b < v@.len() implies (#[trigger] v@[a]).name@
                        != (#[trigger] v@[b]).name@ by {
                        if a != i && b != i {
                            assert(v@[a] == old_v[a] && v@[b] == old_v[b]);
                        } else if a == i {
                            assert(v@[b] == old_v[b]);
                            assert(old_v[b]@ == before[b]);
                            assert(old_v[a]@ == before[a]);
                        } else {
                            assert(v@[a] == old_v[a]);
                            assert(old_v[b]@ == before[b]);
                            assert(old_v[a]@ == before[a]);
                        }
                    }
                }
                self.servers = v;
                assert(self.server_list() =~= before.update(i as int, sv));
            },
            None => {
                v.push(server);
                proof {
                    assert forall|a: int, b: int| 0 <= a < b < v@.len() implies (#[trigger] v@[a]).name@
                        != (#[trigger] v@[b]).name@ by {
                        if b < old_v.len() {
                            assert(v@[a] == old_v[a] && v@[b] == old_v[b]);
                        } else {
                            assert(v@[a] == old_v[a]);
                            assert(old_v[a]@ == before[a]);
                        }
                    }
                }
                self.servers = v;
                assert(self.server_list() =~= before.push(sv));
            },
        }
        Ok(())
    }

    /// The server named `name`, if registered.
    pub fn get_server(&self, name: &str) -> (r: Option<ForeignServer>)
        ensures
            r is Some == names_server(self.server_list(), name@),
            r matches Some(s) ==> exists|i: int|
                0 <= i < self.server_list().len() && self.server_list()[i] == s@ && s@.name == name@,
    {
        match self.server_pos(name) {
            Some(i) => Some(self.servers[i].copy()),
            None => None,
        }
    }

    /// All servers, in the order first registered.
    pub fn list_servers(&self) -> (r: Vec<ForeignServer>)
        ensures
            Seq::new(r@.len(), |i: int| r@[i]@) == self.server_list(),
    {
        let mut out: Vec<ForeignServer> = Vec::new();
        let mut i: usize = 0;
        while i < self.servers.len()
            invariant
                i <= self.servers@.len(),
                out@.len() == i,
                forall|j: int| 0 <= j < i ==> (#[trigger] out@[j])@ == self.servers@[j]@,
            decreases self.servers@.len() - i,
        {
            out.push(self.servers[i].copy());
            i = i + 1;
        }
        assert(Seq::new(out@.len(), |j: int| out@[j]@) =~= self.server_list());
        out
    }

    /// Creates a table on a registered server, replacing one of the same name; refused when
    /// its server is not registered.
    pub fn create_foreign_table(&mut self, table: ForeignTable) -> (r: Result<(), DbError>)
        ensures
            final(self).server_list() == old(self).server_list(),
            !names_server(old(self).server_list(), table@.server_name) ==> (r matches Err(
                DbError::Plan(PlanError::NoSuchTable(m)),
            ) && m@ == missing_server_message(table@.server_name) && final(self).table_list() == old(self).table_list()),
            names_server(old(self).server_list(), table@.server_name) ==> r is Ok && (names_table(
                old(self).table_list(),
                table@.name,
            ) ==> exists|i: int|
                0 <= i < old(self).table_list().len() && old(self).table_list()[i].name == table@.name
                    && final(self).table_list() == old(self).table_list().update(i, table@)) && (!names_table(
                old(self).table_list(),
                table@.name,
            ) ==> final(self).table_list() == old(self).table_list().push(table@)),
    {
        proof {
            use_type_invariant(&*self);
        }
        if self.server_pos(table.server_name.as_str()).is_none() {
            let m = quoted_message("foreign server '", table.server_name.as_str(), "' does not exist");
            return Err(DbError::Plan(PlanError::NoSuchTable(m)));
        }
        let ghost before = self.table_list();
        let ghost tv = table@;
        let pos = self.table_pos(table.name.as_str());
        let mut v: Vec<ForeignTable> = Vec::new();
        std::mem::swap(&mut v, &mut self.tables);
        let ghost old_v = v@;
        match pos {
            Some(i) => {
                v.set(i, table);
                proof {
                    assert forall|a: int, b: int| 0 <= a < b < v@.len() implies (#[trigger] v@[a]).name@
                        != (#[trigger] v@[b]).name@ by {
                        if a != i && b != i {
                            assert(v@[a] == old_v[a] && v@[b] == old_v[b]);
                        } else if a == i {
                            assert(v@[b] == old_v[b]);
                            assert(old_v[b]@ == before[b]);
                            assert(old_v[a]@ == before[a]);
                        } else {
                            assert(v@[a] == old_v[a]);
                            assert(old_v[b]@ == before[b]);
                            assert(old_v[a]@ == before[a]);
                        }
                    }
                }
                self.tables = v;
                assert(self.table_list() =~= before.update(i as int, tv));
            },
            None => {
                v.push(table);
                proof {
                    assert forall|a: int, b: int| 0 <= a < b < v@.len() implies (#[trigger] v@[a]).name@
                        != (#[trigger] v@[b]).name@ by {
                        if b < old_v.len() {
                            assert(v@[a] == old_v[a] && v@[b] == old_v[b]);
                        } else {
                            assert(v@[a] == old_v[a]);
                            assert(old_v[a]@ == before[a]);
                        }
                    }
                }
                self.tables = v;
                assert(self.table_list() =~= before.push(tv));
            },
        }
        Ok(())
    }

    /// The table named `name`, if created.
    pub fn get_foreign_table(&self, name: &str) -> (r: Option<ForeignTable>)
        ensures
            r is Some == names_table(self.table_list(), name@),
            r matches Some(t) ==> exists|i: int|
                0 <= i < self.table_list().len() && self.table_list()[i] == t@ && t@.name == name@,
    {
        match self.table_pos(name) {
            Some(i) => Some(self.tables[i].copy()),
            None => None,
        }
    }

    /// All tables, in the order first created.
    pub fn list_foreign_tables(&self) -> (r: Vec<ForeignTable>)
        ensures
            Seq::new(r@.len(), |i: int| r@[i]@) == self.table_list(),
    {
        let mut out: Vec<ForeignTable> = Vec::new();
        let mut i: usize = 0;
        while i < self.tables.len()
            invariant
                i <= self.tables@.len(),
                out@.len() == i,
                forall|j: int| 0 <= j < i ==> (#[trigger] out@[j])@ == self.tables@[j]@,
            decreases self.tables@.len() - i,
        {
            out.push(self.tables[i].copy());
            i = i + 1;
        }
        assert(Seq::new(out@.len(), |j: int| out@[j]@) =~= self.table_list());
        out
    }

    /// Drops the table named `name`; whether it existed.
    pub fn drop_foreign_table(&mut self, name: &str) -> (r: bool)
        ensures
            final(self).server_list() == old(self).server_list(),
            r == names_table(old(self).table_list(), name@),
            !r ==> final(self).table_list() == old(self).table_list(),
            r ==> exists|i: int|
                0 <= i < old(self).table_list().len() && old(self).table_list()[i].name == name@ && final(self).table_list() == old(self).table_list().remove(i),
    {
        proof {
            use_type_invariant(&*self);
        }
        match self.table_pos(name) {
            Some(i) => {
                let ghost before = self.table_list();
                let mut v: Vec<ForeignTable> = Vec::new();
                std::mem::swap(&mut v, &mut self.tables);
                let ghost old_v = v@;
                let _ = v.remove(i);
                proof {
                    assert forall|a: int, b: int| 0 <= a < b < v@.len() implies (#[trigger] v@[a]).name@
                        != (#[trigger] v@[b]).name@ by {
                        let a2 = if a < i { a } else { a + 1 };
                        let b2 = if b < i { b } else { b + 1 };
                        assert(v@[a] == old_v[a2]);
                        assert(v@[b] == old_v[b2]);
                    }
                }
                self.tables = v;
                assert(self.table_list() =~= before.remove(i as int));
                true
            },
            None => false,
        }
    }

    /// Where the rows of the foreign table `table_name` come from; refused when the table,
    /// or its server, is not registered.
    pub fn scan_source(&self, table_name: &str) -> (r: Result<ScanSource, DbError>)
        ensures
            !names_table(self.table_list(), table_name@) ==> (r matches Err(DbError::Plan(PlanError::NoSuchTable(m)))
                && m@ == no_table_message(table_name@)),
            forall|i: int|
                0 <= i < self.table_list().len() && (#[trigger] self.table_list()[i]).name == table_name@ ==> {
                    let t = self.table_list()[i];
                    &&& !names_server(self.server_list(), t.server_name) ==> (r matches Err(
                        DbError::Plan(PlanError::NoSuchTable(m)),
                    ) && m@ == no_server_message(t.server_name))
                    &&& forall|k: int|
                        0 <= k < self.server_list().len() && (#[trigger] self.server_list()[k]).name == t.server_name
                            ==> (r matches Ok(s) && source_view(s) == spec_scan_source(self.server_list()[k], t))
                },
    {
        proof {
            use_type_invariant(self);
        }
        let ti = match self.table_pos(table_name) {
            Some(i) => i,
            None => {
                let m = quoted_message("foreign table '", table_name, "' not found");
                return Err(DbError::Plan(PlanError::NoSuchTable(m)));
            },
        };
        let table = &self.tables[ti];
        assert(self.table_list()[ti as int] == table@);
        proof {
            assert forall|i: int|
                0 <= i < self.table_list().len() && (#[trigger] self.table_list()[i]).name == table_name@ implies i
                == ti by {
                if i != ti {
                    assert(self.table_list()[i] == self.tables@[i]@);
                    if i < ti {
                        assert(self.tables@[i].name@ != self.tables@[ti as int].name@);
                    } else {
                        assert(self.tables@[ti as int].name@ != self.tables@[i].name@);
                    }
                }
            }
        }
        let si = match self.server_pos(table.server_name.as_str()) {
            Some(i) => i,
            None => {
                let m = quoted_message("foreign server '", table.server_name.as_str(), "' not found");
                return Err(DbError::Plan(PlanError::NoSuchTable(m)));
            },
        };
        let server = &self.servers[si];
        assert(self.server_list()[si as int] == server@);
        proof {
            assert forall|k: int|
                0 <= k < self.server_list().len() && (#[trigger] self.server_list()[k]).name == table@.server_name implies k
                == si by {
                if k != si {
                    assert(self.server_list()[k] == self.servers@[k]@);
                    if k < si {
                        assert(self.servers@[k].name@ != self.servers@[si as int].name@);
                    } else {
                        assert(self.servers@[si as int].name@ != self.servers@[k].name@);
                    }
                }
            }
        }
        proof {
            reveal_strlit("");
        }
        let src = match server.wrapper_type {
            FdwWrapperType::HttpJson => {
                let base = get_option_or(&server.options, "url", "base_url", "");
                let endpoint = get_option_or(&table.options, "endpoint", "path", "");
                let ec = chars_of(endpoint.as_str());
                assert(base@ == option_or(server@.options, "url"@, "base_url"@, Seq::empty()));
                assert(endpoint@ == option_or(table@.options, "endpoint"@, "path"@, Seq::empty()));
                if chars_starts_with(ec.as_slice(), chars_of("http://").as_slice()) || chars_starts_with(
                    ec.as_slice(),
                    chars_of("https://").as_slice(),
                ) {
                    assert(starts_with(endpoint@, "http://"@) || starts_with(endpoint@, "https://"@));
                    ScanSource::Url(endpoint)
                } else {
                    assert(!(starts_with(endpoint@, "http://"@) || starts_with(endpoint@, "https://"@)));
                    let mut v: Vec<char> = Vec::new();
                    push_str(&mut v, base.as_str());
                    push_str(&mut v, endpoint.as_str());
                    ScanSource::Url(string_of(v.as_slice()))
                }
            },
            FdwWrapperType::Csv => {
                let f = get_option_or(&table.options, "filename", "path", "");
                assert(f@ == option_or(table@.options, "filename"@, "path"@, Seq::empty()));
                ScanSource::File(f)
            },
            FdwWrapperType::Mock => {
                let d = match get_option(&table.options, "data") {
                    Some(d) => d,
                    None => String::from_str("[]"),
                };
                ScanSource::Inline(d)
            },
        };
        assert(source_view(src) == spec_scan_source(server@, table@));
        Ok(src)
    }
}

} // verus!
