use vstd::prelude::*;
use vstd::utf8::{
    decode_utf8, encode_utf8, encode_utf8_decode_utf8, encode_utf8_valid_utf8, valid_utf8,
};

use crate::bytes::{append_bytes, push_u16_le, push_u32_le};
use crate::storage::page::{
    le16, le32, lemma_le16_of_bytes, lemma_le32_of_bytes, lemma_u16_bytes_mod, u16_bytes, u32_bytes,
};
use crate::text::string_from_utf8;
use crate::types::schema::{
    Column, ColumnType, ColumnView, IndexSchema, IndexSchemaView, TableSchema, TableSchemaView,
};

verus! {

pub const KIND_TABLE: u8 = 1;

pub const KIND_INDEX: u8 = 2;

pub const KIND_POLICY: u8 = 3;

const TYPE_INTEGER: u8 = 1;

const TYPE_TEXT: u8 = 2;

const TYPE_BOOLEAN: u8 = 3;

const TYPE_JSON: u8 = 4;

/// The tag byte stored for a column type.
pub open spec fn spec_type_tag(ty: ColumnType) -> u8 {
    match ty {
        ColumnType::Integer => 1,
        ColumnType::Text => 2,
        ColumnType::Boolean => 3,
        ColumnType::Json => 4,
    }
}

/// The column type a tag byte stands for, if any.
pub open spec fn spec_type_from_tag(tag: u8) -> Option<ColumnType> {
    if tag == 1 {
        Some(ColumnType::Integer)
    } else if tag == 2 {
        Some(ColumnType::Text)
    } else if tag == 3 {
        Some(ColumnType::Boolean)
    } else if tag == 4 {
        Some(ColumnType::Json)
    } else {
        None
    }
}

/// A length-prefixed string: the low 16 bits of its UTF-8 length, then the UTF-8 bytes.
pub open spec fn string_field(s: Seq<char>) -> Seq<u8> {
    u16_bytes(encode_utf8(s).len() as int) + encode_utf8(s)
}

/// The serialized form of one column.
pub open spec fn column_bytes(c: ColumnView) -> Seq<u8> {
    string_field(c.0) + seq![spec_type_tag(c.1), if c.2 { 1u8 } else { 0u8 }, if c.3 { 1u8 } else { 0u8 }]
}

/// The serialized columns, in order.
pub open spec fn columns_bytes(cs: Seq<ColumnView>) -> Seq<u8>
    decreases cs.len(),
{
    if cs.len() == 0 {
        Seq::empty()
    } else {
        column_bytes(cs[0]) + columns_bytes(cs.drop_first())
    }
}

/// The catalog record of a table schema.
pub open spec fn table_record_bytes(t: TableSchemaView) -> Seq<u8> {
    seq![KIND_TABLE] + string_field(t.name) + u32_bytes(t.root_page as int) + u16_bytes(
        t.columns.len() as int,
    ) + columns_bytes(t.columns) + seq![if t.rls_enabled { 1u8 } else { 0u8 }]
}

/// The catalog record of an index schema.
pub open spec fn index_record_bytes(x: IndexSchemaView) -> Seq<u8> {
    seq![KIND_INDEX] + string_field(x.name) + string_field(x.table) + string_field(x.column)
        + u32_bytes(x.root_page as int)
}

/// Reads a length-prefixed string at `pos`: the string and the position after it.
pub open spec fn parse_string(d: Seq<u8>, pos: int) -> Option<(Seq<char>, int)> {
    if 0 <= pos && pos + 2 <= d.len() && pos + 2 + le16(d, pos) <= d.len() && valid_utf8(
        d.subrange(pos + 2, pos + 2 + le16(d, pos)),
    ) {
        Some((decode_utf8(d.subrange(pos + 2, pos + 2 + le16(d, pos))), pos + 2 + le16(d, pos)))
    } else {
        None
    }
}

/// Reads one column at `pos`.
pub open spec fn parse_column(d: Seq<u8>, pos: int) -> Option<(ColumnView, int)> {
    match parse_string(d, pos) {
        Some((name, p)) => if p + 3 <= d.len() && spec_type_from_tag(d[p]) is Some {
            Some(((name, spec_type_from_tag(d[p]).unwrap(), d[p + 1] != 0, d[p + 2] != 0), p + 3))
        } else {
            None
        },
        None => None,
    }
}

/// Reads `n` columns starting at `pos`.
pub open spec fn parse_columns(d: Seq<u8>, pos: int, n: nat) -> Option<(Seq<ColumnView>, int)>
    decreases n,
{
    if n == 0 {
        Some((Seq::empty(), pos))
    } else {
        match parse_column(d, pos) {
            Some((c, p)) => match parse_columns(d, p, (n - 1) as nat) {
                Some((rest, q)) => Some((seq![c] + rest, q)),
                None => None,
            },
            None => None,
        }
    }
}

/// The table schema a catalog record describes; `None` where decoding cannot proceed.
pub open spec fn parse_table_record(d: Seq<u8>) -> Option<TableSchemaView> {
    if d.len() >= 1 && d[0] == KIND_TABLE {
        match parse_string(d, 1) {
            Some((name, p)) => if p + 6 <= d.len() {
                match parse_columns(d, p + 6, le16(d, p + 4) as nat) {
                    Some((cols, q)) => Some(
                        TableSchemaView {
                            name,
                            columns: cols,
                            root_page: le32(d, p) as u32,
                            rls_enabled: if q < d.len() {
                                d[q] != 0
                            } else {
                                false
                            },
                        },
                    ),
                    None => None,
                }
            } else {
                None
            },
            None => None,
        }
    } else {
        None
    }
}

/// The index schema a catalog record describes; `None` where decoding cannot proceed.
pub open spec fn parse_index_record(d: Seq<u8>) -> Option<IndexSchemaView> {
    if d.len() >= 1 && d[0] == KIND_INDEX {
        match parse_string(d, 1) {
            Some((name, p1)) => match parse_string(d, p1) {
                Some((table, p2)) => match parse_string(d, p2) {
                    Some((column, p3)) => if p3 + 4 <= d.len() {
                        Some(
                            IndexSchemaView {
                                name,
                                table,
                                column,
                                root_page: le32(d, p3) as u32,
                            },
                        )
                    } else {
                        None
                    },
                    None => None,
                },
                None => None,
            },
            None => None,
        }
    } else {
        None
    }
}

/// The kind byte that starts every catalog record.
pub fn record_kind(data: &[u8]) -> (k: u8)
    requires
        data@.len() >= 1,
    ensures
        k == data@[0],
{
    data[0]
}

fn write_string(out: &mut Vec<u8>, s: &str)
    ensures
        final(out)@ == old(out)@ + string_field(s@),
{
    let b = s.as_bytes();
    proof {
        lemma_u16_bytes_mod(b@.len() as int);
    }
    push_u16_le(out, (b.len() % 65536) as u16);
    append_bytes(out, b);
}

fn read_string(data: &[u8], pos: usize) -> (r: (String, usize))
    requires
        parse_string(data@, pos as int) is Some,
    ensures
        parse_string(data@, pos as int) == Some((r.0@, r.1 as int)),
{
    let len = (data[pos] as usize) + (data[pos + 1] as usize) * 256;
    let mut bytes: Vec<u8> = Vec::with_capacity(len);
    let mut i: usize = 0;
    let base = pos + 2;
    let dl = data.len();
    while i < len
        invariant
            dl == data@.len(),
            base == pos + 2,
            base + len <= dl,
            i <= len,
            bytes@ == data@.subrange(pos + 2, pos + 2 + i),
        decreases len - i,
    {
        bytes.push(data[base + i]);
        i = i + 1;
        assert(bytes@ =~= data@.subrange(pos + 2, pos + 2 + i));
    }
    let s = string_from_utf8(bytes);
    match s {
        Some(s) => (s, pos + 2 + len),
        None => {
            assert(false);
            (String::new(), 0)
        },
    }
}

fn type_tag(ty: &ColumnType) -> (t: u8)
    ensures
        t == spec_type_tag(*ty),
{
    match ty {
        ColumnType::Integer => TYPE_INTEGER,
        ColumnType::Text => TYPE_TEXT,
        ColumnType::Boolean => TYPE_BOOLEAN,
        ColumnType::Json => TYPE_JSON,
    }
}

fn type_from_tag(tag: u8) -> (ty: ColumnType)
    requires
        spec_type_from_tag(tag) is Some,
    ensures
        spec_type_from_tag(tag) == Some(ty),
{
    if tag == TYPE_INTEGER {
        ColumnType::Integer
    } else if tag == TYPE_TEXT {
        ColumnType::Text
    } else if tag == TYPE_BOOLEAN {
        ColumnType::Boolean
    } else {
        ColumnType::Json
    }
}

proof fn lemma_columns_bytes_push(cs: Seq<ColumnView>, c: ColumnView)
    ensures
        columns_bytes(cs.push(c)) == columns_bytes(cs) + column_bytes(c),
    decreases cs.len(),
{
    if cs.len() == 0 {
        assert(cs.push(c).drop_first() =~= Seq::<ColumnView>::empty());
        assert(cs.push(c)[0] == c);
        assert(columns_bytes(Seq::<ColumnView>::empty()) =~= Seq::<u8>::empty());
        assert(columns_bytes(cs) =~= Seq::<u8>::empty());
        assert(columns_bytes(cs.push(c)) =~= column_bytes(c) + columns_bytes(Seq::<ColumnView>::empty()));
        assert(columns_bytes(cs.push(c)) =~= columns_bytes(cs) + column_bytes(c));
    } else {
        lemma_columns_bytes_push(cs.drop_first(), c);
        assert(cs.push(c).drop_first() =~= cs.drop_first().push(c));
        assert(columns_bytes(cs.push(c)) =~= columns_bytes(cs) + column_bytes(c));
    }
}

/// Serializes a table schema into its catalog record.
pub fn encode_table_record(schema: &TableSchema) -> (out: Vec<u8>)
    ensures
        out@ == table_record_bytes(schema@),
{
    let mut out: Vec<u8> = Vec::new();
    out.push(KIND_TABLE);
    write_string(&mut out, schema.name.as_str());
    push_u32_le(&mut out, schema.root_page);
    let n = schema.columns.len();
    proof {
        lemma_u16_bytes_mod(n as int);
    }
    push_u16_le(&mut out, (n % 65536) as u16);
    let ghost header = out@;
    assert(header =~= seq![KIND_TABLE] + string_field(schema@.name) + u32_bytes(
        schema.root_page as int,
    ) + u16_bytes(n as int));
    let ghost cols = schema@.columns;
    let mut i: usize = 0;
    while i < n
        invariant
            n == schema.columns@.len(),
            cols == schema@.columns,
            i <= n,
            out@ == header + columns_bytes(cols.take(i as int)),
        decreases n - i,
    {
        let col = &schema.columns[i];
        assert(col@ == cols[i as int]);
        write_string(&mut out, col.name.as_str());
        out.push(type_tag(&col.ty));
        out.push(if col.not_null { 1 } else { 0 });
        out.push(if col.is_primary_key { 1 } else { 0 });
        proof {
            lemma_columns_bytes_push(cols.take(i as int), cols[i as int]);
            assert(cols.take(i as int).push(cols[i as int]) =~= cols.take(i + 1));
        }
        i = i + 1;
        assert(out@ =~= header + columns_bytes(cols.take(i as int)));
    }
    out.push(if schema.rls_enabled { 1 } else { 0 });
    assert(cols.take(n as int) =~= cols);
    assert(out@ =~= table_record_bytes(schema@));
    out
}

/// Serializes an index schema into its catalog record.
pub fn encode_index_record(schema: &IndexSchema) -> (out: Vec<u8>)
    ensures
        out@ == index_record_bytes(schema@),
{
    let mut out: Vec<u8> = Vec::new();
    out.push(KIND_INDEX);
    write_string(&mut out, schema.name.as_str());
    write_string(&mut out, schema.table.as_str());
    write_string(&mut out, schema.column.as_str());
    push_u32_le(&mut out, schema.root_page);
    assert(out@ =~= index_record_bytes(schema@));
    out
}

/// Reads a table schema back from its catalog record.
pub fn decode_table_record(data: &[u8]) -> (t: TableSchema)
    requires
        parse_table_record(data@) is Some,
    ensures
        parse_table_record(data@) == Some(t@),
{
    let ghost d = data@;
    let (name, next) = read_string(data, 1);
    let mut pos = next;
    let root_page = (data[pos] as u32) + (data[pos + 1] as u32) * 256 + (data[pos + 2] as u32)
        * 65536 + (data[pos + 3] as u32) * 16777216;
    pos = pos + 4;
    let num_cols = (data[pos] as usize) + (data[pos + 1] as usize) * 256;
    pos = pos + 2;
    let ghost start = pos as int;
    let mut columns: Vec<Column> = Vec::with_capacity(num_cols);
    let mut i: usize = 0;
    while i < num_cols
        invariant
            d == data@,
            i <= num_cols,
            parse_columns(d, start, num_cols as nat) is Some,
            parse_columns(d, start, num_cols as nat) == match parse_columns(
                d,
                pos as int,
                (num_cols - i) as nat,
            ) {
                Some((rest, q)) => Some((Seq::new(columns@.len(), |j: int| columns@[j]@) + rest, q)),
                None => None::<(Seq<ColumnView>, int)>,
            },
        decreases num_cols - i,
    {
        let (cname, next) = read_string(data, pos);
        let ghost p = next as int;
        let ty = type_from_tag(data[next]);
        let not_null = data[next + 1] != 0;
        let is_primary_key = data[next + 2] != 0;
        let ghost before = Seq::new(columns@.len(), |j: int| columns@[j]@);
        columns.push(Column { name: cname, ty, not_null, is_primary_key });
        pos = next + 3;
        i = i + 1;
        proof {
            let now = Seq::new(columns@.len(), |j: int| columns@[j]@);
            assert(now =~= before.push(columns@[columns@.len() - 1]@));
            match parse_columns(d, pos as int, (num_cols - i) as nat) {
                Some((rest, q)) => {
                    assert(before + (seq![columns@[columns@.len() - 1]@] + rest) =~= now + rest);
                },
                None => {},
            }
        }
    }
    let rls_enabled = if pos < data.len() {
        data[pos] != 0
    } else {
        false
    };
    let t = TableSchema { name, columns, root_page, rls_enabled };
    proof {
        assert(Seq::new(t.columns@.len(), |j: int| t.columns@[j]@) + Seq::<ColumnView>::empty()
            =~= t@.columns);
    }
    t
}

/// Reads an index schema back from its catalog record.
pub fn decode_index_record(data: &[u8]) -> (x: IndexSchema)
    requires
        parse_index_record(data@) is Some,
    ensures
        parse_index_record(data@) == Some(x@),
{
    let (name, next) = read_string(data, 1);
    let (table, next) = read_string(data, next);
    let (column, next) = read_string(data, next);
    let pos = next;
    let root_page = (data[pos] as u32) + (data[pos + 1] as u32) * 256 + (data[pos + 2] as u32)
        * 65536 + (data[pos + 3] as u32) * 16777216;
    IndexSchema { name, table, column, root_page }
}

proof fn lemma_split(d: Seq<u8>, pos: int, a: Seq<u8>, b: Seq<u8>)
    requires
        0 <= pos,
        pos + a.len() + b.len() <= d.len(),
        d.subrange(pos, pos + a.len() + b.len()) == a + b,
    ensures
        d.subrange(pos, pos + a.len()) == a,
        d.subrange(pos + a.len(), pos + a.len() + b.len()) == b,
{
    assert(d.subrange(pos, pos + a.len()) =~= a) by {
        assert forall|j: int| 0 <= j < a.len() implies d.subrange(pos, pos + a.len())[j] == a[j] by {
            assert(d[pos + j] == d.subrange(pos, pos + a.len() + b.len())[j]);
        }
    }
    assert(d.subrange(pos + a.len(), pos + a.len() + b.len()) =~= b) by {
        assert forall|j: int| 0 <= j < b.len() implies d.subrange(
            pos + a.len(),
            pos + a.len() + b.len(),
        )[j] == b[j] by {
            assert(d[pos + a.len() + j] == d.subrange(pos, pos + a.len() + b.len())[a.len() + j]);
        }
    }
}

proof fn lemma_parse_string_at(d: Seq<u8>, pos: int, s: Seq<char>)
    requires
        0 <= pos,
        encode_utf8(s).len() < 65536,
        pos + string_field(s).len() <= d.len(),
        d.subrange(pos, pos + string_field(s).len()) == string_field(s),
    ensures
        parse_string(d, pos) == Some((s, pos + string_field(s).len())),
{
    let e = encode_utf8(s);
    lemma_split(d, pos, u16_bytes(e.len() as int), e);
    lemma_le16_of_bytes(d, pos, e.len() as int);
    encode_utf8_valid_utf8(s);
    encode_utf8_decode_utf8(s);
}

proof fn lemma_type_tag_roundtrip(ty: ColumnType)
    ensures
        spec_type_from_tag(spec_type_tag(ty)) == Some(ty),
{
}

/// Every column name encodes to fewer than 65536 bytes.
pub open spec fn column_names_fit(cs: Seq<ColumnView>) -> bool {
    forall|i: int| 0 <= i < cs.len() ==> #[trigger] encode_utf8(cs[i].0).len() < 65536
}

proof fn lemma_parse_columns_at(d: Seq<u8>, pos: int, cs: Seq<ColumnView>)
    requires
        0 <= pos,
        column_names_fit(cs),
        pos + columns_bytes(cs).len() <= d.len(),
        d.subrange(pos, pos + columns_bytes(cs).len()) == columns_bytes(cs),
    ensures
        parse_columns(d, pos, cs.len()) == Some((cs, pos + columns_bytes(cs).len())),
    decreases cs.len(),
{
    if cs.len() > 0 {
        let c = cs[0];
        let rest = cs.drop_first();
        let cb = column_bytes(c);
        lemma_split(d, pos, cb, columns_bytes(rest));
        let sf = string_field(c.0);
        let tail = seq![spec_type_tag(c.1), if c.2 { 1u8 } else { 0u8 }, if c.3 { 1u8 } else { 0u8 }];
        lemma_split(d, pos, sf, tail);
        assert(encode_utf8(cs[0].0).len() < 65536);
        lemma_parse_string_at(d, pos, c.0);
        let p = pos + sf.len() as int;
        assert(d[p] == d.subrange(p, p + 3)[0]);
        assert(d[p + 1] == d.subrange(p, p + 3)[1]);
        assert(d[p + 2] == d.subrange(p, p + 3)[2]);
        lemma_type_tag_roundtrip(c.1);
        assert(parse_column(d, pos) == Some((c, pos + cb.len())));
        assert(column_names_fit(rest)) by {
            assert forall|i: int| 0 <= i < rest.len() implies #[trigger] encode_utf8(rest[i].0).len()
                < 65536 by {
                assert(rest[i] == cs[i + 1]);
            }
        }
        lemma_parse_columns_at(d, pos + cb.len(), rest);
        assert(seq![c] + rest =~= cs);
    }
}

/// Decoding the catalog record of a table schema gives back the schema, when every
/// name encodes to fewer than 65536 bytes and there are fewer than 65536 columns.
pub proof fn lemma_table_record_roundtrip(t: TableSchemaView)
    requires
        encode_utf8(t.name).len() < 65536,
        column_names_fit(t.columns),
        t.columns.len() < 65536,
    ensures
        parse_table_record(table_record_bytes(t)) == Some(t),
{
    let d = table_record_bytes(t);
    let sf = string_field(t.name);
    let rp = u32_bytes(t.root_page as int);
    let nc = u16_bytes(t.columns.len() as int);
    let cb = columns_bytes(t.columns);
    let fl = seq![if t.rls_enabled { 1u8 } else { 0u8 }];
    assert(d.subrange(1, 1 + sf.len() as int) =~= sf);
    lemma_parse_string_at(d, 1, t.name);
    let p = 1 + sf.len() as int;
    assert(d.subrange(p, p + 4) =~= rp);
    lemma_le32_of_bytes(d, p, t.root_page as int);
    assert(d.subrange(p + 4, p + 6) =~= nc);
    lemma_le16_of_bytes(d, p + 4, t.columns.len() as int);
    assert(d.subrange(p + 6, p + 6 + cb.len() as int) =~= cb);
    lemma_parse_columns_at(d, p + 6, t.columns);
    let q = p + 6 + cb.len() as int;
    assert(d[q] == fl[0]);
}

/// Decoding the catalog record of an index schema gives back the schema, when every
/// name encodes to fewer than 65536 bytes.
pub proof fn lemma_index_record_roundtrip(x: IndexSchemaView)
    requires
        encode_utf8(x.name).len() < 65536,
        encode_utf8(x.table).len() < 65536,
        encode_utf8(x.column).len() < 65536,
    ensures
        parse_index_record(index_record_bytes(x)) == Some(x),
{
    let d = index_record_bytes(x);
    let a = string_field(x.name);
    let b = string_field(x.table);
    let c = string_field(x.column);
    let r = u32_bytes(x.root_page as int);
    assert(d.subrange(1, 1 + a.len() as int) =~= a);
    lemma_parse_string_at(d, 1, x.name);
    let p1 = 1 + a.len() as int;
    assert(d.subrange(p1, p1 + b.len() as int) =~= b);
    lemma_parse_string_at(d, p1, x.table);
    let p2 = p1 + b.len() as int;
    assert(d.subrange(p2, p2 + c.len() as int) =~= c);
    lemma_parse_string_at(d, p2, x.column);
    let p3 = p2 + c.len() as int;
    assert(d.subrange(p3, p3 + 4) =~= r);
    lemma_le32_of_bytes(d, p3, x.root_page as int);
}

} // verus!
