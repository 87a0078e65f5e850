use vstd::prelude::*;

use crate::text::{
    chars_of, escape_quotes, int_decimal, nat_decimal, push_escaped, push_i64_decimal, push_str, push_u64_decimal,
    string_of,
};
use crate::types::value::{row_view, Value, ValueView};

verus! {

/// One entry of the audit ledger; `metadata` is the JSON text stored with it, if any.
#[derive(Debug)]
pub struct AuditLogEntry {
    pub id: i64,
    pub user_id: Option<i64>,
    pub action: String,
    pub target: String,
    pub ip_address: Option<String>,
    pub metadata: Option<String>,
    pub created_at: u64,
}

/// The abstract content of a ledger entry.
pub struct AuditLogEntryView {
    pub id: i64,
    pub user_id: Option<i64>,
    pub action: Seq<char>,
    pub target: Seq<char>,
    pub ip_address: Option<Seq<char>>,
    pub metadata: Option<Seq<char>>,
    pub created_at: u64,
}

/// The view of an optional string.
pub open spec fn opt_view(o: Option<String>) -> Option<Seq<char>> {
    match o {
        Some(s) => Some(s@),
        None => None,
    }
}

impl View for AuditLogEntry {
    type V = AuditLogEntryView;

    open spec fn view(&self) -> AuditLogEntryView {
        AuditLogEntryView {
            id: self.id,
            user_id: self.user_id,
            action: self.action@,
            target: self.target@,
            ip_address: opt_view(self.ip_address),
            metadata: opt_view(self.metadata),
            created_at: self.created_at,
        }
    }
}

/// A text as a quoted SQL literal.
pub open spec fn quoted(s: Seq<char>) -> Seq<char> {
    "'"@ + escape_quotes(s) + "'"@
}

/// The statement that records an entry: the values in column order, texts quoted with
/// their quotes doubled, absent values as NULL.
pub open spec fn audit_insert_text(
    id: i64,
    uid: Option<i64>,
    action: Seq<char>,
    target: Seq<char>,
    ip: Option<Seq<char>>,
    metadata: Seq<char>,
    now: u64,
) -> Seq<char> {
    "INSERT INTO _audit_logs (id, user_id, action, target, ip_address, metadata, created_at) VALUES ("@
        + int_decimal(id as int) + ", "@ + match uid {
        Some(u) => int_decimal(u as int),
        None => "NULL"@,
    } + ", "@ + quoted(action) + ", "@ + quoted(target) + ", "@ + match ip {
        Some(a) => quoted(a),
        None => "NULL"@,
    } + ", "@ + quoted(metadata) + ", "@ + nat_decimal(now as nat) + ")"@
}

fn push_quoted(out: &mut Vec<char>, s: &str)
    ensures
        final(out)@ == old(out)@ + quoted(s@),
{
    out.push('\'');
    push_escaped(out, chars_of(s).as_slice());
    out.push('\'');
    proof {
        reveal_strlit("'");
    }
    assert(final(out)@ =~= old(out)@ + quoted(s@));
}

/// The statement recording an entry with id `next_id` made at `now` (seconds since the
/// epoch), with `metadata` as JSON text.
pub fn audit_insert_sql(
    next_id: i64,
    user_id: Option<i64>,
    action: &str,
    target: &str,
    ip_address: Option<&str>,
    metadata: &str,
    now: u64,
) -> (r: String)
    ensures
        r@ == audit_insert_text(
            next_id,
            user_id,
            action@,
            target@,
            match ip_address {
                Some(a) => Some(a@),
                None => None,
            },
            metadata@,
            now,
        ),
{
    let mut out: Vec<char> = Vec::new();
    push_str(&mut out, "INSERT INTO _audit_logs (id, user_id, action, target, ip_address, metadata, created_at) VALUES (");
    push_i64_decimal(&mut out, next_id);
    push_str(&mut out, ", ");
    match user_id {
        Some(u) => push_i64_decimal(&mut out, u),
        None => push_str(&mut out, "NULL"),
    }
    push_str(&mut out, ", ");
    push_quoted(&mut out, action);
    push_str(&mut out, ", ");
    push_quoted(&mut out, target);
    push_str(&mut out, ", ");
    match ip_address {
        Some(a) => push_quoted(&mut out, a),
        None => push_str(&mut out, "NULL"),
    }
    push_str(&mut out, ", ");
    push_quoted(&mut out, metadata);
    push_str(&mut out, ", ");
    push_u64_decimal(&mut out, now);
    push_str(&mut out, ")");
    assert(out@ =~= audit_insert_text(
        next_id,
        user_id,
        action@,
        target@,
        match ip_address {
            Some(a) => Some(a@),
            None => None,
        },
        metadata@,
        now,
    ));
    string_of(out.as_slice())
}

/// The id of the next entry: one more than that of the newest entry, or 1 when the ledger
/// is empty or its newest id is not an integer.
pub open spec fn spec_next_audit_id(newest_first: Seq<Seq<ValueView>>) -> int {
    if newest_first.len() > 0 {
        match newest_first[0][0] {
            ValueView::Integer(i) => i + 1,
            _ => 1,
        }
    } else {
        1
    }
}

/// The id of the next entry, from the ids of the ledger listed newest first.
pub fn next_audit_id(newest_first: &Vec<Vec<Value>>) -> (r: i64)
    requires
        newest_first@.len() > 0 ==> newest_first@[0]@.len() > 0,
        spec_next_audit_id(Seq::new(newest_first@.len(), |i: int| row_view(newest_first@[i]@))) <= i64::MAX,
    ensures
        r == spec_next_audit_id(Seq::new(newest_first@.len(), |i: int| row_view(newest_first@[i]@))),
{
    if newest_first.len() > 0 {
        match &newest_first[0][0] {
            Value::Integer(i) => *i + 1,
            _ => 1,
        }
    } else {
        1
    }
}

/// The query listing entries newest first, restricted to an action and to a user when given.
pub open spec fn audit_query_text(action: Option<Seq<char>>, uid: Option<i64>) -> Seq<char> {
    let filter = match (action, uid) {
        (None, None) => Seq::empty(),
        (Some(a), None) => "WHERE action = "@ + quoted(a),
        (None, Some(u)) => "WHERE user_id = "@ + int_decimal(u as int),
        (Some(a), Some(u)) => "WHERE action = "@ + quoted(a) + " AND user_id = "@ + int_decimal(u as int),
    };
    "SELECT id, user_id, action, target, ip_address, metadata, created_at FROM _audit_logs "@ + filter
        + " ORDER BY id DESC"@
}

/// The query listing entries newest first, restricted to `action_filter` and
/// `user_id_filter` when given.
pub fn audit_query_sql(action_filter: Option<&str>, user_id_filter: Option<i64>) -> (r: String)
    ensures
        r@ == audit_query_text(
            match action_filter {
                Some(a) => Some(a@),
                None => None,
            },
            user_id_filter,
        ),
{
    let mut out: Vec<char> = Vec::new();
    push_str(&mut out, "SELECT id, user_id, action, target, ip_address, metadata, created_at FROM _audit_logs ");
    match action_filter {
        Some(a) => {
            push_str(&mut out, "WHERE action = ");
            push_quoted(&mut out, a);
            match user_id_filter {
                Some(u) => {
                    push_str(&mut out, " AND user_id = ");
                    push_i64_decimal(&mut out, u);
                },
                None => {},
            }
        },
        None => match user_id_filter {
            Some(u) => {
                push_str(&mut out, "WHERE user_id = ");
                push_i64_decimal(&mut out, u);
            },
            None => {},
        },
    }
    push_str(&mut out, " ORDER BY id DESC");
    assert(out@ =~= audit_query_text(
        match action_filter {
            Some(a) => Some(a@),
            None => None,
        },
        user_id_filter,
    ));
    string_of(out.as_slice())
}

/// The text of a value, when it is text.
pub open spec fn text_of(v: ValueView) -> Option<Seq<char>> {
    match v {
        ValueView::Text(s) => Some(s),
        _ => None,
    }
}

/// The entry a ledger row holds (id, user, action, target, address, metadata, time), or
/// none when its id is not an integer: a user or time that is not an integer reads as none
/// or 0, an action or target that is not text as empty, metadata is the text of a JSON or
/// text value.
pub open spec fn audit_entry_of(row: Seq<ValueView>) -> Option<AuditLogEntryView> {
    match row[0] {
        ValueView::Integer(id) => Some(
            AuditLogEntryView {
                id,
                user_id: match row[1] {
                    ValueView::Integer(u) => Some(u),
                    _ => None,
                },
                action: match text_of(row[2]) {
                    Some(s) => s,
                    None => Seq::empty(),
                },
                target: match text_of(row[3]) {
                    Some(s) => s,
                    None => Seq::empty(),
                },
                ip_address: text_of(row[4]),
                metadata: match row[5] {
                    ValueView::Json(j) => Some(j),
                    ValueView::Text(j) => Some(j),
                    _ => None,
                },
                created_at: match row[6] {
                    ValueView::Integer(t) => t as u64,
                    _ => 0,
                },
            },
        ),
        _ => None,
    }
}

/// The entries held by the rows, in row order, skipping rows without an integer id.
pub open spec fn audit_entries_of(rows: Seq<Seq<ValueView>>) -> Seq<AuditLogEntryView>
    decreases rows.len(),
{
    if rows.len() == 0 {
        Seq::empty()
    } else {
        let prev = audit_entries_of(rows.drop_last());
        match audit_entry_of(rows.last()) {
            Some(e) => prev.push(e),
            None => prev,
        }
    }
}

fn text_copy(v: &Value) -> (r: Option<String>)
    ensures
        opt_view(r) == text_of(v@),
{
    match v {
        Value::Text(s) => Some(String::from_str(s.as_str())),
        _ => None,
    }
}

fn entry_from_row(row: &Vec<Value>) -> (r: Option<AuditLogEntry>)
    requires
        row@.len() >= 7,
    ensures
        match audit_entry_of(row_view(row@)) {
            Some(e) => r matches Some(x) && x@ == e,
            None => r is None,
        },
{
    let ghost rv = row_view(row@);
    assert(rv[0] == row@[0]@ && rv[1] == row@[1]@ && rv[2] == row@[2]@ && rv[3] == row@[3]@);
    assert(rv[4] == row@[4]@ && rv[5] == row@[5]@ && rv[6] == row@[6]@);
    let id = match &row[0] {
        Value::Integer(i) => *i,
        _ => {
            return None;
        },
    };
    let user_id = match &row[1] {
        Value::Integer(u) => Some(*u),
        _ => None,
    };
    let action = match text_copy(&row[2]) {
        Some(s) => s,
        None => String::new(),
    };
    let target = match text_copy(&row[3]) {
        Some(s) => s,
        None => String::new(),
    };
    let ip_address = text_copy(&row[4]);
    let metadata = match &row[5] {
        Value::Json(j) => Some(String::from_str(j.as_str())),
        Value::Text(j) => Some(String::from_str(j.as_str())),
        _ => None,
    };
    let created_at = match &row[6] {
        Value::Integer(t) => *t as u64,
        _ => 0,
    };
    Some(AuditLogEntry { id, user_id, action, target, ip_address, metadata, created_at })
}

/// The entries held by the first `limit` rows of a ledger query, skipping rows without an
/// integer id.
pub fn audit_entries(rows: &Vec<Vec<Value>>, limit: usize) -> (r: Vec<AuditLogEntry>)
    requires
        forall|i: int| 0 <= i < rows@.len() ==> (#[trigger] rows@[i])@.len() >= 7,
    ensures
        Seq::new(r@.len(), |i: int| r@[i]@) == audit_entries_of(
            Seq::new(rows@.len(), |i: int| row_view(rows@[i]@)).take(
                if limit < rows@.len() {
                    limit as int
                } else {
                    rows@.len() as int
                },
            ),
        ),
{
    let ghost all = Seq::new(rows@.len(), |i: int| row_view(rows@[i]@));
    let n = if limit < rows.len() {
        limit
    } else {
        rows.len()
    };
    let mut out: Vec<AuditLogEntry> = Vec::new();
    let mut i: usize = 0;
    assert(all.take(0) =~= Seq::<Seq<ValueView>>::empty());
    assert(Seq::new(out@.len(), |j: int| out@[j]@) =~= Seq::<AuditLogEntryView>::empty());
    while i < n
        invariant
            n <= rows@.len(),
            i <= n,
            all == Seq::new(rows@.len(), |j: int| row_view(rows@[j]@)),
            forall|j: int| 0 <= j < rows@.len() ==> (#[trigger] rows@[j])@.len() >= 7,
            Seq::new(out@.len(), |j: int| out@[j]@) == audit_entries_of(all.take(i as int)),
        decreases n - i,
    {
        let ghost prev = Seq::new(out@.len(), |j: int| out@[j]@);
        assert(all.take(i + 1).drop_last() =~= all.take(i as int));
        assert(all.take(i + 1).last() == row_view(rows@[i as int]@));
        match entry_from_row(&rows[i]) {
            Some(e) => {
                out.push(e);
                assert(Seq::new(out@.len(), |j: int| out@[j]@) =~= prev.push(out@[out@.len() - 1]@));
            },
            None => {},
        }
        i = i + 1;
    }
    out
}

} // verus!
