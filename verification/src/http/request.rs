use vstd::prelude::*;
use vstd::utf8::encode_scalar;

use crate::text::{
    chars_of, chars_starts_with, eq_ignore_ascii_case, is_white_space, is_whitespace, parse_usize,
    spec_parse_usize, spec_to_lowercase, spec_to_uppercase, spec_trim, split_at_char, split_char,
    split_once, split_once_char, starts_with, str_eq_ignore_ascii_case, string_of, to_lowercase,
    to_uppercase, trim_chars, utf8_width, char_vecs, push_str,
};

verus! {

/// A line without one trailing carriage return.
pub open spec fn strip_cr(l: Seq<char>) -> Seq<char> {
    if l.len() > 0 && l.last() == '\r' {
        l.drop_last()
    } else {
        l
    }
}

/// The lines of a text (`str::lines`): split at each line feed, a carriage return before
/// it dropped, and no empty line after a final line feed.
pub open spec fn spec_lines(s: Seq<char>) -> Seq<Seq<char>> {
    let ps = split_at_char(s, '\n');
    let init = Seq::new((ps.len() - 1) as nat, |i: int| strip_cr(ps[i]));
    if ps.last().len() == 0 {
        init
    } else {
        init.push(ps.last())
    }
}

/// The runs of non-white-space characters of a text (`str::split_whitespace`).
pub open spec fn ws_tokens(s: Seq<char>) -> Seq<Seq<char>>
    decreases s.len(),
{
    if s.len() == 0 {
        Seq::empty()
    } else {
        let prev = ws_tokens(s.drop_last());
        let c = s.last();
        if is_white_space(c) {
            prev
        } else if s.len() >= 2 && !is_white_space(s[s.len() - 2]) {
            prev.update(prev.len() - 1, prev.last().push(c))
        } else {
            prev.push(seq![c])
        }
    }
}

/// The number of leading characters of `s` that take exactly `n` bytes in UTF-8, if a
/// character boundary lies there.
pub open spec fn chars_in_bytes(s: Seq<char>, n: int) -> Option<int>
    decreases s.len(),
{
    if n == 0 {
        Some(0)
    } else if s.len() == 0 || n < 0 {
        None
    } else {
        let w = encode_scalar(s[0] as u32).len() as int;
        match chars_in_bytes(s.drop_first(), n - w) {
            Some(k) => Some(k + 1),
            None => None,
        }
    }
}

/// The headers of a request that the server reads.
#[verifier::ext_equal]
pub struct HeadFields {
    pub auth_token: Option<Seq<char>>,
    pub apikey: Option<Seq<char>>,
    pub project: Option<Seq<char>>,
    pub host: Option<Seq<char>>,
    pub origin: Option<Seq<char>>,
    pub range: Option<Seq<char>>,
    pub prefer: Option<Seq<char>>,
    pub accept: Option<Seq<char>>,
    pub ws_upgrade: bool,
    pub ws_key: Option<Seq<char>>,
    pub content_length: usize,
}

/// No headers read yet.
pub open spec fn no_fields() -> HeadFields {
    HeadFields {
        auth_token: None,
        apikey: None,
        project: None,
        host: None,
        origin: None,
        range: None,
        prefer: None,
        accept: None,
        ws_upgrade: false,
        ws_key: None,
        content_length: 0,
    }
}

/// Reading one header line `name: value` (both trimmed, the name in any ASCII case); a
/// later header replaces an earlier one. A bearer token is what follows the first seven
/// bytes of the value, trimmed; when they do not end at a character boundary the line
/// cannot be read (`None`).
pub open spec fn read_header(f: HeadFields, line: Seq<char>) -> Option<HeadFields> {
    match split_once(line, ':') {
        None => Some(f),
        Some((k0, v0)) => {
            let k = spec_trim(k0);
            let v = spec_trim(v0);
            if eq_ignore_ascii_case(k, "authorization"@) {
                if starts_with(spec_to_lowercase(v), "bearer "@) {
                    match chars_in_bytes(v, 7) {
                        Some(c) => Some(HeadFields { auth_token: Some(spec_trim(v.skip(c))), ..f }),
                        None => None,
                    }
                } else {
                    Some(f)
                }
            } else if eq_ignore_ascii_case(k, "apikey"@) {
                Some(HeadFields { apikey: Some(v), ..f })
            } else if eq_ignore_ascii_case(k, "x-project-id"@) || eq_ignore_ascii_case(k, "x-project-ref"@) {
                Some(HeadFields { project: Some(v), ..f })
            } else if eq_ignore_ascii_case(k, "host"@) {
                Some(HeadFields { host: Some(v), ..f })
            } else if eq_ignore_ascii_case(k, "origin"@) {
                Some(HeadFields { origin: Some(v), ..f })
            } else if eq_ignore_ascii_case(k, "range"@) {
                Some(HeadFields { range: Some(v), ..f })
            } else if eq_ignore_ascii_case(k, "prefer"@) {
                Some(HeadFields { prefer: Some(v), ..f })
            } else if eq_ignore_ascii_case(k, "accept"@) {
                Some(HeadFields { accept: Some(v), ..f })
            } else if eq_ignore_ascii_case(k, "upgrade"@) && eq_ignore_ascii_case(v, "websocket"@) {
                Some(HeadFields { ws_upgrade: true, ..f })
            } else if eq_ignore_ascii_case(k, "sec-websocket-key"@) {
                Some(HeadFields { ws_key: Some(v), ..f })
            } else if eq_ignore_ascii_case(k, "content-length"@) {
                Some(
                    HeadFields {
                        content_length: match spec_parse_usize(v) {
                            Some(n) => n,
                            None => 0,
                        },
                        ..f
                    },
                )
            } else {
                Some(f)
            }
        },
    }
}

/// Reading the header lines in order.
pub open spec fn read_headers(lines: Seq<Seq<char>>) -> Option<HeadFields>
    decreases lines.len(),
{
    if lines.len() == 0 {
        Some(no_fields())
    } else {
        match read_headers(lines.drop_last()) {
            Some(f) => read_header(f, lines.last()),
            None => None,
        }
    }
}

/// The parts of a request head: the method in upper case (`GET` when missing), the target
/// (`/` when missing) and the headers read.
pub struct HeadView {
    pub method: Seq<char>,
    pub target: Seq<char>,
    pub fields: HeadFields,
}

/// Reading a request head (the text before the blank line): its first line gives the
/// method and target, the other lines the headers; none without a first line or when a
/// header line cannot be read.
pub open spec fn spec_request_head(head: Seq<char>) -> Option<HeadView> {
    let lines = spec_lines(head);
    if lines.len() == 0 {
        None
    } else {
        let parts = ws_tokens(lines[0]);
        let method = spec_to_uppercase(if parts.len() > 0 { parts[0] } else { "GET"@ });
        let target = if parts.len() > 1 { parts[1] } else { "/"@ };
        match read_headers(lines.drop_first()) {
            Some(f) => Some(HeadView { method, target, fields: f }),
            None => None,
        }
    }
}

/// What the server reads from a request head.
#[derive(Debug, Clone)]
pub struct RequestHead {
    pub method: String,
    pub full_path: String,
    pub auth_token: Option<String>,
    pub apikey_header: Option<String>,
    pub project_header: Option<String>,
    pub host_header: Option<String>,
    pub origin_header: Option<String>,
    pub range_header: Option<String>,
    pub prefer_header: Option<String>,
    pub accept_header: Option<String>,
    pub ws_upgrade: bool,
    pub ws_key: Option<String>,
    pub content_length: usize,
}

/// The text of an optional string.
pub open spec fn opt_view(o: Option<String>) -> Option<Seq<char>> {
    match o {
        Some(s) => Some(s@),
        None => None,
    }
}

impl RequestHead {
    /// The headers read.
    pub open spec fn fields(&self) -> HeadFields {
        HeadFields {
            auth_token: opt_view(self.auth_token),
            apikey: opt_view(self.apikey_header),
            project: opt_view(self.project_header),
            host: opt_view(self.host_header),
            origin: opt_view(self.origin_header),
            range: opt_view(self.range_header),
            prefer: opt_view(self.prefer_header),
            accept: opt_view(self.accept_header),
            ws_upgrade: self.ws_upgrade,
            ws_key: opt_view(self.ws_key),
            content_length: self.content_length,
        }
    }
}

pub(crate) fn lines_of(s: &str) -> (r: Vec<Vec<char>>)
    ensures
        char_vecs(r@) == spec_lines(s@),
{
    let ps = split_char(chars_of(s).as_slice(), '\n');
    let ghost sp = split_at_char(s@, '\n');
    proof {
        crate::text::lemma_split_at_char_nonempty(s@, '\n');
    }
    let n = ps.len();
    let mut r: Vec<Vec<char>> = Vec::new();
    let mut i: usize = 0;
    while i + 1 < n
        invariant
            n == ps@.len(),
            n == sp.len(),
            n >= 1,
            sp == split_at_char(s@, '\n'),
            forall|j: int| 0 <= j < n ==> #[trigger] ps@[j]@ == sp[j],
            i + 1 <= n,
            r@.len() == i,
            char_vecs(r@) == Seq::new(i as nat, |j: int| strip_cr(sp[j])),
        decreases n - i,
    {
        let p = &ps[i];
        let mut l: Vec<char> = Vec::new();
        let mut k: usize = 0;
        let end = if p.len() > 0 && p[p.len() - 1] == '\r' {
            p.len() - 1
        } else {
            p.len()
        };
        while k < end
            invariant
                end <= p@.len(),
                k <= end,
                l@ == p@.subrange(0, k as int),
            decreases end - k,
        {
            l.push(p[k]);
            k = k + 1;
            assert(l@ =~= p@.subrange(0, k as int));
        }
        assert(l@ =~= strip_cr(sp[i as int]));
        let ghost before = r@;
        r.push(l);
        assert forall|j: int| 0 <= j < i implies #[trigger] r@[j]@ == strip_cr(sp[j]) by {
            assert(r@[j] == before[j]);
            assert(char_vecs(before)[j] == strip_cr(sp[j]));
        }
        assert(char_vecs(r@) =~= Seq::new((i + 1) as nat, |j: int| strip_cr(sp[j])));
        i = i + 1;
    }
    let last = &ps[n - 1];
    if last.len() > 0 {
        let mut l: Vec<char> = Vec::new();
        let mut k: usize = 0;
        while k < last.len()
            invariant
                k <= last@.len(),
                l@ == last@.subrange(0, k as int),
            decreases last@.len() - k,
        {
            l.push(last[k]);
            k = k + 1;
            assert(l@ =~= last@.subrange(0, k as int));
        }
        assert(l@ =~= sp.last());
        let ghost before = r@;
        r.push(l);
        assert(char_vecs(r@) =~= char_vecs(before).push(sp.last()));
    }
    r
}

pub(crate) fn tokens_of(s: &[char]) -> (r: Vec<Vec<char>>)
    ensures
        char_vecs(r@) == ws_tokens(s@),
{
    let mut r: Vec<Vec<char>> = Vec::new();
    let mut i: usize = 0;
    assert(s@.take(0) =~= Seq::<char>::empty());
    while i < s.len()
        invariant
            i <= s@.len(),
            char_vecs(r@) == ws_tokens(s@.take(i as int)),
            i > 0 && !is_white_space(s@[i - 1]) ==> r@.len() > 0,
        decreases s@.len() - i,
    {
        let c = s[i];
        let ghost t = s@.take(i + 1);
        assert(t.drop_last() =~= s@.take(i as int));
        assert(t.last() == c);
        if is_whitespace(c) {
        } else if i > 0 && !is_whitespace(s[i - 1]) {
            assert(t[t.len() - 2] == s@[i - 1]);
            let ghost before = char_vecs(r@);
            let last = r.len() - 1;
            let mut tok = r.pop().unwrap();
            tok.push(c);
            r.push(tok);
            assert(char_vecs(r@) =~= before.update(before.len() - 1, before.last().push(c)));
        } else {
            if i > 0 {
                assert(t[t.len() - 2] == s@[i - 1]);
            }
            let mut tok: Vec<char> = Vec::new();
            tok.push(c);
            let ghost before = char_vecs(r@);
            r.push(tok);
            assert(char_vecs(r@) =~= before.push(seq![c]));
        }
        i = i + 1;
    }
    assert(s@.take(s@.len() as int) =~= s@);
    r
}

fn chars_for_bytes(s: &[char], n: usize) -> (r: Option<usize>)
    requires
        n <= 64,
    ensures
        r matches Some(k) ==> chars_in_bytes(s@, n as int) == Some(k as int) && k <= s@.len(),
        r is None ==> chars_in_bytes(s@, n as int) is None,
{
    let mut acc: usize = 0;
    let mut k: usize = 0;
    assert(s@.skip(0) =~= s@);
    while acc < n && k < s.len()
        invariant
            n <= 64,
            acc <= n + 4,
            k <= s@.len(),
            chars_in_bytes(s@, n as int) == match chars_in_bytes(s@.skip(k as int), n - acc) {
                Some(j) => Some(j + k),
                None => None,
            },
        decreases s@.len() - k,
    {
        let w = utf8_width(s[k]);
        assert(s@.skip(k as int)[0] == s@[k as int]);
        assert(s@.skip(k as int).drop_first() =~= s@.skip(k + 1));
        acc = acc + w;
        k = k + 1;
    }
    if acc == n {
        Some(k)
    } else {
        None
    }
}

fn copy_opt(v: &[char]) -> (r: Option<String>)
    ensures
        opt_view(r) == Some(v@),
{
    Some(string_of(v))
}

fn read_header_line(h: &mut RequestHead, line: &[char]) -> (ok: bool)
    ensures
        final(h).method == old(h).method,
        final(h).full_path == old(h).full_path,
        match read_header(old(h).fields(), line@) {
            Some(f) => ok && final(h).fields() == f,
            None => !ok,
        },
{
    let (k0, v0) = match split_once_char(line, ':') {
        Some(kv) => kv,
        None => {
            return true;
        },
    };
    let ks = string_of(trim_chars(k0.as_slice()).as_slice());
    let vc = trim_chars(v0.as_slice());
    let vs = string_of(vc.as_slice());
    let k = ks.as_str();
    let v = vs.as_str();
    assert(split_once(line@, ':') == Some((k0@, v0@)));
    if str_eq_ignore_ascii_case(k, "authorization") {
        let lower = chars_of(to_lowercase(v).as_str());
        let bearer = chars_of("bearer ");
        if chars_starts_with(lower.as_slice(), bearer.as_slice()) {
            match chars_for_bytes(vc.as_slice(), 7) {
                Some(c) => {
                    let rest = vc.as_slice().split_at(c).1;
                    assert(rest@ =~= vc@.skip(c as int));
                    h.auth_token = copy_opt(trim_chars(rest).as_slice());
                },
                None => {
                    return false;
                },
            }
        }
    } else if str_eq_ignore_ascii_case(k, "apikey") {
        h.apikey_header = copy_opt(vc.as_slice());
    } else if str_eq_ignore_ascii_case(k, "x-project-id") || str_eq_ignore_ascii_case(k, "x-project-ref") {
        h.project_header = copy_opt(vc.as_slice());
    } else if str_eq_ignore_ascii_case(k, "host") {
        h.host_header = copy_opt(vc.as_slice());
    } else if str_eq_ignore_ascii_case(k, "origin") {
        h.origin_header = copy_opt(vc.as_slice());
    } else if str_eq_ignore_ascii_case(k, "range") {
        h.range_header = copy_opt(vc.as_slice());
    } else if str_eq_ignore_ascii_case(k, "prefer") {
        h.prefer_header = copy_opt(vc.as_slice());
    } else if str_eq_ignore_ascii_case(k, "accept") {
        h.accept_header = copy_opt(vc.as_slice());
    } else if str_eq_ignore_ascii_case(k, "upgrade") && str_eq_ignore_ascii_case(v, "websocket") {
        h.ws_upgrade = true;
    } else if str_eq_ignore_ascii_case(k, "sec-websocket-key") {
        h.ws_key = copy_opt(vc.as_slice());
    } else if str_eq_ignore_ascii_case(k, "content-length") {
        h.content_length = match parse_usize(v) {
            Some(n) => n,
            None => 0,
        };
    }
    true
}

/// Reads a request head: the text of a request before its blank line.
pub fn parse_request_head(head: &str) -> (r: Option<RequestHead>)
    ensures
        match spec_request_head(head@) {
            Some(v) => r matches Some(h) && h.method@ == v.method && h.full_path@ == v.target && h.fields()
                == v.fields,
            None => r is None,
        },
{
    let lines = lines_of(head);
    let ghost ls = char_vecs(lines@);
    if lines.len() == 0 {
        return None;
    }
    let parts = tokens_of(lines[0].as_slice());
    let m = if parts.len() > 0 {
        string_of(parts[0].as_slice())
    } else {
        String::from_str("GET")
    };
    proof {
        reveal_strlit("GET");
        reveal_strlit("/");
    }
    let method = to_uppercase(m.as_str());
    let full_path = if parts.len() > 1 {
        string_of(parts[1].as_slice())
    } else {
        String::from_str("/")
    };
    let mut h = RequestHead {
        method,
        full_path,
        auth_token: None,
        apikey_header: None,
        project_header: None,
        host_header: None,
        origin_header: None,
        range_header: None,
        prefer_header: None,
        accept_header: None,
        ws_upgrade: false,
        ws_key: None,
        content_length: 0,
    };
    let ghost rest = ls.drop_first();
    let mut i: usize = 1;
    assert(rest.take(0) =~= Seq::<Seq<char>>::empty());
    while i < lines.len()
        invariant
            ls == char_vecs(lines@),
            ls == spec_lines(head@),
            rest == ls.drop_first(),
            1 <= i <= lines@.len(),
            read_headers(rest.take(i - 1)) == Some(h.fields()),
            h.method@ == spec_to_uppercase(if char_vecs(parts@).len() > 0 { char_vecs(parts@)[0] } else { "GET"@ }),
            h.full_path@ == (if char_vecs(parts@).len() > 1 { char_vecs(parts@)[1] } else { "/"@ }),
        decreases lines@.len() - i,
    {
        assert(rest.take(i as int).drop_last() =~= rest.take(i - 1));
        assert(rest.take(i as int).last() == lines@[i as int]@);
        if !read_header_line(&mut h, lines[i].as_slice()) {
            proof {
                lemma_read_headers_stuck(rest, i as int);
            }
            return None;
        }
        i = i + 1;
    }
    assert(rest.take(rest.len() as int) =~= rest);
    Some(h)
}

/// Once a header line cannot be read, neither can the lines that include it.
proof fn lemma_read_headers_stuck(ls: Seq<Seq<char>>, i: int)
    requires
        1 <= i <= ls.len(),
        read_headers(ls.take(i)) is None,
    ensures
        read_headers(ls) is None,
    decreases ls.len() - i,
{
    if i < ls.len() {
        assert(ls.take(i + 1).drop_last() =~= ls.take(i));
        lemma_read_headers_stuck(ls, i + 1);
    } else {
        assert(ls.take(i) =~= ls);
    }
}

/// The largest request body accepted, in bytes.
pub const MAX_PAYLOAD_BYTES: usize = 10485760;

/// A request target split into its path and query string at the first `?` (an empty
/// query without one).
pub open spec fn spec_split_target(t: Seq<char>) -> (Seq<char>, Seq<char>) {
    match split_once(t, '?') {
        Some((p, q)) => (p, q),
        None => (t, Seq::empty()),
    }
}

/// Splits a request target into its path and query string.
pub fn split_target(target: &str) -> (r: (String, String))
    ensures
        r.0@ == spec_split_target(target@).0,
        r.1@ == spec_split_target(target@).1,
{
    let t = chars_of(target);
    match split_once_char(t.as_slice(), '?') {
        Some((p, q)) => (string_of(p.as_slice()), string_of(q.as_slice())),
        None => (string_of(t.as_slice()), String::new()),
    }
}

/// The key requests are counted under for rate limiting: `token:` and the bearer token,
/// else `ip:` and the peer's address.
pub open spec fn spec_rate_limit_key(token: Option<Seq<char>>, peer: Seq<char>) -> Seq<char> {
    match token {
        Some(t) => "token:"@ + t,
        None => "ip:"@ + peer,
    }
}

/// The key requests are counted under for rate limiting.
pub fn rate_limit_key(token: Option<&str>, peer: &str) -> (r: String)
    ensures
        r@ == spec_rate_limit_key(
            match token {
                Some(t) => Some(t@),
                None => None,
            },
            peer@,
        ),
{
    let mut out: Vec<char> = Vec::new();
    match token {
        Some(t) => {
            push_str(&mut out, "token:");
            push_str(&mut out, t);
        },
        None => {
            push_str(&mut out, "ip:");
            push_str(&mut out, peer);
        },
    }
    string_of(out.as_slice())
}

} // verus!
