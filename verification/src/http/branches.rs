use vstd::prelude::*;

use crate::text::{chars_ends_with, chars_of, chars_starts_with, ends_with, starts_with, str_equal, string_of};

verus! {

/// `s` without the prefix `p`, if it has it (`str::strip_prefix`).
pub open spec fn strip_prefix(s: Seq<char>, p: Seq<char>) -> Option<Seq<char>> {
    if starts_with(s, p) {
        Some(s.subrange(p.len() as int, s.len() as int))
    } else {
        None
    }
}

/// `s` without the suffix `p`, if it has it (`str::strip_suffix`).
pub open spec fn strip_suffix(s: Seq<char>, p: Seq<char>) -> Option<Seq<char>> {
    if ends_with(s, p) {
        Some(s.subrange(0, s.len() - p.len()))
    } else {
        None
    }
}

pub(crate) fn strip_prefix_chars(s: &[char], p: &str) -> (r: Option<Vec<char>>)
    ensures
        match strip_prefix(s@, p@) {
            Some(t) => r matches Some(x) && x@ == t,
            None => r is None,
        },
{
    let pc = chars_of(p);
    if chars_starts_with(s, pc.as_slice()) {
        let mut out: Vec<char> = Vec::new();
        let mut i = pc.len();
        while i < s.len()
            invariant
                pc@.len() <= i <= s@.len(),
                out@ == s@.subrange(pc@.len() as int, i as int),
            decreases s@.len() - i,
        {
            out.push(s[i]);
            i = i + 1;
            assert(out@ =~= s@.subrange(pc@.len() as int, i as int));
        }
        Some(out)
    } else {
        None
    }
}

fn strip_suffix_chars(s: &[char], p: &str) -> (r: Option<Vec<char>>)
    ensures
        match strip_suffix(s@, p@) {
            Some(t) => r matches Some(x) && x@ == t,
            None => r is None,
        },
{
    let pc = chars_of(p);
    if chars_ends_with(s, pc.as_slice()) {
        let end = s.len() - pc.len();
        let mut out: Vec<char> = Vec::new();
        let mut i: usize = 0;
        while i < end
            invariant
                end <= s@.len(),
                i <= end,
                out@ == s@.subrange(0, i as int),
            decreases end - i,
        {
            out.push(s[i]);
            i = i + 1;
            assert(out@ =~= s@.subrange(0, i as int));
        }
        Some(out)
    } else {
        None
    }
}

/// The branch named in a path `/v1/branches/<name><suffix>` or
/// `/admin/branches/<name><suffix>`; a path under the first prefix is not read under the
/// second.
pub open spec fn branch_in_path(path: Seq<char>, suffix: Seq<char>) -> Option<Seq<char>> {
    match strip_prefix(path, "/v1/branches/"@) {
        Some(sub) => strip_suffix(sub, suffix),
        None => match strip_prefix(path, "/admin/branches/"@) {
            Some(sub) => strip_suffix(sub, suffix),
            None => None,
        },
    }
}

fn branch_in_path_exec(path: &[char], suffix: &str) -> (r: Option<String>)
    ensures
        match branch_in_path(path@, suffix@) {
            Some(t) => r matches Some(x) && x@ == t,
            None => r is None,
        },
{
    let sub = match strip_prefix_chars(path, "/v1/branches/") {
        Some(s) => s,
        None => match strip_prefix_chars(path, "/admin/branches/") {
            Some(s) => s,
            None => {
                return None;
            },
        },
    };
    match strip_suffix_chars(sub.as_slice(), suffix) {
        Some(n) => Some(string_of(n.as_slice())),
        None => None,
    }
}

/// What a request to the branch endpoints asks for.
#[derive(Debug, Clone, PartialEq)]
pub enum BranchRoute {
    /// The caller is not signed in.
    Unauthorized,
    /// `GET .../<name>/diff`: the differences of a branch from its source.
    Diff(String),
    /// `GET` otherwise: every branch.
    List,
    /// `POST .../<name>/sql`: a statement run on a branch.
    Sql(String),
    /// `POST .../<name>/merge`: a branch merged back into its source.
    Merge(String),
    /// `POST` otherwise: a new branch named in the body.
    Create,
    /// `DELETE` of the branch named in the path or the query.
    Delete(String),
    /// `DELETE` without a branch name.
    MissingName,
    /// Any other method.
    MethodNotAllowed,
}

/// The content of a route.
pub enum BranchRouteView {
    Unauthorized,
    Diff(Seq<char>),
    List,
    Sql(Seq<char>),
    Merge(Seq<char>),
    Create,
    Delete(Seq<char>),
    MissingName,
    MethodNotAllowed,
}

impl View for BranchRoute {
    type V = BranchRouteView;

    open spec fn view(&self) -> BranchRouteView {
        match self {
            BranchRoute::Unauthorized => BranchRouteView::Unauthorized,
            BranchRoute::Diff(n) => BranchRouteView::Diff(n@),
            BranchRoute::List => BranchRouteView::List,
            BranchRoute::Sql(n) => BranchRouteView::Sql(n@),
            BranchRoute::Merge(n) => BranchRouteView::Merge(n@),
            BranchRoute::Create => BranchRouteView::Create,
            BranchRoute::Delete(n) => BranchRouteView::Delete(n@),
            BranchRoute::MissingName => BranchRouteView::MissingName,
            BranchRoute::MethodNotAllowed => BranchRouteView::MethodNotAllowed,
        }
    }
}

/// The name a `DELETE` targets: the rest of the path under either branches prefix, else
/// the query without a leading `name=`.
pub open spec fn delete_target(path: Seq<char>, query: Seq<char>) -> Seq<char> {
    match strip_prefix(path, "/v1/branches/"@) {
        Some(n) => n,
        None => match strip_prefix(path, "/admin/branches/"@) {
            Some(n) => n,
            None => match strip_prefix(query, "name="@) {
                Some(n) => n,
                None => query,
            },
        },
    }
}

/// How a request to the branch endpoints is routed.
pub open spec fn spec_branch_route(authenticated: bool, method: Seq<char>, path: Seq<char>, query: Seq<char>) -> BranchRouteView {
    if !authenticated {
        BranchRouteView::Unauthorized
    } else if method == "GET"@ {
        match branch_in_path(path, "/diff"@) {
            Some(n) => BranchRouteView::Diff(n),
            None => BranchRouteView::List,
        }
    } else if method == "POST"@ {
        match branch_in_path(path, "/sql"@) {
            Some(n) => BranchRouteView::Sql(n),
            None => match branch_in_path(path, "/merge"@) {
                Some(n) => BranchRouteView::Merge(n),
                None => BranchRouteView::Create,
            },
        }
    } else if method == "DELETE"@ {
        let n = delete_target(path, query);
        if n.len() == 0 {
            BranchRouteView::MissingName
        } else {
            BranchRouteView::Delete(n)
        }
    } else {
        BranchRouteView::MethodNotAllowed
    }
}

/// Routes a request to the branch endpoints, given whether the caller is signed in, the
/// method, the path and the query string.
pub fn branch_route(authenticated: bool, method: &str, path: &str, query: &str) -> (r: BranchRoute)
    ensures
        r@ == spec_branch_route(authenticated, method@, path@, query@),
{
    if !authenticated {
        return BranchRoute::Unauthorized;
    }
    let p = chars_of(path);
    if str_equal(method, "GET") {
        match branch_in_path_exec(p.as_slice(), "/diff") {
            Some(n) => BranchRoute::Diff(n),
            None => BranchRoute::List,
        }
    } else if str_equal(method, "POST") {
        match branch_in_path_exec(p.as_slice(), "/sql") {
            Some(n) => BranchRoute::Sql(n),
            None => match branch_in_path_exec(p.as_slice(), "/merge") {
                Some(n) => BranchRoute::Merge(n),
                None => BranchRoute::Create,
            },
        }
    } else if str_equal(method, "DELETE") {
        let n = match strip_prefix_chars(p.as_slice(), "/v1/branches/") {
            Some(n) => n,
            None => match strip_prefix_chars(p.as_slice(), "/admin/branches/") {
                Some(n) => n,
                None => {
                    let q = chars_of(query);
                    match strip_prefix_chars(q.as_slice(), "name=") {
                        Some(n) => n,
                        None => q,
                    }
                },
            },
        };
        if n.len() == 0 {
            BranchRoute::MissingName
        } else {
            BranchRoute::Delete(string_of(n.as_slice()))
        }
    } else {
        BranchRoute::MethodNotAllowed
    }
}

} // verus!
