use vstd::prelude::*;

use crate::text::str_equal;

verus! {

/// A request on a stored object: its method and who makes it; `signed_ok` tells whether
/// it carries a valid download signature.
#[derive(Debug)]
pub struct StorageRequest {
    pub method: String,
    pub user_id: Option<i64>,
    pub is_admin: bool,
    pub signed_ok: bool,
}

/// What is known of the object and its bucket: whether the bucket is public, and the
/// object's recorded owner (`None` when no object is recorded, `Some(None)` when it has no
/// owner).
#[derive(Debug, Clone, Copy)]
pub struct ObjectMeta {
    pub bucket_public: bool,
    pub owner: Option<Option<i64>>,
}

/// What to do with a request on an object.
#[derive(Debug, Clone, Copy, PartialEq, Eq, Structural)]
pub enum StorageAction {
    /// Send the object.
    Serve,
    /// Store the body as the object.
    Store,
    /// Remove the object.
    Remove,
    /// Refuse: 401 (not signed in) or 403 (not allowed).
    Refuse(u16),
    /// The method is not supported (405).
    MethodNotAllowed,
}

/// Whether the caller is the object's recorded owner.
pub open spec fn is_owner(meta: ObjectMeta, user: Option<i64>) -> bool {
    meta.owner matches Some(Some(o)) && user == Some(o)
}

/// The decision on an object request: a read is allowed on a public bucket, to the admin,
/// with a valid signature or to the owner, and otherwise refused (401 without a user, 403
/// with one); a write into a private bucket needs a user or the admin (401), and may not
/// replace an object another user owns (403); a removal is allowed to the admin, the owner
/// and, for an object without owner, on a public bucket, and is otherwise refused (403).
pub open spec fn spec_storage_step(
    method: Seq<char>,
    user: Option<i64>,
    is_admin: bool,
    signed_ok: bool,
    meta: ObjectMeta,
) -> StorageAction {
    if method == "GET"@ {
        if !meta.bucket_public && !is_admin && !signed_ok && !is_owner(meta, user) {
            StorageAction::Refuse(if user is None { 401 } else { 403 })
        } else {
            StorageAction::Serve
        }
    } else if method == "POST"@ {
        if !meta.bucket_public && user is None && !is_admin {
            StorageAction::Refuse(401)
        } else if meta.owner matches Some(Some(o)) && !is_admin && user != Some(o) {
            StorageAction::Refuse(403)
        } else {
            StorageAction::Store
        }
    } else if method == "DELETE"@ {
        let owner_ok = is_owner(meta, user) || (meta.owner == Some(None::<i64>) && meta.bucket_public);
        if !is_admin && !owner_ok {
            StorageAction::Refuse(403)
        } else {
            StorageAction::Remove
        }
    } else {
        StorageAction::MethodNotAllowed
    }
}

/// The decision on a request on an object.
pub fn storage_step(req: &StorageRequest, meta: &ObjectMeta) -> (r: StorageAction)
    ensures
        r == spec_storage_step(req.method@, req.user_id, req.is_admin, req.signed_ok, *meta),
{
    let owner = match meta.owner {
        Some(Some(o)) => match req.user_id {
            Some(u) => u == o,
            None => false,
        },
        _ => false,
    };
    if str_equal(req.method.as_str(), "GET") {
        if !meta.bucket_public && !req.is_admin && !req.signed_ok && !owner {
            StorageAction::Refuse(if req.user_id.is_none() { 401 } else { 403 })
        } else {
            StorageAction::Serve
        }
    } else if str_equal(req.method.as_str(), "POST") {
        if !meta.bucket_public && req.user_id.is_none() && !req.is_admin {
            return StorageAction::Refuse(401);
        }
        match meta.owner {
            Some(Some(o)) => {
                let same = match req.user_id {
                    Some(u) => u == o,
                    None => false,
                };
                if !req.is_admin && !same {
                    StorageAction::Refuse(403)
                } else {
                    StorageAction::Store
                }
            },
            _ => StorageAction::Store,
        }
    } else if str_equal(req.method.as_str(), "DELETE") {
        let unowned_public = match meta.owner {
            Some(None) => meta.bucket_public,
            _ => false,
        };
        if !req.is_admin && !(owner || unowned_public) {
            StorageAction::Refuse(403)
        } else {
            StorageAction::Remove
        }
    } else {
        StorageAction::MethodNotAllowed
    }
}

} // verus!
