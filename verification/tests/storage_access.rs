use chocobase::http::object_access::{storage_step, ObjectMeta, StorageAction, StorageRequest};

fn req(method: &str, user: Option<i64>, admin: bool, signed: bool) -> StorageRequest {
    StorageRequest { method: method.into(), user_id: user, is_admin: admin, signed_ok: signed }
}

#[test]
fn reads_need_public_bucket_signature_owner_or_admin() {
    let private_owned = ObjectMeta { bucket_public: false, owner: Some(Some(7)) };
    assert_eq!(storage_step(&req("GET", None, false, false), &private_owned), StorageAction::Refuse(401));
    assert_eq!(storage_step(&req("GET", Some(8), false, false), &private_owned), StorageAction::Refuse(403));
    assert_eq!(storage_step(&req("GET", Some(7), false, false), &private_owned), StorageAction::Serve);
    assert_eq!(storage_step(&req("GET", None, false, true), &private_owned), StorageAction::Serve);
    assert_eq!(storage_step(&req("GET", None, true, false), &private_owned), StorageAction::Serve);
    assert_eq!(storage_step(&req("GET", None, false, false), &ObjectMeta { bucket_public: true, owner: None }), StorageAction::Serve);
}

#[test]
fn writes_and_removals_respect_owners() {
    let private_owned = ObjectMeta { bucket_public: false, owner: Some(Some(7)) };
    assert_eq!(storage_step(&req("POST", None, false, false), &private_owned), StorageAction::Refuse(401));
    assert_eq!(storage_step(&req("POST", Some(8), false, false), &private_owned), StorageAction::Refuse(403));
    assert_eq!(storage_step(&req("POST", Some(7), false, false), &private_owned), StorageAction::Store);
    assert_eq!(storage_step(&req("POST", None, false, false), &ObjectMeta { bucket_public: true, owner: None }), StorageAction::Store);
    assert_eq!(storage_step(&req("DELETE", Some(8), false, false), &private_owned), StorageAction::Refuse(403));
    assert_eq!(storage_step(&req("DELETE", Some(7), false, false), &private_owned), StorageAction::Remove);
    assert_eq!(storage_step(&req("DELETE", None, false, false), &ObjectMeta { bucket_public: true, owner: Some(None) }), StorageAction::Remove);
    assert_eq!(storage_step(&req("DELETE", None, false, false), &ObjectMeta { bucket_public: false, owner: Some(None) }), StorageAction::Refuse(403));
    assert_eq!(storage_step(&req("PUT", Some(7), true, false), &private_owned), StorageAction::MethodNotAllowed);
}
