use chocobase::auth::session::ExecutionContext;
use chocobase::control_plane::{ControlPlane, ProjectStatus};
use chocobase::error::{DbError, ExecError, PlanError};
use chocobase::extensions::{get_registry, PgCron, PgCrypto, UuidOssp};
use chocobase::functions::{FunctionMetadata, FunctionRegistry, Invocation};

fn meta(name: &str, runtime: &str, verify_jwt: bool) -> FunctionMetadata {
    FunctionMetadata {
        name: name.into(),
        runtime: runtime.into(),
        entrypoint: "main".into(),
        timeout_ms: 0,
        env: vec![("K".into(), "V".into())],
        verify_jwt,
        created_at: 1,
    }
}

#[test]
fn function_registry_deploys_gets_and_deletes() {
    let mut reg = FunctionRegistry::new();
    assert!(matches!(
        reg.deploy(meta("  ", "sandbox", false), "x".into()),
        Err(DbError::Plan(PlanError::InvalidSchema(_)))
    ));
    reg.deploy(meta("a", "sandbox", false), "one".into()).unwrap();
    reg.deploy(meta("b", "sh", true), "echo hi".into()).unwrap();
    reg.deploy(meta("a", "sandbox", false), "two".into()).unwrap();
    assert_eq!(reg.get("a").unwrap().script, "two");
    assert_eq!(reg.list().len(), 2);
    assert!(reg.delete("a"));
    assert!(!reg.delete("a"));
    assert!(reg.get("a").is_none());
}

#[test]
fn invocation_plan_checks_auth_and_runtime() {
    let mut reg = FunctionRegistry::new();
    reg.deploy(meta("s", "sh", true), "  echo hi  ".into()).unwrap();
    reg.deploy(meta("w", "wasm", false), "".into()).unwrap();
    match reg.prepare_invocation("nope", &ExecutionContext::anonymous()) {
        Err(DbError::Plan(PlanError::NoSuchTable(m))) => assert_eq!(m, "function 'nope' not found"),
        other => panic!("unexpected {:?}", other),
    }
    assert!(matches!(
        reg.prepare_invocation("s", &ExecutionContext::anonymous()),
        Err(DbError::Exec(ExecError::InvalidValue(_)))
    ));
    match reg.prepare_invocation("s", &ExecutionContext::admin()) {
        Ok(Invocation::Subprocess { script, timeout_ms, env }) => {
            assert_eq!(script, "echo hi");
            assert_eq!(timeout_ms, 5000);
            assert_eq!(env, vec![("K".to_string(), "V".to_string())]);
        }
        other => panic!("unexpected {:?}", other),
    }
    match reg.prepare_invocation("w", &ExecutionContext::anonymous()) {
        Ok(Invocation::InProcess { runtime }) => assert_eq!(runtime, "wasm"),
        other => panic!("unexpected {:?}", other),
    }
}

#[test]
fn control_plane_lifecycle() {
    let mut cp = ControlPlane::initial_at(5);
    assert_eq!(cp.list_organizations()[0].id, "org_default");
    assert_eq!(
        cp.create_project_with("missing", "n", "r", &[1; 8], &[2; 8], &[3; 8], 9).unwrap_err(),
        "organization 'missing' not found"
    );
    let org = cp.create_organization_with("Acme", &[0xab; 8], 7);
    assert_eq!(org.id, "org_abababababababab");
    let p = cp
        .create_project_with(&org.id, "web", "eu", &[1; 8], &[2; 8], &[3; 8], 9)
        .unwrap();
    assert_eq!(p.id, "prj_0101010101010101");
    assert_eq!(p.anon_key, "anon_0202020202020202");
    assert_eq!(p.database_path, "prj_0101010101010101.db");
    assert_eq!(cp.list_projects().len(), 2);
    assert_eq!(cp.resolve_project("anon_0202020202020202").unwrap().id, p.id);
    assert_eq!(cp.resolve_project("prj_default").unwrap().name, "Production Workspace");
    assert!(cp.resolve_project("zzz").is_none());
    let paused = cp.pause_project(&p.id).unwrap();
    assert_eq!(paused.status, ProjectStatus::Paused);
    assert_eq!(cp.get_project(&p.id).unwrap().status, ProjectStatus::Paused);
    assert_eq!(cp.resume_project(&p.id).unwrap().status, ProjectStatus::Active);
    assert_eq!(cp.pause_project("nope").unwrap_err(), "project 'nope' not found");
    cp.record_egress(&p.id, 10);
    cp.record_egress(&p.id, 5);
    assert_eq!(cp.get_project(&p.id).unwrap().usage.egress_bytes, 15);
    let g = ControlPlane::global();
    assert_eq!(g.list_projects()[0].usage.total_rows, 450);
    let mut live = ControlPlane::global();
    let o = live.create_organization("Live");
    assert!(o.id.starts_with("org_") && o.id.len() == 20);
    assert!(live.create_project(&o.id, "p", "r").is_ok());
}

#[test]
fn extensions_registry_crypto_and_uuid() {
    let reg = get_registry();
    assert_eq!(reg.len(), 6);
    assert_eq!(reg[0].name, "pgcrypto");
    assert_eq!(reg[5].schema, "cron");
    let d = PgCrypto::digest(b"abc", "SHA256").unwrap();
    assert_eq!(
        d,
        vec![
            0xba, 0x78, 0x16, 0xbf, 0x8f, 0x01, 0xcf, 0xea, 0x41, 0x41, 0x40, 0xde, 0x5d, 0xae, 0x22,
            0x23, 0xb0, 0x03, 0x61, 0xa3, 0x96, 0x17, 0x7a, 0x9c, 0xb4, 0x10, 0xff, 0x61, 0xf2, 0x00,
            0x15, 0xad
        ]
    );
    assert_eq!(PgCrypto::digest(b"abc", "sha512").unwrap().len(), 64);
    assert_eq!(
        PgCrypto::digest(b"abc", "MD5").unwrap_err(),
        "unsupported digest algorithm: md5"
    );
    assert_eq!(PgCrypto::hmac(b"d", b"k", "sha256").unwrap().len(), 32);
    assert_eq!(
        PgCrypto::hmac(b"d", b"k", "sha1").unwrap_err(),
        "unsupported HMAC algorithm: sha1"
    );
    assert_eq!(PgCrypto::gen_salt_from("bf", &[0, 255]), "bf_00ff");
    assert_eq!(PgCrypto::gen_salt("bf").len(), 3 + 32);
    assert_eq!(UuidOssp::uuid_nil(), "00000000-0000-0000-0000-000000000000");
    assert_eq!(
        UuidOssp::uuid_v4_from(&[0xff; 16]),
        "ffffffff-ffff-4fff-bfff-ffffffffffff"
    );
    let v4 = UuidOssp::uuid_generate_v4();
    assert_eq!(v4.len(), 36);
    assert_eq!(&v4[14..15], "4");
}

#[test]
fn cron_schedules_with_increasing_ids() {
    let mut cron = PgCron::global();
    let a = cron.schedule("a", "* * * * *", "SELECT 1");
    let b = cron.schedule("b", "0 * * * *", "SELECT 2");
    assert_eq!((a, b), (1, 2));
    assert_eq!(cron.list_jobs().len(), 2);
    assert!(cron.unschedule(a));
    assert!(!cron.unschedule(a));
    let jobs = cron.list_jobs();
    assert_eq!(jobs.len(), 1);
    assert_eq!(jobs[0].job_name, "b");
    assert!(jobs[0].active);
}
