use vstd::prelude::*;

use crate::assoc::{assoc_map, has_key, keys_distinct, lemma_assoc_at, lemma_assoc_push, lemma_assoc_remove};
use crate::crypto::{
    fill_random, hex_bytes, hmac_sha256, hmac_sha256_bytes, push_hex_bytes, sha256, sha256_bytes,
    sha512, sha512_bytes,
};
use crate::functions::lemma_assoc_len;
use crate::encoding::{b64url_decode, b64url_encode, base64_url_decode, base64_url_encode};
use crate::text::{
    chars_equal, chars_of, push_chars, push_str, spec_to_lowercase, spec_to_uppercase, spec_trim,
    split_at_char, split_char, string_of, to_lowercase, to_uppercase, trim_chars,
};
use vstd::utf8::encode_utf8;

verus! {

/// An extension known to the catalog.
#[derive(Debug, Clone)]
pub struct ExtensionInfo {
    pub name: String,
    pub default_version: String,
    pub installed_version: Option<String>,
    pub comment: String,
    pub schema: String,
}

/// The abstract content of an extension entry: name, default version, installed version,
/// comment, schema.
pub type ExtensionView = (Seq<char>, Seq<char>, Option<Seq<char>>, Seq<char>, Seq<char>);

/// The view of an extension entry.
pub open spec fn extension_view(e: ExtensionInfo) -> ExtensionView {
    (
        e.name@,
        e.default_version@,
        match e.installed_version {
            Some(v) => Some(v@),
            None => None,
        },
        e.comment@,
        e.schema@,
    )
}

/// The extensions the catalog starts with, installed at their default versions.
pub open spec fn default_extensions() -> Seq<ExtensionView> {
    seq![
        ("pgcrypto"@, "1.3"@, Some("1.3"@), "cryptographic functions"@, "public"@),
        ("pgjwt"@, "0.1.1"@, Some("0.1.1"@), "JSON Web Token API for PostgreSQL"@, "public"@),
        ("uuid-ossp"@, "1.1"@, Some("1.1"@), "generate universally unique identifiers (UUIDs)"@, "public"@),
        ("pgvector"@, "0.5.1"@, Some("0.5.1"@), "vector data type and similarity search (HNSW & IVFFlat)"@, "public"@),
        ("pg_stat_statements"@, "1.10"@, Some("1.10"@), "track execution statistics of all SQL statements executed"@, "public"@),
        ("pg_cron"@, "1.6"@, Some("1.6"@), "Job scheduler for PostgreSQL"@, "cron"@),
    ]
}

fn extension(name: &str, version: &str, comment: &str, schema: &str) -> (e: ExtensionInfo)
    ensures
        extension_view(e) == (name@, version@, Some(version@), comment@, schema@),
{
    ExtensionInfo {
        name: name.to_string(),
        default_version: version.to_string(),
        installed_version: Some(version.to_string()),
        comment: comment.to_string(),
        schema: schema.to_string(),
    }
}

/// The registry's initial entries.
pub fn get_registry() -> (r: Vec<ExtensionInfo>)
    ensures
        Seq::new(r@.len(), |i: int| extension_view(r@[i])) == default_extensions(),
{
    let mut r: Vec<ExtensionInfo> = Vec::new();
    r.push(extension("pgcrypto", "1.3", "cryptographic functions", "public"));
    r.push(extension("pgjwt", "0.1.1", "JSON Web Token API for PostgreSQL", "public"));
    r.push(extension("uuid-ossp", "1.1", "generate universally unique identifiers (UUIDs)", "public"));
    r.push(extension("pgvector", "0.5.1", "vector data type and similarity search (HNSW & IVFFlat)", "public"));
    r.push(
        extension(
            "pg_stat_statements",
            "1.10",
            "track execution statistics of all SQL statements executed",
            "public",
        ),
    );
    r.push(extension("pg_cron", "1.6", "Job scheduler for PostgreSQL", "cron"));
    assert(Seq::new(r@.len(), |i: int| extension_view(r@[i])) =~= default_extensions());
    r
}

/// The `pgcrypto` functions.
pub struct PgCrypto;

/// The `pgjwt` functions.
pub struct PgJwt;

/// The `uuid-ossp` functions.
pub struct UuidOssp;

/// The `pgvector` functions.
pub struct PgVector;

fn lower_is(s: &str, lit: &str) -> (b: bool)
    ensures
        b == (spec_to_lowercase(s@) == lit@),
{
    let l = to_lowercase(s);
    let a = chars_of(l.as_str());
    let b = chars_of(lit);
    chars_equal(a.as_slice(), b.as_slice())
}

fn prefixed(prefix: &str, s: &str) -> (r: String)
    ensures
        r@ == prefix@ + s@,
{
    let mut v: Vec<char> = Vec::new();
    push_str(&mut v, prefix);
    push_str(&mut v, s);
    string_of(v.as_slice())
}

impl PgCrypto {
    /// The SHA-256 or SHA-512 digest of `data`, by the algorithm's lowercase name.
    pub fn digest(data: &[u8], algorithm: &str) -> (r: Result<Vec<u8>, String>)
        ensures
            spec_to_lowercase(algorithm@) == "sha256"@ ==> (r matches Ok(d) && d@ == sha256(data@)),
            spec_to_lowercase(algorithm@) == "sha512"@ ==> (r matches Ok(d) && d@ == sha512(data@)),
            spec_to_lowercase(algorithm@) != "sha256"@ && spec_to_lowercase(algorithm@) != "sha512"@
                ==> (r matches Err(m) && m@ == "unsupported digest algorithm: "@ + spec_to_lowercase(
                algorithm@,
            )),
    {
        proof {
            reveal_strlit("sha256");
            reveal_strlit("sha512");
            assert("sha512"@[4] != "sha256"@[4]);
        }
        if lower_is(algorithm, "sha256") {
            Ok(sha256_bytes(data))
        } else if lower_is(algorithm, "sha512") {
            Ok(sha512_bytes(data))
        } else {
            let l = to_lowercase(algorithm);
            Err(prefixed("unsupported digest algorithm: ", l.as_str()))
        }
    }

    /// The HMAC of `data` under `key`; only SHA-256 is offered.
    pub fn hmac(data: &[u8], key: &[u8], algorithm: &str) -> (r: Result<Vec<u8>, String>)
        ensures
            spec_to_lowercase(algorithm@) == "sha256"@ ==> (r matches Ok(d) && d@ == hmac_sha256(
                key@,
                data@,
            )),
            spec_to_lowercase(algorithm@) != "sha256"@ ==> (r matches Err(m) && m@
                == "unsupported HMAC algorithm: "@ + spec_to_lowercase(algorithm@)),
    {
        if lower_is(algorithm, "sha256") {
            Ok(hmac_sha256_bytes(key, data))
        } else {
            let l = to_lowercase(algorithm);
            Err(prefixed("unsupported HMAC algorithm: ", l.as_str()))
        }
    }

    /// A salt made of `prefix`, `_` and the hexadecimal of `rand`.
    pub fn gen_salt_from(prefix: &str, rand: &[u8]) -> (s: String)
        ensures
            s@ == prefix@ + "_"@ + hex_bytes(rand@),
    {
        let mut v: Vec<char> = Vec::new();
        push_str(&mut v, prefix);
        push_str(&mut v, "_");
        push_hex_bytes(&mut v, rand);
        string_of(v.as_slice())
    }

    /// A salt made of `prefix`, `_` and 16 random bytes in hexadecimal.
    pub fn gen_salt(prefix: &str) -> (s: String)
        ensures
            exists|rand: Seq<u8>| rand.len() == 16 && s@ == prefix@ + "_"@ + hex_bytes(rand),
    {
        let mut b: Vec<u8> = Vec::new();
        let mut i: usize = 0;
        while i < 16
            invariant
                i <= 16,
                b@.len() == i,
            decreases 16 - i,
        {
            b.push(0);
            i = i + 1;
        }
        fill_random(&mut b);
        PgCrypto::gen_salt_from(prefix, b.as_slice())
    }
}

/// The hexadecimal form of 16 bytes grouped as a UUID: 8-4-4-4-12 digits.
pub open spec fn uuid_text(b: Seq<u8>) -> Seq<char> {
    hex_bytes(b.subrange(0, 4)) + "-"@ + hex_bytes(b.subrange(4, 6)) + "-"@ + hex_bytes(
        b.subrange(6, 8),
    ) + "-"@ + hex_bytes(b.subrange(8, 10)) + "-"@ + hex_bytes(b.subrange(10, 16))
}

/// Random bytes marked as a version 4, RFC 4122 UUID.
pub open spec fn v4_bytes(b: Seq<u8>) -> Seq<u8> {
    b.update(6, (b[6] & 0x0f) | 0x40).update(8, (b[8] & 0x3f) | 0x80)
}

fn uuid_string(b: &Vec<u8>) -> (s: String)
    requires
        b@.len() == 16,
    ensures
        s@ == uuid_text(b@),
{
    let mut v: Vec<char> = Vec::new();
    push_hex_bytes(&mut v, b.as_slice().split_at(4).0);
    push_str(&mut v, "-");
    push_hex_bytes(&mut v, b.as_slice().split_at(6).0.split_at(4).1);
    push_str(&mut v, "-");
    push_hex_bytes(&mut v, b.as_slice().split_at(8).0.split_at(6).1);
    push_str(&mut v, "-");
    push_hex_bytes(&mut v, b.as_slice().split_at(10).0.split_at(8).1);
    push_str(&mut v, "-");
    push_hex_bytes(&mut v, b.as_slice().split_at(10).1);
    assert(b@.subrange(0, 6).subrange(4, 6) =~= b@.subrange(4, 6));
    assert(b@.subrange(0, 8).subrange(6, 8) =~= b@.subrange(6, 8));
    assert(b@.subrange(0, 10).subrange(8, 10) =~= b@.subrange(8, 10));
    string_of(v.as_slice())
}

impl UuidOssp {
    /// The version 4 UUID made from 16 random bytes.
    pub fn uuid_v4_from(rand: &[u8]) -> (s: String)
        requires
            rand@.len() == 16,
        ensures
            s@ == uuid_text(v4_bytes(rand@)),
    {
        let mut b: Vec<u8> = Vec::new();
        let mut i: usize = 0;
        while i < 16
            invariant
                i <= 16,
                rand@.len() == 16,
                b@ == rand@.subrange(0, i as int),
            decreases 16 - i,
        {
            b.push(rand[i]);
            i = i + 1;
            assert(b@ =~= rand@.subrange(0, i as int));
        }
        assert(b@ =~= rand@);
        let b6 = (b[6] & 0x0f) | 0x40;
        b.set(6, b6);
        let b8 = (b[8] & 0x3f) | 0x80;
        b.set(8, b8);
        assert(b@ =~= v4_bytes(rand@));
        uuid_string(&b)
    }

    /// A random version 4 UUID.
    pub fn uuid_generate_v4() -> (s: String)
        ensures
            exists|rand: Seq<u8>| rand.len() == 16 && s@ == uuid_text(v4_bytes(rand)),
    {
        let mut b: Vec<u8> = Vec::new();
        let mut i: usize = 0;
        while i < 16
            invariant
                i <= 16,
                b@.len() == i,
            decreases 16 - i,
        {
            b.push(0);
            i = i + 1;
        }
        fill_random(&mut b);
        UuidOssp::uuid_v4_from(b.as_slice())
    }

    /// The all-zero UUID.
    pub fn uuid_nil() -> (s: String)
        ensures
            s@ == "00000000-0000-0000-0000-000000000000"@,
    {
        String::from_str("00000000-0000-0000-0000-000000000000")
    }
}

/// A scheduled job.
#[derive(Debug, Clone)]
pub struct CronJob {
    pub job_id: u64,
    pub job_name: String,
    pub schedule: String,
    pub command: String,
    pub active: bool,
    pub last_run_at: Option<String>,
}

/// The abstract content of a job: name, schedule, command, active, last run.
pub type CronJobView = (Seq<char>, Seq<char>, Seq<char>, bool, Option<Seq<char>>);

/// The view of a job.
pub open spec fn job_view(j: CronJob) -> CronJobView {
    (
        j.job_name@,
        j.schedule@,
        j.command@,
        j.active,
        match j.last_run_at {
            Some(s) => Some(s@),
            None => None,
        },
    )
}

/// Jobs are keyed by id.
pub open spec fn job_key() -> spec_fn(CronJob) -> u64 {
    |j: CronJob| j.job_id
}

/// Jobs are mapped to their content.
pub open spec fn job_val() -> spec_fn(CronJob) -> CronJobView {
    |j: CronJob| job_view(j)
}

impl CronJob {
    /// A copy of the job.
    pub fn copy(&self) -> (r: Self)
        ensures
            r.job_id == self.job_id,
            job_view(r) == job_view(*self),
    {
        CronJob {
            job_id: self.job_id,
            job_name: self.job_name.clone(),
            schedule: self.schedule.clone(),
            command: self.command.clone(),
            active: self.active,
            last_run_at: match &self.last_run_at {
                Some(s) => Some(s.clone()),
                None => None,
            },
        }
    }
}

/// The job scheduler: jobs by id and the id the next job gets.
#[derive(Debug)]
pub struct PgCron {
    jobs: Vec<CronJob>,
    next_id: u64,
}

impl PgCron {
    /// Job ids are unique and below the next id.
    #[verifier::type_invariant]
    spec fn well_formed(&self) -> bool {
        &&& keys_distinct(self.jobs@, job_key())
        &&& forall|i: int| 0 <= i < self.jobs@.len() ==> #[trigger] self.jobs@[i].job_id < self.next_id
    }

    /// The scheduled jobs by id.
    pub closed spec fn scheduled(&self) -> Map<u64, CronJobView> {
        assoc_map(self.jobs@, job_key(), job_val())
    }

    /// The id the next scheduled job gets.
    pub closed spec fn next_job_id(&self) -> u64 {
        self.next_id
    }

    /// The scheduler at start-up: no jobs, ids from 1.
    pub fn global() -> (c: Self)
        ensures
            c.scheduled() == Map::<u64, CronJobView>::empty(),
            c.next_job_id() == 1,
    {
        let c = PgCron { jobs: Vec::new(), next_id: 1 };
        assert(c.scheduled() =~= Map::<u64, CronJobView>::empty());
        c
    }

    /// Schedules an active job and returns its id.
    pub fn schedule(&mut self, job_name: &str, schedule: &str, command: &str) -> (id: u64)
        requires
            old(self).next_job_id() < u64::MAX,
        ensures
            id == old(self).next_job_id(),
            final(self).next_job_id() == id + 1,
            !old(self).scheduled().contains_key(id),
            final(self).scheduled() == old(self).scheduled().insert(
                id,
                (job_name@, schedule@, command@, true, None),
            ),
    {
        proof {
            use_type_invariant(&*self);
        }
        let id = self.next_id;
        let job = CronJob {
            job_id: id,
            job_name: job_name.to_string(),
            schedule: schedule.to_string(),
            command: command.to_string(),
            active: true,
            last_run_at: None,
        };
        let mut jobs: Vec<CronJob> = Vec::new();
        std::mem::swap(&mut jobs, &mut self.jobs);
        proof {
            assert(!has_key(jobs@, job_key(), id)) by {
                if has_key(jobs@, job_key(), id) {
                    let i = choose|i: int| 0 <= i < jobs@.len() && job_key()(jobs@[i]) == id;
                    assert(jobs@[i].job_id < id);
                }
            }
            lemma_assoc_push(jobs@, job_key(), job_val(), job);
        }
        jobs.push(job);
        self.next_id = id + 1;
        self.jobs = jobs;
        id
    }

    /// Removes the job `job_id`; whether it was scheduled.
    pub fn unschedule(&mut self, job_id: u64) -> (b: bool)
        ensures
            b == old(self).scheduled().contains_key(job_id),
            final(self).scheduled() == old(self).scheduled().remove(job_id),
            final(self).next_job_id() == old(self).next_job_id(),
    {
        proof {
            use_type_invariant(&*self);
        }
        let mut i: usize = 0;
        while i < self.jobs.len()
            invariant
                i <= self.jobs@.len(),
                keys_distinct(self.jobs@, job_key()),
                forall|k: int| 0 <= k < self.jobs@.len() ==> #[trigger] self.jobs@[k].job_id < self.next_id,
                self.jobs@ == old(self).jobs@,
                self.next_id == old(self).next_id,
                forall|j: int| 0 <= j < i ==> self.jobs@[j].job_id != job_id,
            decreases self.jobs@.len() - i,
        {
            if self.jobs[i].job_id == job_id {
                let mut jobs: Vec<CronJob> = Vec::new();
                std::mem::swap(&mut jobs, &mut self.jobs);
                proof {
                    lemma_assoc_remove(jobs@, job_key(), job_val(), i as int);
                    lemma_assoc_at(jobs@, job_key(), job_val(), i as int);
                }
                let ghost before = jobs@;
                jobs.remove(i);
                assert forall|k: int| 0 <= k < jobs@.len() implies #[trigger] jobs@[k].job_id < self.next_id by {
                    if k < i {
                        assert(jobs@[k] == before[k]);
                    } else {
                        assert(jobs@[k] == before[k + 1]);
                    }
                }
                self.jobs = jobs;
                return true;
            }
            i = i + 1;
        }
        assert(!has_key(self.jobs@, job_key(), job_id));
        assert(!old(self).scheduled().contains_key(job_id));
        assert(old(self).scheduled().remove(job_id) =~= old(self).scheduled());
        false
    }

    /// Every scheduled job, each once.
    pub fn list_jobs(&self) -> (r: Vec<CronJob>)
        ensures
            r@.len() == self.scheduled().len(),
            forall|i: int|
                0 <= i < r@.len() ==> self.scheduled().contains_key(#[trigger] r@[i].job_id)
                    && self.scheduled()[r@[i].job_id] == job_view(r@[i]),
            forall|k: u64| #[trigger]
                self.scheduled().contains_key(k) ==> exists|i: int| 0 <= i < r@.len() && r@[i].job_id == k,
    {
        proof {
            use_type_invariant(self);
        }
        let ghost s = self.jobs@;
        let mut r: Vec<CronJob> = Vec::new();
        let mut i: usize = 0;
        while i < self.jobs.len()
            invariant
                s == self.jobs@,
                i <= s.len(),
                r@.len() == i,
                forall|j: int| 0 <= j < i ==> #[trigger] r@[j].job_id == s[j].job_id && job_view(r@[j]) == job_view(s[j]),
            decreases s.len() - i,
        {
            r.push(self.jobs[i].copy());
            i = i + 1;
        }
        proof {
            assert forall|j: int| 0 <= j < r@.len() implies self.scheduled().contains_key(#[trigger] r@[j].job_id)
                && self.scheduled()[r@[j].job_id] == job_view(r@[j]) by {
                lemma_assoc_at(s, job_key(), job_val(), j);
            }
            assert forall|k: u64| #[trigger]
                self.scheduled().contains_key(k) implies exists|j: int| 0 <= j < r@.len() && r@[j].job_id == k by {
                let j = choose|j: int| 0 <= j < s.len() && job_key()(s[j]) == k;
                assert(r@[j].job_id == k);
            }
            lemma_assoc_len(s, job_key(), job_val());
        }
        r
    }
}

/// A statement as the statistics count it: trimmed, then in lower case.
pub open spec fn spec_normalize_statement(q: Seq<char>) -> Seq<char> {
    spec_to_lowercase(spec_trim(q))
}

/// A statement as the statistics count it.
pub fn normalize_statement(q: &str) -> (r: String)
    ensures
        r@ == spec_normalize_statement(q@),
{
    let t = string_of(trim_chars(chars_of(q).as_slice()).as_slice());
    to_lowercase(t.as_str())
}

/// The big-endian value of the first eight bytes.
pub open spec fn be_u64(b: Seq<u8>) -> int
    decreases b.len(),
{
    if b.len() == 0 {
        0
    } else {
        be_u64(b.drop_last()) * 256 + b.last() as int
    }
}

/// The id of a normalized statement: the first eight bytes of the SHA-256 digest of its
/// UTF-8 text, read big-endian.
pub open spec fn spec_query_id(q: Seq<char>) -> int {
    be_u64(sha256(encode_utf8(q)).take(8))
}

/// 256 to the power `n`.
pub open spec fn pow256(n: nat) -> int
    decreases n,
{
    if n == 0 {
        1
    } else {
        pow256((n - 1) as nat) * 256
    }
}

/// The id under which a normalized statement's statistics are kept.
pub fn statement_query_id(normalized: &str) -> (id: u64)
    ensures
        id == spec_query_id(normalized@),
{
    let d = sha256_bytes(normalized.as_bytes());
    let mut acc: u64 = 0;
    let mut i: usize = 0;
    assert(d@.take(8).take(0) =~= Seq::<u8>::empty());
    while i < 8
        invariant
            d@.len() == 32,
            i <= 8,
            acc == be_u64(d@.take(8).take(i as int)),
            acc < pow256(i as nat),
        decreases 8 - i,
    {
        assert(d@.take(8).take(i + 1).drop_last() =~= d@.take(8).take(i as int));
        assert(d@.take(8).take(i + 1).last() == d@[i as int]);
        assert(pow256((i + 1) as nat) == pow256(i as nat) * 256);
        assert(pow256(i as nat) <= pow256(7)) by {
            lemma_pow256_mono(i as nat, 7);
        }
        assert(pow256(7) == 72057594037927936) by {
            reveal_with_fuel(pow256, 8);
        }
        assert(acc * 256 + d@[i as int] < pow256((i + 1) as nat)) by (nonlinear_arith)
            requires
                acc < pow256(i as nat),
                pow256((i + 1) as nat) == pow256(i as nat) * 256,
                d@[i as int] < 256,
        ;
        acc = acc * 256 + d[i] as u64;
        i = i + 1;
    }
    assert(d@.take(8).take(8) =~= d@.take(8));
    acc
}

proof fn lemma_pow256_mono(a: nat, b: nat)
    requires
        a <= b,
    ensures
        pow256(a) <= pow256(b),
        pow256(a) >= 1,
    decreases b,
{
    if a < b {
        lemma_pow256_mono(a, (b - 1) as nat);
    } else if a > 0 {
        lemma_pow256_mono((a - 1) as nat, (a - 1) as nat);
    }
}

/// A `pgjwt` token for JSON claims `payload` under `secret`: the HS256 header and the
/// payload in URL-safe base64, joined with a dot, then a dot and the HMAC-SHA-256 of that
/// text under the secret in URL-safe base64.
pub open spec fn spec_pgjwt_token(payload: Seq<char>, secret: Seq<char>) -> Seq<char> {
    let input = b64url_encode(encode_utf8("{\"alg\":\"HS256\",\"typ\":\"JWT\"}"@)) + "."@ + b64url_encode(
        encode_utf8(payload),
    );
    input + "."@ + b64url_encode(hmac_sha256(encode_utf8(secret), encode_utf8(input)))
}

/// What verifying a `pgjwt` token gives: the payload bytes, or the message of the first
/// thing wrong.
pub open spec fn spec_pgjwt_verify(token: Seq<char>, secret: Seq<char>, algorithm: Seq<char>) -> Result<
    Seq<u8>,
    Seq<char>,
> {
    let parts = split_at_char(token, '.');
    let alg = spec_to_uppercase(algorithm);
    if parts.len() != 3 {
        Err("invalid JWT format: token must have 3 segments"@)
    } else if alg != "HS256"@ {
        Err("unsupported JWT alg: "@ + alg)
    } else if parts[2] != b64url_encode(
        hmac_sha256(encode_utf8(secret), encode_utf8(parts[0] + "."@ + parts[1])),
    ) {
        Err("JWT signature verification failed"@)
    } else {
        match b64url_decode(parts[1]) {
            Some(b) => Ok(b),
            None => Err("failed to decode JWT payload base64"@),
        }
    }
}

fn upper_alg(algorithm: &str) -> (r: (String, bool))
    ensures
        r.0@ == spec_to_uppercase(algorithm@),
        r.1 == (spec_to_uppercase(algorithm@) == "HS256"@),
{
    let u = to_uppercase(algorithm);
    let hs = chars_of("HS256");
    let ok = chars_equal(chars_of(u.as_str()).as_slice(), hs.as_slice());
    (u, ok)
}

impl PgJwt {
    /// Signs the JSON text `payload` into a token with `secret`; only HS256 (in any case)
    /// is supported.
    pub fn sign(payload: &str, secret: &str, algorithm: &str) -> (r: Result<String, String>)
        ensures
            spec_to_uppercase(algorithm@) == "HS256"@ ==> (r matches Ok(t) && t@ == spec_pgjwt_token(
                payload@,
                secret@,
            )),
            spec_to_uppercase(algorithm@) != "HS256"@ ==> (r matches Err(m) && m@ == "unsupported JWT alg: "@
                + spec_to_uppercase(algorithm@)),
    {
        let (alg, ok) = upper_alg(algorithm);
        if !ok {
            return Err(prefixed("unsupported JWT alg: ", alg.as_str()));
        }
        let header = base64_url_encode("{\"alg\":\"HS256\",\"typ\":\"JWT\"}".as_bytes());
        let body = base64_url_encode(payload.as_bytes());
        let mut v: Vec<char> = Vec::new();
        push_str(&mut v, header.as_str());
        push_str(&mut v, ".");
        push_str(&mut v, body.as_str());
        let input = string_of(v.as_slice());
        let mac = hmac_sha256_bytes(secret.as_bytes(), input.as_str().as_bytes());
        let sig = base64_url_encode(mac.as_slice());
        let mut out: Vec<char> = Vec::new();
        push_str(&mut out, input.as_str());
        push_str(&mut out, ".");
        push_str(&mut out, sig.as_str());
        Ok(string_of(out.as_slice()))
    }

    /// Checks a token's form, algorithm and signature under `secret` and returns the bytes
    /// of its JSON claims.
    pub fn verify_payload(token: &str, secret: &str, algorithm: &str) -> (r: Result<Vec<u8>, String>)
        ensures
            match spec_pgjwt_verify(token@, secret@, algorithm@) {
                Ok(b) => r matches Ok(v) && v@ == b,
                Err(m) => r matches Err(x) && x@ == m,
            },
    {
        let parts = split_char(chars_of(token).as_slice(), '.');
        if parts.len() != 3 {
            return Err(string_of(chars_of("invalid JWT format: token must have 3 segments").as_slice()));
        }
        let (alg, ok) = upper_alg(algorithm);
        if !ok {
            return Err(prefixed("unsupported JWT alg: ", alg.as_str()));
        }
        let mut v: Vec<char> = Vec::new();
        push_chars(&mut v, parts[0].as_slice());
        push_str(&mut v, ".");
        push_chars(&mut v, parts[1].as_slice());
        let input = string_of(v.as_slice());
        let mac = hmac_sha256_bytes(secret.as_bytes(), input.as_str().as_bytes());
        let expected = base64_url_encode(mac.as_slice());
        if !chars_equal(parts[2].as_slice(), chars_of(expected.as_str()).as_slice()) {
            return Err(string_of(chars_of("JWT signature verification failed").as_slice()));
        }
        match base64_url_decode(string_of(parts[1].as_slice()).as_str()) {
            Ok(b) => Ok(b),
            Err(_) => Err(string_of(chars_of("failed to decode JWT payload base64").as_slice())),
        }
    }
}

/// A token that `PgJwt::sign` made passes `PgJwt::verify_payload` under the same secret
/// and an HS256 algorithm name, giving back the payload's bytes.
pub proof fn lemma_pgjwt_roundtrip(payload: Seq<char>, secret: Seq<char>, algorithm: Seq<char>)
    requires
        spec_to_uppercase(algorithm) == "HS256"@,
    ensures
        spec_pgjwt_verify(spec_pgjwt_token(payload, secret), secret, algorithm) == Ok::<Seq<u8>, Seq<char>>(
            encode_utf8(payload),
        ),
{
    let h = b64url_encode(encode_utf8("{\"alg\":\"HS256\",\"typ\":\"JWT\"}"@));
    let b = b64url_encode(encode_utf8(payload));
    let input = h + "."@ + b;
    let sig = b64url_encode(hmac_sha256(encode_utf8(secret), encode_utf8(input)));
    let t = input + "."@ + sig;
    reveal_strlit(".");
    crate::encoding::lemma_b64url_no_dot(encode_utf8("{\"alg\":\"HS256\",\"typ\":\"JWT\"}"@));
    crate::encoding::lemma_b64url_no_dot(encode_utf8(payload));
    crate::encoding::lemma_b64url_no_dot(hmac_sha256(encode_utf8(secret), encode_utf8(input)));
    assert(t =~= h + seq!['.'] + b + seq!['.'] + sig);
    crate::text::lemma_split_at_char_concat(h + seq!['.'] + b, sig, '.');
    crate::text::lemma_split_at_char_concat(h, b, '.');
    crate::text::lemma_split_at_char_absent(h, '.');
    crate::text::lemma_split_at_char_absent(b, '.');
    crate::text::lemma_split_at_char_absent(sig, '.');
    assert(split_at_char(t, '.') =~= seq![h, b, sig]);
    assert(h + "."@ + b =~= input);
    crate::encoding::lemma_b64url_roundtrip(encode_utf8(payload));
}

} // verus!
