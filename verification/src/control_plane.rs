use vstd::prelude::*;

use crate::crypto::{fill_random, hex_bytes, push_hex_bytes};
use crate::text::{push_str, str_equal, string_of};

verus! {

/// An organization owning projects.
#[derive(Debug, Clone)]
pub struct Organization {
    pub id: String,
    pub name: String,
    pub created_at_ms: u64,
}

/// Lifecycle state of a project.
#[derive(Debug, Clone, Copy, PartialEq, Eq, Structural)]
pub enum ProjectStatus {
    Provisioning,
    Active,
    Paused,
    Deleting,
}

/// Resource limits of a project.
#[derive(Debug, Clone, Copy)]
pub struct ProjectQuota {
    pub max_storage_mb: u64,
    pub max_egress_mb: u64,
    pub max_realtime_connections: u64,
    pub max_functions: u64,
}

impl Default for ProjectQuota {
    fn default() -> (q: Self)
        ensures
            q.max_storage_mb == 1024,
            q.max_egress_mb == 5120,
            q.max_realtime_connections == 500,
            q.max_functions == 50,
    {
        ProjectQuota {
            max_storage_mb: 1024,
            max_egress_mb: 5120,
            max_realtime_connections: 500,
            max_functions: 50,
        }
    }
}

/// Metered usage of a project.
#[derive(Debug, Clone, Copy)]
pub struct ResourceUsage {
    pub storage_bytes: u64,
    pub egress_bytes: u64,
    pub realtime_connections: u64,
    pub function_invocations: u64,
    pub total_rows: u64,
}

/// A hosted project: its database, keys, quota and usage.
#[derive(Debug, Clone)]
pub struct Project {
    pub id: String,
    pub org_id: String,
    pub name: String,
    pub region: String,
    pub status: ProjectStatus,
    pub anon_key: String,
    pub service_role_key: String,
    pub database_path: String,
    pub quota: ProjectQuota,
    pub usage: ResourceUsage,
    pub created_at_ms: u64,
}

/// The abstract content of an organization.
pub struct OrganizationView {
    pub id: Seq<char>,
    pub name: Seq<char>,
    pub created_at_ms: u64,
}

/// The abstract content of a project.
pub struct ProjectView {
    pub id: Seq<char>,
    pub org_id: Seq<char>,
    pub name: Seq<char>,
    pub region: Seq<char>,
    pub status: ProjectStatus,
    pub anon_key: Seq<char>,
    pub service_role_key: Seq<char>,
    pub database_path: Seq<char>,
    pub quota: ProjectQuota,
    pub usage: ResourceUsage,
    pub created_at_ms: u64,
}

impl View for Organization {
    type V = OrganizationView;

    open spec fn view(&self) -> OrganizationView {
        OrganizationView { id: self.id@, name: self.name@, created_at_ms: self.created_at_ms }
    }
}

impl View for Project {
    type V = ProjectView;

    open spec fn view(&self) -> ProjectView {
        ProjectView {
            id: self.id@,
            org_id: self.org_id@,
            name: self.name@,
            region: self.region@,
            status: self.status,
            anon_key: self.anon_key@,
            service_role_key: self.service_role_key@,
            database_path: self.database_path@,
            quota: self.quota,
            usage: self.usage,
            created_at_ms: self.created_at_ms,
        }
    }
}

impl Organization {
    /// A copy of the organization.
    pub fn copy(&self) -> (r: Self)
        ensures
            r@ == self@,
    {
        Organization { id: self.id.clone(), name: self.name.clone(), created_at_ms: self.created_at_ms }
    }
}

impl Project {
    /// A copy of the project.
    pub fn copy(&self) -> (r: Self)
        ensures
            r@ == self@,
    {
        Project {
            id: self.id.clone(),
            org_id: self.org_id.clone(),
            name: self.name.clone(),
            region: self.region.clone(),
            status: self.status,
            anon_key: self.anon_key.clone(),
            service_role_key: self.service_role_key.clone(),
            database_path: self.database_path.clone(),
            quota: self.quota,
            usage: self.usage,
            created_at_ms: self.created_at_ms,
        }
    }
}

/// The views of organizations.
pub open spec fn org_views(s: Seq<Organization>) -> Seq<OrganizationView> {
    Seq::new(s.len(), |i: int| s[i]@)
}

/// The views of projects.
pub open spec fn project_views(s: Seq<Project>) -> Seq<ProjectView> {
    Seq::new(s.len(), |i: int| s[i]@)
}

/// Whether no two organizations or projects share an id.
pub open spec fn ids_distinct_orgs(s: Seq<OrganizationView>) -> bool {
    forall|i: int, j: int| 0 <= i < s.len() && 0 <= j < s.len() && i != j ==> s[i].id != s[j].id
}

/// Whether no two projects share an id.
pub open spec fn ids_distinct_projects(s: Seq<ProjectView>) -> bool {
    forall|i: int, j: int| 0 <= i < s.len() && 0 <= j < s.len() && i != j ==> s[i].id != s[j].id
}

/// The organizations and projects of the fleet.
#[derive(Debug)]
pub struct ControlPlane {
    orgs: Vec<Organization>,
    projects: Vec<Project>,
}

/// Milliseconds since the Unix epoch, truncated to 64 bits.
fn now_ms() -> u64 {
    crate::time::now_millis()
}

fn random_bytes(n: usize) -> (r: Vec<u8>)
    ensures
        r@.len() == n,
{
    let mut b: Vec<u8> = Vec::new();
    let mut i: usize = 0;
    while i < n
        invariant
            i <= n,
            b@.len() == i,
        decreases n - i,
    {
        b.push(0);
        i = i + 1;
    }
    fill_random(&mut b);
    b
}

fn prefixed_hex(prefix: &str, b: &[u8]) -> (s: String)
    ensures
        s@ == prefix@ + hex_bytes(b@),
{
    let mut v: Vec<char> = Vec::new();
    push_str(&mut v, prefix);
    push_hex_bytes(&mut v, b);
    string_of(v.as_slice())
}

/// The message for an organization that does not exist.
pub open spec fn org_not_found(id: Seq<char>) -> Seq<char> {
    "organization '"@ + id + "' not found"@
}

/// The message for a project that does not exist.
pub open spec fn project_not_found(id: Seq<char>) -> Seq<char> {
    "project '"@ + id + "' not found"@
}

/// Position of the organization with id `id`.
pub open spec fn org_index(s: Seq<OrganizationView>, id: Seq<char>) -> Option<int> {
    if exists|i: int| 0 <= i < s.len() && s[i].id == id {
        Some(choose|i: int| 0 <= i < s.len() && s[i].id == id)
    } else {
        None
    }
}

/// Position of the project with id `id`.
pub open spec fn project_index(s: Seq<ProjectView>, id: Seq<char>) -> Option<int> {
    if exists|i: int| 0 <= i < s.len() && s[i].id == id {
        Some(choose|i: int| 0 <= i < s.len() && s[i].id == id)
    } else {
        None
    }
}

/// Whether `ident` names the project: its id, anonymous key or service key.
pub open spec fn project_matches(p: ProjectView, ident: Seq<char>) -> bool {
    p.anon_key == ident || p.service_role_key == ident || p.id == ident
}

impl ControlPlane {
    /// Ids are unique among organizations and among projects.
    #[verifier::type_invariant]
    spec fn ids_unique(&self) -> bool {
        ids_distinct_orgs(org_views(self.orgs@)) && ids_distinct_projects(project_views(self.projects@))
    }

    /// The organizations, in creation order.
    pub closed spec fn organizations(&self) -> Seq<OrganizationView> {
        org_views(self.orgs@)
    }

    /// The projects, in creation order.
    pub closed spec fn projects(&self) -> Seq<ProjectView> {
        project_views(self.projects@)
    }

    /// The fleet at start-up, created at `now`: the default organization and its
    /// production project.
    pub fn initial_at(now: u64) -> (c: Self)
        ensures
            c.organizations().len() == 1,
            c.organizations()[0].id == "org_default"@,
            c.organizations()[0].name == "Default Organization"@,
            c.organizations()[0].created_at_ms == now,
            c.projects().len() == 1,
            c.projects()[0].id == "prj_default"@,
            c.projects()[0].org_id == "org_default"@,
            c.projects()[0].name == "Production Workspace"@,
            c.projects()[0].region == "us-east-1"@,
            c.projects()[0].status == ProjectStatus::Active,
            c.projects()[0].anon_key == "anon_key_production_default"@,
            c.projects()[0].service_role_key == "service_role_key_production_default"@,
            c.projects()[0].database_path == "chocobase.db"@,
            c.projects()[0].quota.max_storage_mb == 1024,
            c.projects()[0].usage.storage_bytes == 1048576,
            c.projects()[0].usage.egress_bytes == 2097152,
            c.projects()[0].usage.realtime_connections == 12,
            c.projects()[0].usage.function_invocations == 148,
            c.projects()[0].usage.total_rows == 450,
            c.projects()[0].created_at_ms == now,
    {
        let org = Organization {
            id: String::from_str("org_default"),
            name: String::from_str("Default Organization"),
            created_at_ms: now,
        };
        let project = Project {
            id: String::from_str("prj_default"),
            org_id: String::from_str("org_default"),
            name: String::from_str("Production Workspace"),
            region: String::from_str("us-east-1"),
            status: ProjectStatus::Active,
            anon_key: String::from_str("anon_key_production_default"),
            service_role_key: String::from_str("service_role_key_production_default"),
            database_path: String::from_str("chocobase.db"),
            quota: ProjectQuota::default(),
            usage: ResourceUsage {
                storage_bytes: 1048576,
                egress_bytes: 2097152,
                realtime_connections: 12,
                function_invocations: 148,
                total_rows: 450,
            },
            created_at_ms: now,
        };
        let mut orgs: Vec<Organization> = Vec::new();
        orgs.push(org);
        let mut projects: Vec<Project> = Vec::new();
        projects.push(project);
        ControlPlane { orgs, projects }
    }

    /// The fleet at start-up, created now.
    pub fn global() -> (c: Self)
        ensures
            c.organizations().len() == 1,
            c.organizations()[0].id == "org_default"@,
            c.projects().len() == 1,
            c.projects()[0].id == "prj_default"@,
            c.projects()[0].org_id == "org_default"@,
            c.projects()[0].status == ProjectStatus::Active,
    {
        ControlPlane::initial_at(now_ms())
    }

    fn org_position(&self, id: &str) -> (r: Option<usize>)
        ensures
            r matches Some(i) ==> i < self.orgs@.len() && self.orgs@[i as int].id@ == id@,
            r is None ==> forall|i: int| 0 <= i < self.orgs@.len() ==> self.orgs@[i].id@ != id@,
    {
        let mut i: usize = 0;
        while i < self.orgs.len()
            invariant
                i <= self.orgs@.len(),
                forall|j: int| 0 <= j < i ==> self.orgs@[j].id@ != id@,
            decreases self.orgs@.len() - i,
        {
            if str_equal(self.orgs[i].id.as_str(), id) {
                return Some(i);
            }
            i = i + 1;
        }
        None
    }

    fn project_position(&self, id: &str) -> (r: Option<usize>)
        ensures
            r matches Some(i) ==> i < self.projects@.len() && self.projects@[i as int].id@ == id@,
            r is None ==> forall|i: int| 0 <= i < self.projects@.len() ==> self.projects@[i].id@ != id@,
    {
        let mut i: usize = 0;
        while i < self.projects.len()
            invariant
                i <= self.projects@.len(),
                forall|j: int| 0 <= j < i ==> self.projects@[j].id@ != id@,
            decreases self.projects@.len() - i,
        {
            if str_equal(self.projects[i].id.as_str(), id) {
                return Some(i);
            }
            i = i + 1;
        }
        None
    }

    /// Adds an organization whose id is `org_` and the hexadecimal of `rand`; an
    /// organization with the same id is replaced.
    pub fn create_organization_with(&mut self, name: &str, rand: &[u8], now: u64) -> (o: Organization)
        ensures
            o@.id == "org_"@ + hex_bytes(rand@),
            o@.name == name@,
            o@.created_at_ms == now,
            match org_index(old(self).organizations(), o@.id) {
                Some(i) => final(self).organizations() == old(self).organizations().update(i, o@),
                None => final(self).organizations() == old(self).organizations().push(o@),
            },
            final(self).projects() == old(self).projects(),
    {
        proof {
            use_type_invariant(&*self);
        }
        let id = prefixed_hex("org_", rand);
        let org = Organization { id, name: name.to_string(), created_at_ms: now };
        let result = org.copy();
        let pos = self.org_position(org.id.as_str());
        let mut orgs: Vec<Organization> = Vec::new();
        std::mem::swap(&mut orgs, &mut self.orgs);
        let ghost before = org_views(orgs@);
        match pos {
            Some(i) => {
                assert(before[i as int].id == result@.id);
                assert(org_index(before, result@.id) == Some(i as int));
                orgs.set(i, org);
                assert(org_views(orgs@) =~= before.update(i as int, result@));
            },
            None => {
                orgs.push(org);
                assert(org_views(orgs@) =~= before.push(result@));
            },
        }
        self.orgs = orgs;
        result
    }

    /// Adds an organization with a random id.
    pub fn create_organization(&mut self, name: &str) -> (o: Organization)
        ensures
            o@.name == name@,
            final(self).organizations().contains(o@),
            final(self).projects() == old(self).projects(),
    {
        let rand = random_bytes(8);
        let now = now_ms();
        let o = self.create_organization_with(name, rand.as_slice(), now);
        proof {
            match org_index(old(self).organizations(), o@.id) {
                Some(i) => {
                    assert(self.organizations()[i] == o@);
                },
                None => {
                    assert(self.organizations()[old(self).organizations().len() as int] == o@);
                },
            }
        }
        o
    }

    /// Every organization, in creation order.
    pub fn list_organizations(&self) -> (r: Vec<Organization>)
        ensures
            org_views(r@) == self.organizations(),
    {
        let mut r: Vec<Organization> = Vec::new();
        let mut i: usize = 0;
        while i < self.orgs.len()
            invariant
                i <= self.orgs@.len(),
                r@.len() == i,
                forall|k: int| 0 <= k < i ==> #[trigger] r@[k]@ == self.orgs@[k]@,
            decreases self.orgs@.len() - i,
        {
            r.push(self.orgs[i].copy());
            i = i + 1;
        }
        assert(org_views(r@) =~= org_views(self.orgs@));
        r
    }

    /// Every project, in creation order.
    pub fn list_projects(&self) -> (r: Vec<Project>)
        ensures
            project_views(r@) == self.projects(),
    {
        let mut r: Vec<Project> = Vec::new();
        let mut i: usize = 0;
        while i < self.projects.len()
            invariant
                i <= self.projects@.len(),
                r@.len() == i,
                forall|k: int| 0 <= k < i ==> #[trigger] r@[k]@ == self.projects@[k]@,
            decreases self.projects@.len() - i,
        {
            r.push(self.projects[i].copy());
            i = i + 1;
        }
        assert(project_views(r@) =~= project_views(self.projects@));
        r
    }

    /// The project with id `project_id`.
    pub fn get_project(&self, project_id: &str) -> (r: Option<Project>)
        ensures
            r is Some == project_index(self.projects(), project_id@) is Some,
            r matches Some(p) ==> p@ == self.projects()[project_index(self.projects(), project_id@)->0],
    {
        proof {
            use_type_invariant(self);
        }
        match self.project_position(project_id) {
            Some(i) => {
                assert(self.projects()[i as int].id == project_id@);
                Some(self.projects[i].copy())
            },
            None => {
                assert(!exists|i: int| 0 <= i < self.projects().len() && self.projects()[i].id == project_id@);
                None
            },
        }
    }
}

/// The project created under `org_id` with random parts `r1` (id), `r2` (anonymous key)
/// and `r3` (service key) at `now`.
pub open spec fn new_project(
    org_id: Seq<char>,
    name: Seq<char>,
    region: Seq<char>,
    r1: Seq<u8>,
    r2: Seq<u8>,
    r3: Seq<u8>,
    now: u64,
    p: ProjectView,
) -> bool {
    &&& p.id == "prj_"@ + hex_bytes(r1)
    &&& p.org_id == org_id
    &&& p.name == name
    &&& p.region == region
    &&& p.status == ProjectStatus::Active
    &&& p.anon_key == "anon_"@ + hex_bytes(r2)
    &&& p.service_role_key == "service_role_"@ + hex_bytes(r3)
    &&& p.database_path == p.id + ".db"@
    &&& p.quota.max_storage_mb == 1024 && p.quota.max_egress_mb == 5120
        && p.quota.max_realtime_connections == 500 && p.quota.max_functions == 50
    &&& p.usage.storage_bytes == 0 && p.usage.egress_bytes == 0 && p.usage.realtime_connections == 0
        && p.usage.function_invocations == 0 && p.usage.total_rows == 0
    &&& p.created_at_ms == now
}

/// The project list after storing `p`: it replaces a project with the same id, or is
/// appended.
pub open spec fn stored(s: Seq<ProjectView>, p: ProjectView) -> Seq<ProjectView> {
    match project_index(s, p.id) {
        Some(i) => s.update(i, p),
        None => s.push(p),
    }
}

/// The first project, in creation order, that `ident` names.
pub open spec fn first_match(s: Seq<ProjectView>, ident: Seq<char>) -> Option<int>
    decreases s.len(),
{
    if s.len() == 0 {
        None
    } else if project_matches(s[0], ident) {
        Some(0)
    } else {
        match first_match(s.drop_first(), ident) {
            Some(i) => Some(i + 1),
            None => None,
        }
    }
}

/// The project `ident` resolves to: the one with that id, else the first that it names by
/// a key.
pub open spec fn resolved(s: Seq<ProjectView>, ident: Seq<char>) -> Option<int> {
    match project_index(s, ident) {
        Some(i) => Some(i),
        None => first_match(s, ident),
    }
}

proof fn lemma_first_match_skip(s: Seq<ProjectView>, ident: Seq<char>, i: int)
    requires
        0 <= i <= s.len(),
        forall|j: int| 0 <= j < i ==> !project_matches(#[trigger] s[j], ident),
    ensures
        first_match(s, ident) == match first_match(s.skip(i), ident) {
            Some(k) => Some(k + i),
            None => None::<int>,
        },
    decreases i,
{
    if i == 0 {
        assert(s.skip(0) =~= s);
    } else {
        assert(!project_matches(s[0], ident));
        assert forall|j: int| 0 <= j < i - 1 implies !project_matches(#[trigger] s.drop_first()[j], ident) by {
            assert(s.drop_first()[j] == s[j + 1]);
        }
        lemma_first_match_skip(s.drop_first(), ident, i - 1);
        assert(s.drop_first().skip(i - 1) =~= s.skip(i));
    }
}

impl ControlPlane {
    /// Creates a project in organization `org_id` from the given random parts; refused
    /// when the organization does not exist.
    pub fn create_project_with(
        &mut self,
        org_id: &str,
        name: &str,
        region: &str,
        r1: &[u8],
        r2: &[u8],
        r3: &[u8],
        now: u64,
    ) -> (r: Result<Project, String>)
        ensures
            org_index(old(self).organizations(), org_id@) is None ==> (r matches Err(m) && m@
                == org_not_found(org_id@)) && final(self).projects() == old(self).projects(),
            org_index(old(self).organizations(), org_id@) is Some ==> (r matches Ok(p) && new_project(
                org_id@,
                name@,
                region@,
                r1@,
                r2@,
                r3@,
                now,
                p@,
            ) && final(self).projects() == stored(old(self).projects(), p@)),
            final(self).organizations() == old(self).organizations(),
    {
        proof {
            use_type_invariant(&*self);
        }
        let opos = self.org_position(org_id);
        if let Some(oi) = opos {
            assert(self.organizations()[oi as int].id == org_id@);
        }
        if opos.is_none() {
            let mut m: Vec<char> = Vec::new();
            push_str(&mut m, "organization '");
            push_str(&mut m, org_id);
            push_str(&mut m, "' not found");
            assert(m@ =~= org_not_found(org_id@));
            return Err(string_of(m.as_slice()));
        }
        let id = prefixed_hex("prj_", r1);
        let anon_key = prefixed_hex("anon_", r2);
        let service_role_key = prefixed_hex("service_role_", r3);
        let mut path: Vec<char> = Vec::new();
        push_str(&mut path, id.as_str());
        push_str(&mut path, ".db");
        let project = Project {
            id,
            org_id: org_id.to_string(),
            name: name.to_string(),
            region: region.to_string(),
            status: ProjectStatus::Active,
            anon_key,
            service_role_key,
            database_path: string_of(path.as_slice()),
            quota: ProjectQuota::default(),
            usage: ResourceUsage {
                storage_bytes: 0,
                egress_bytes: 0,
                realtime_connections: 0,
                function_invocations: 0,
                total_rows: 0,
            },
            created_at_ms: now,
        };
        let result = project.copy();
        let pos = self.project_position(project.id.as_str());
        let mut projects: Vec<Project> = Vec::new();
        std::mem::swap(&mut projects, &mut self.projects);
        let ghost before = project_views(projects@);
        match pos {
            Some(i) => {
                assert(before[i as int].id == result@.id);
                assert(project_index(before, result@.id) == Some(i as int));
                projects.set(i, project);
                assert(project_views(projects@) =~= before.update(i as int, result@));
            },
            None => {
                projects.push(project);
                assert(project_views(projects@) =~= before.push(result@));
            },
        }
        self.projects = projects;
        Ok(result)
    }

    /// Creates a project in organization `org_id` with random ids and keys.
    pub fn create_project(&mut self, org_id: &str, name: &str, region: &str) -> (r: Result<Project, String>)
        ensures
            org_index(old(self).organizations(), org_id@) is None ==> (r matches Err(m) && m@
                == org_not_found(org_id@)) && final(self).projects() == old(self).projects(),
            org_index(old(self).organizations(), org_id@) is Some ==> (r matches Ok(p) && p@.org_id
                == org_id@ && p@.name == name@ && p@.region == region@ && p@.status
                == ProjectStatus::Active && final(self).projects() == stored(old(self).projects(), p@)),
            final(self).organizations() == old(self).organizations(),
    {
        let r1 = random_bytes(8);
        let r2 = random_bytes(8);
        let r3 = random_bytes(8);
        let now = now_ms();
        self.create_project_with(org_id, name, region, r1.as_slice(), r2.as_slice(), r3.as_slice(), now)
    }

    /// The project that `identifier` names: by id first, else the first whose id or keys
    /// equal it.
    pub fn resolve_project(&self, identifier: &str) -> (r: Option<Project>)
        ensures
            r is Some == resolved(self.projects(), identifier@) is Some,
            r matches Some(p) ==> p@ == self.projects()[resolved(self.projects(), identifier@)->0],
    {
        proof {
            use_type_invariant(self);
        }
        if let Some(p) = self.get_project(identifier) {
            return Some(p);
        }
        let ghost s = self.projects();
        let mut i: usize = 0;
        while i < self.projects.len()
            invariant
                s == self.projects(),
                s.len() == self.projects@.len(),
                project_index(s, identifier@) is None,
                i <= s.len(),
                forall|j: int| 0 <= j < i ==> !project_matches(#[trigger] s[j], identifier@),
            decreases s.len() - i,
        {
            let p = &self.projects[i];
            assert(s[i as int] == p@);
            if str_equal(p.anon_key.as_str(), identifier) || str_equal(
                p.service_role_key.as_str(),
                identifier,
            ) || str_equal(p.id.as_str(), identifier) {
                proof {
                    lemma_first_match_skip(s, identifier@, i as int);
                    assert(s.skip(i as int)[0] == s[i as int]);
                }
                return Some(p.copy());
            }
            i = i + 1;
        }
        proof {
            lemma_first_match_skip(s, identifier@, s.len() as int);
            assert(s.skip(s.len() as int) =~= Seq::<ProjectView>::empty());
        }
        None
    }

    fn set_status(&mut self, project_id: &str, status: ProjectStatus) -> (r: Result<Project, String>)
        ensures
            project_index(old(self).projects(), project_id@) is None ==> (r matches Err(m) && m@
                == project_not_found(project_id@)) && final(self).projects() == old(self).projects(),
            project_index(old(self).projects(), project_id@) matches Some(i) ==> (r matches Ok(p) && p@
                == (ProjectView { status, ..old(self).projects()[i] }) && final(self).projects() == old(self).projects().update(i, p@)),
            final(self).organizations() == old(self).organizations(),
    {
        proof {
            use_type_invariant(&*self);
        }
        match self.project_position(project_id) {
            Some(i) => {
                let mut projects: Vec<Project> = Vec::new();
                std::mem::swap(&mut projects, &mut self.projects);
                let ghost before = project_views(projects@);
                assert(before[i as int].id == project_id@);
                assert(project_index(before, project_id@) == Some(i as int));
                let mut p = projects[i].copy();
                p.status = status;
                let result = p.copy();
                projects.set(i, p);
                assert(project_views(projects@) =~= before.update(i as int, result@));
                self.projects = projects;
                Ok(result)
            },
            None => {
                let mut m: Vec<char> = Vec::new();
                push_str(&mut m, "project '");
                push_str(&mut m, project_id);
                push_str(&mut m, "' not found");
                assert(m@ =~= project_not_found(project_id@));
                Err(string_of(m.as_slice()))
            },
        }
    }

    /// Pauses the project `project_id`.
    pub fn pause_project(&mut self, project_id: &str) -> (r: Result<Project, String>)
        ensures
            project_index(old(self).projects(), project_id@) is None ==> (r matches Err(m) && m@
                == project_not_found(project_id@)) && final(self).projects() == old(self).projects(),
            project_index(old(self).projects(), project_id@) matches Some(i) ==> (r matches Ok(p) && p@
                == (ProjectView { status: ProjectStatus::Paused, ..old(self).projects()[i] }) && final(self).projects() == old(self).projects().update(i, p@)),
            final(self).organizations() == old(self).organizations(),
    {
        self.set_status(project_id, ProjectStatus::Paused)
    }

    /// Resumes the project `project_id`.
    pub fn resume_project(&mut self, project_id: &str) -> (r: Result<Project, String>)
        ensures
            project_index(old(self).projects(), project_id@) is None ==> (r matches Err(m) && m@
                == project_not_found(project_id@)) && final(self).projects() == old(self).projects(),
            project_index(old(self).projects(), project_id@) matches Some(i) ==> (r matches Ok(p) && p@
                == (ProjectView { status: ProjectStatus::Active, ..old(self).projects()[i] }) && final(self).projects() == old(self).projects().update(i, p@)),
            final(self).organizations() == old(self).organizations(),
    {
        self.set_status(project_id, ProjectStatus::Active)
    }

    /// Adds `bytes` to the egress of the project `project_id`, if there is one.
    pub fn record_egress(&mut self, project_id: &str, bytes: u64)
        requires
            project_index(old(self).projects(), project_id@) matches Some(i) ==> old(self).projects()[i].usage.egress_bytes
                + bytes <= u64::MAX,
        ensures
            project_index(old(self).projects(), project_id@) is None ==> final(self).projects() == old(self).projects(),
            project_index(old(self).projects(), project_id@) matches Some(i) ==> final(self).projects()
                == old(self).projects().update(
                i,
                ProjectView {
                    usage: ResourceUsage {
                        egress_bytes: (old(self).projects()[i].usage.egress_bytes + bytes) as u64,
                        ..old(self).projects()[i].usage
                    },
                    ..old(self).projects()[i]
                },
            ),
            final(self).organizations() == old(self).organizations(),
    {
        proof {
            use_type_invariant(&*self);
        }
        if let Some(i) = self.project_position(project_id) {
            let mut projects: Vec<Project> = Vec::new();
            std::mem::swap(&mut projects, &mut self.projects);
            let ghost before = project_views(projects@);
            assert(before[i as int].id == project_id@);
            assert(project_index(before, project_id@) == Some(i as int));
            let mut p = projects[i].copy();
            p.usage.egress_bytes = p.usage.egress_bytes + bytes;
            let ghost pv = p@;
            projects.set(i, p);
            assert(project_views(projects@) =~= before.update(i as int, pv));
            self.projects = projects;
        }
    }
}

} // verus!
