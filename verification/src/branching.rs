use vstd::prelude::*;

use crate::error::{DbError, PlanError};
use crate::text::{chars_of, name_chars, push_chars, push_str, retain_name_chars, str_equal, string_of};

verus! {

/// A database branch: its name, creation time, file and size.
#[derive(Debug, Clone)]
pub struct BranchMetadata {
    pub name: String,
    pub created_at_ms: u64,
    pub path: String,
    pub size_bytes: u64,
}

/// The content of branch metadata.
pub struct BranchMetadataView {
    pub name: Seq<char>,
    pub created_at_ms: u64,
    pub path: Seq<char>,
    pub size_bytes: u64,
}

impl View for BranchMetadata {
    type V = BranchMetadataView;

    open spec fn view(&self) -> BranchMetadataView {
        BranchMetadataView {
            name: self.name@,
            created_at_ms: self.created_at_ms,
            path: self.path@,
            size_bytes: self.size_bytes,
        }
    }
}

impl BranchMetadata {
    /// A copy of this metadata.
    pub fn copy(&self) -> (r: Self)
        ensures
            r@ == self@,
    {
        BranchMetadata {
            name: string_of(chars_of(self.name.as_str()).as_slice()),
            created_at_ms: self.created_at_ms,
            path: string_of(chars_of(self.path.as_str()).as_slice()),
            size_bytes: self.size_bytes,
        }
    }
}

/// The path of `name` inside directory `base`, as joining a relative file name to a
/// directory path gives it: `base`, a `/` unless `base` is empty or ends with one, and
/// `name`.
pub open spec fn join_path(base: Seq<char>, name: Seq<char>) -> Seq<char> {
    if base.len() == 0 {
        name
    } else if base.last() == '/' {
        base + name
    } else {
        base + seq!['/'] + name
    }
}

/// The database file for `name` in directory `base`: `name` with the `.db` extension.
pub open spec fn db_file(base: Seq<char>, name: Seq<char>) -> Seq<char> {
    join_path(base, name + ".db"@)
}

/// The path of the database file for `name` in directory `base`.
pub fn db_file_path(base: &str, name: &[char]) -> (r: String)
    ensures
        r@ == db_file(base@, name@),
{
    let b = chars_of(base);
    let mut out: Vec<char> = Vec::new();
    push_chars(&mut out, b.as_slice());
    if b.len() > 0 && b[b.len() - 1] != '/' {
        out.push('/');
    }
    push_chars(&mut out, name);
    push_str(&mut out, ".db");
    proof {
        reveal_strlit(".db");
        assert(out@ =~= db_file(base@, name@));
    }
    string_of(out.as_slice())
}

/// The name of the branch metadata.
pub open spec fn branch_name(m: BranchMetadataView) -> Seq<char> {
    m.name
}

/// The message refusing a branch name with no name characters.
pub open spec fn empty_branch_message() -> Seq<char> {
    "branch name cannot be empty"@
}

/// The message refusing a branch name in use.
pub open spec fn branch_exists_message(name: Seq<char>) -> Seq<char> {
    "branch '"@ + name + "' already exists"@
}

/// The branches of a database, in the order they were made, each name once. The databases
/// themselves live in the files named by their metadata.
#[derive(Debug)]
pub struct BranchManager {
    base_dir: String,
    branches: Vec<BranchMetadata>,
}

/// The views of a sequence of branch metadata.
pub open spec fn branch_views(s: Seq<BranchMetadata>) -> Seq<BranchMetadataView> {
    Seq::new(s.len(), |i: int| s[i]@)
}

/// Whether the metadata names `name`.
pub open spec fn names_branch(s: Seq<BranchMetadataView>, name: Seq<char>) -> bool {
    exists|i: int| 0 <= i < s.len() && (#[trigger] s[i]).name == name
}

/// What creating a branch called `name` in `base` with the branches `s` leads to: the
/// sanitized name and its file, or the error.
pub open spec fn branch_target(base: Seq<char>, s: Seq<BranchMetadataView>, name: Seq<char>) -> Result<
    (Seq<char>, Seq<char>),
    Seq<char>,
> {
    let n = name_chars(name);
    if n.len() == 0 {
        Err(empty_branch_message())
    } else if names_branch(s, n) {
        Err(branch_exists_message(n))
    } else {
        Ok((n, db_file(base, n)))
    }
}

impl BranchManager {
    /// Each name once.
    #[verifier::type_invariant]
    spec fn names_distinct(&self) -> bool {
        forall|i: int, j: int|
            0 <= i < j < self.branches@.len() ==> (#[trigger] self.branches@[i]).name@
                != (#[trigger] self.branches@[j]).name@
    }

    /// The directory of the branch files.
    pub closed spec fn dir(&self) -> Seq<char> {
        self.base_dir@
    }

    /// The branches, oldest first.
    pub closed spec fn branches(&self) -> Seq<BranchMetadataView> {
        branch_views(self.branches@)
    }

    /// No branches yet; their files go in `base_dir`.
    pub fn new(base_dir: &str) -> (r: Self)
        ensures
            r.dir() == base_dir@,
            r.branches() == Seq::<BranchMetadataView>::empty(),
    {
        let r = BranchManager { base_dir: string_of(chars_of(base_dir).as_slice()), branches: Vec::new() };
        assert(r.branches() =~= Seq::<BranchMetadataView>::empty());
        r
    }

    fn position(&self, name: &str) -> (r: Option<usize>)
        ensures
            r matches Some(i) ==> i < self.branches().len() && self.branches()[i as int].name == name@,
            r is None ==> !names_branch(self.branches(), name@),
    {
        let mut i: usize = 0;
        while i < self.branches.len()
            invariant
                i <= self.branches@.len(),
                forall|j: int| 0 <= j < i ==> self.branches@[j].name@ != name@,
            decreases self.branches@.len() - i,
        {
            if str_equal(self.branches[i].name.as_str(), name) {
                return Some(i);
            }
            i = i + 1;
        }
        proof {
            assert forall|j: int| 0 <= j < self.branches().len() implies (#[trigger] self.branches()[j]).name
                != name@ by {
                assert(self.branches()[j] == self.branches@[j]@);
            }
        }
        None
    }

    /// The sanitized name of a new branch called `name` and the path of its file: only
    /// ASCII letters, digits, `_` and `-` are kept, and a name left empty or already in
    /// use is refused.
    pub fn branch_target(&self, name: &str) -> (r: Result<(String, String), DbError>)
        ensures
            match branch_target(self.dir(), self.branches(), name@) {
                Ok((n, p)) => r matches Ok((a, b)) && a@ == n && b@ == p,
                Err(m) => r matches Err(DbError::Plan(e)) && match e {
                    PlanError::InvalidExpression(x) => m == empty_branch_message() && x@ == m,
                    PlanError::TableAlreadyExists(x) => m != empty_branch_message() && x@ == m,
                    _ => false,
                },
            },
    {
        let n = retain_name_chars(name);
        if n.len() == 0 {
            proof {
                reveal_strlit("branch name cannot be empty");
            }
            return Err(DbError::Plan(PlanError::InvalidExpression(String::from_str("branch name cannot be empty"))));
        }
        let ns = string_of(n.as_slice());
        if self.position(ns.as_str()).is_some() {
            let mut v: Vec<char> = Vec::new();
            push_str(&mut v, "branch '");
            push_chars(&mut v, n.as_slice());
            push_str(&mut v, "' already exists");
            proof {
                reveal_strlit("branch '");
                reveal_strlit("' already exists");
                reveal_strlit("branch name cannot be empty");
                assert(v@ =~= branch_exists_message(n@));
                assert(v@[7] == '\'' && empty_branch_message()[7] == 'n');
            }
            return Err(DbError::Plan(PlanError::TableAlreadyExists(string_of(v.as_slice()))));
        }
        let path = db_file_path(self.base_dir.as_str(), n.as_slice());
        Ok((ns, path))
    }

    /// Records a new branch called `name`, made at `created_at_ms` with a file of
    /// `size_bytes` bytes, and returns its metadata; refused as `branch_target` refuses.
    pub fn create_branch(&mut self, name: &str, created_at_ms: u64, size_bytes: u64) -> (r: Result<
        BranchMetadata,
        DbError,
    >)
        ensures
            final(self).dir() == old(self).dir(),
            match branch_target(old(self).dir(), old(self).branches(), name@) {
                Ok((n, p)) => r matches Ok(m) && m@ == (BranchMetadataView {
                    name: n,
                    created_at_ms,
                    path: p,
                    size_bytes,
                }) && final(self).branches() == old(self).branches().push(m@),
                Err(msg) => r matches Err(DbError::Plan(e)) && final(self).branches() == old(self).branches()
                    && match e {
                    PlanError::InvalidExpression(x) => x@ == msg,
                    PlanError::TableAlreadyExists(x) => x@ == msg,
                    _ => false,
                },
            },
    {
        let (n, path) = match self.branch_target(name) {
            Ok(t) => t,
            Err(e) => {
                return Err(e);
            },
        };
        let meta = BranchMetadata { name: n, created_at_ms, path, size_bytes };
        let out = meta.copy();
        proof {
            use_type_invariant(&*self);
        }
        let ghost before = self.branches@;
        let mut bs: Vec<BranchMetadata> = Vec::new();
        std::mem::swap(&mut bs, &mut self.branches);
        bs.push(meta);
        proof {
            assert forall|i: int, j: int| 0 <= i < j < bs@.len() implies (#[trigger] bs@[i]).name@
                != (#[trigger] bs@[j]).name@ by {
                if j == before.len() {
                    assert(branch_views(before)[i] == before[i]@);
                }
            }
        }
        self.branches = bs;
        assert(self.branches() =~= old(self).branches().push(out@));
        Ok(out)
    }

    /// The branches, oldest first.
    pub fn list_branches(&self) -> (r: Vec<BranchMetadata>)
        ensures
            branch_views(r@) == self.branches(),
    {
        let mut r: Vec<BranchMetadata> = Vec::new();
        let mut i: usize = 0;
        while i < self.branches.len()
            invariant
                i <= self.branches@.len(),
                r@.len() == i,
                branch_views(r@) == branch_views(self.branches@).take(i as int),
            decreases self.branches@.len() - i,
        {
            let c = self.branches[i].copy();
            let ghost before = r@;
            r.push(c);
            assert(r@[i as int]@ == self.branches@[i as int]@);
            assert forall|j: int| 0 <= j < i implies r@[j]@ == #[trigger] self.branches@[j]@ by {
                assert(r@[j] == before[j]);
                assert(branch_views(before)[j] == branch_views(self.branches@).take(i as int)[j]);
            }
            i = i + 1;
            assert(branch_views(r@) =~= branch_views(self.branches@).take(i as int));
        }
        assert(branch_views(self.branches@).take(i as int) =~= branch_views(self.branches@));
        r
    }

    /// The metadata of the branch called `name`.
    pub fn get_branch(&self, name: &str) -> (r: Option<BranchMetadata>)
        ensures
            r is Some == names_branch(self.branches(), name@),
            r matches Some(m) ==> exists|i: int|
                0 <= i < self.branches().len() && self.branches()[i] == m@ && m@.name == name@,
    {
        match self.position(name) {
            Some(i) => Some(self.branches[i].copy()),
            None => None,
        }
    }

    /// Forgets the branch called `name`; whether there was one. Its file is left to the
    /// caller to remove.
    pub fn delete_branch(&mut self, name: &str) -> (r: Option<BranchMetadata>)
        ensures
            final(self).dir() == old(self).dir(),
            r is Some == names_branch(old(self).branches(), name@),
            r is None ==> final(self).branches() == old(self).branches(),
            r matches Some(m) ==> exists|i: int|
                0 <= i < old(self).branches().len() && old(self).branches()[i] == m@ && m@.name == name@
                    && final(self).branches() == old(self).branches().remove(i),
    {
        proof {
            use_type_invariant(&*self);
        }
        match self.position(name) {
            Some(i) => {
                let ghost before = self.branches@;
                let mut bs: Vec<BranchMetadata> = Vec::new();
                std::mem::swap(&mut bs, &mut self.branches);
                let m = bs.remove(i);
                proof {
                    assert forall|a: int, b: int| 0 <= a < b < bs@.len() implies (#[trigger] bs@[a]).name@
                        != (#[trigger] bs@[b]).name@ by {
                        let a2 = if a < i { a } else { a + 1 };
                        let b2 = if b < i { b } else { b + 1 };
                        assert(bs@[a] == before[a2]);
                        assert(bs@[b] == before[b2]);
                    }
                }
                self.branches = bs;
                assert(self.branches() =~= branch_views(before).remove(i as int));
                Some(m)
            },
            None => None,
        }
    }
}

} // verus!
