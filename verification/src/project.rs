//! A project binds one database to one revision-controlled directory: it
//! owns the mapping between the logical dump file and the tracked file of
//! its repository, the write path (overwrite the tracked file, then record
//! a revision over exactly that content), and the read path (fetch the dump
//! as of the latest or of an explicitly named revision).

use vstd::prelude::*;

use crate::revstore::Revision;
use crate::revstore::RevisionStore;
use crate::revstore::RevisionStoreError;
use crate::revstore::RevisionV;

verus! {

/// Arguments for `Project::create`.
pub struct CreateInput<'a> {
    pub project_name: &'a str,
    pub project_dir: &'a str,
    pub db_uri: &'a str,
}

/// Arguments for `Project::open`.
pub struct OpenInput<'a> {
    pub project_dir: &'a str,
    pub project_name: &'a str,
    pub db_uri: &'a str,
}

/// Mathematical image of a `Project`: its identity and paths, the recorded
/// dump history oldest-first, and the working copy of the dump file.
pub ghost struct ProjectV {
    pub name: Seq<char>,
    pub project_dir: Seq<char>,
    pub repo_path: Seq<char>,
    pub sql_path: Seq<char>,
    pub db_uri: Seq<char>,
    pub history: Seq<RevisionV>,
    pub working: Seq<u8>,
}

/// The repository path a project is bound to: `project_dir/project_name`.
pub open spec fn spec_repo_path(project_dir: Seq<char>, project_name: Seq<char>) -> Seq<char> {
    project_dir + "/"@ + project_name
}

/// The canonical relative name of the tracked dump file.
pub open spec fn spec_sql_path() -> Seq<char> {
    "dump.sql"@
}

/// The view every freshly constructed project has: paths derived from the
/// inputs, an empty history, an empty working copy.
pub open spec fn fresh_project(
    project_name: Seq<char>,
    project_dir: Seq<char>,
    db_uri: Seq<char>,
) -> ProjectV {
    ProjectV {
        name: project_name,
        project_dir: project_dir,
        repo_path: spec_repo_path(project_dir, project_name),
        sql_path: spec_sql_path(),
        db_uri: db_uri,
        history: Seq::empty(),
        working: Seq::empty(),
    }
}

/// The view after committing `dump` with `message`: the working copy holds
/// `dump`, and history grows by one revision whose identifier is the old
/// history's length and whose content is exactly `dump`.
pub open spec fn commit_step(v: ProjectV, message: Seq<char>, dump: Seq<u8>) -> ProjectV {
    ProjectV {
        history: v.history.push(
            (RevisionV { id: v.history.len(), message: message, content: dump }),
        ),
        working: dump,
        ..v
    }
}

/// The dump as of revision `id`, or nothing when no such revision exists.
pub open spec fn dump_at(v: ProjectV, id: nat) -> Option<Seq<u8>> {
    if id < v.history.len() {
        Some(v.history[id as int].content)
    } else {
        None
    }
}

/// The dump as of the most recent revision, or nothing on empty history.
pub open spec fn latest_dump(v: ProjectV) -> Option<Seq<u8>> {
    if v.history.len() > 0 {
        Some(v.history.last().content)
    } else {
        None
    }
}

/// One project: a name, the directory it lives under, the derived paths of
/// its repository and tracked dump file, its database connection string,
/// and the revision store bound to the repository path.
pub struct Project {
    name: String,
    project_dir: String,
    repo_path: String,
    sql_path: String,
    db_uri: String,
    repo: RevisionStore,
}

impl View for Project {
    type V = ProjectV;

    closed spec fn view(&self) -> ProjectV {
        ProjectV {
            name: self.name@,
            project_dir: self.project_dir@,
            repo_path: self.repo_path@,
            sql_path: self.sql_path@,
            db_uri: self.db_uri@,
            history: self.repo@.revisions,
            working: self.repo@.working,
        }
    }
}

impl Project {
    /// The repository is bound to `project_dir/project_name`, the tracked
    /// file carries the canonical dump name, every revision's identifier
    /// equals its position in history, and the project never spans a root
    /// other than the one it was constructed over.
    pub closed spec fn wf(&self) -> bool {
        &&& self.repo.wf()
        &&& self.repo@.path == self@.repo_path
        &&& self@.repo_path == spec_repo_path(self@.project_dir, self@.name)
        &&& self@.sql_path == spec_sql_path()
    }

    /// What `wf` guarantees of the visible view: the repository path is
    /// `project_dir/project_name`, the tracked file carries the canonical
    /// dump name, and every revision's identifier equals its position in
    /// history — so the revision holding `dump_at(self@, id)` is the one
    /// whose `id` field reads `id`, and `latest_dump` is `dump_at` of the
    /// last identifier handed out.
    pub proof fn lemma_wf_facts(&self)
        requires
            self.wf(),
        ensures
            self@.repo_path == spec_repo_path(self@.project_dir, self@.name),
            self@.sql_path == spec_sql_path(),
            forall|i: int|
                0 <= i < self@.history.len() ==> (#[trigger] self@.history[i].id) == i,
            self@.history.len() > 0 ==> latest_dump(self@) == dump_at(
                self@,
                (self@.history.len() - 1) as nat,
            ),
    {
    }

    /// Initializes the repository at `project_dir/project_name` when it is
    /// absent, then opens it; calling it again with the same arguments
    /// binds to the same repository path rather than a divergent one.
    pub fn create(input: &CreateInput) -> (r: Result<Project, RevisionStoreError>)
        ensures
            match r {
                Ok(p) => p.wf() && p@ == fresh_project(
                    input.project_name@,
                    input.project_dir@,
                    input.db_uri@,
                ),
                Err(_) => false,
            },
    {
        let repo_path = String::from_str(input.project_dir).concat("/").concat(
            input.project_name,
        );
        let _repo = RevisionStore::open_or_init(repo_path);
        Project::open(
            &OpenInput {
                project_dir: input.project_dir,
                project_name: input.project_name,
                db_uri: input.db_uri,
            },
        )
    }

    /// Binds to the repository at `project_dir/project_name` with the
    /// canonical tracked dump file, storing `db_uri` verbatim. An absent
    /// repository is treated as a fresh one, so open never fails: the
    /// in-memory store holds no prior history either way.
    pub fn open(input: &OpenInput) -> (r: Result<Project, RevisionStoreError>)
        ensures
            match r {
                Ok(p) => p.wf() && p@ == fresh_project(
                    input.project_name@,
                    input.project_dir@,
                    input.db_uri@,
                ),
                Err(_) => false,
            },
    {
        let repo_path = String::from_str(input.project_dir).concat("/").concat(
            input.project_name,
        );
        let repo = RevisionStore::open_or_init(repo_path.clone());
        Ok(
            Project {
                name: String::from_str(input.project_name),
                project_dir: String::from_str(input.project_dir),
                repo_path,
                sql_path: Project::default_sql_path(),
                db_uri: String::from_str(input.db_uri),
                repo,
            },
        )
    }

    /// The canonical relative name of the tracked dump file.
    pub fn default_sql_path() -> (r: String)
        ensures
            r@ == spec_sql_path(),
    {
        String::from_str("dump.sql")
    }

    /// The database connection string, verbatim as given at construction.
    pub fn db_uri(&self) -> (r: &str)
        ensures
            r@ == self@.db_uri,
    {
        self.db_uri.as_str()
    }

    /// The directory the project was created under.
    pub fn project_dir(&self) -> (r: &str)
        ensures
            r@ == self@.project_dir,
    {
        self.project_dir.as_str()
    }

    /// The path of the backing repository.
    pub fn repo_path(&self) -> (r: &str)
        ensures
            r@ == self@.repo_path,
    {
        self.repo_path.as_str()
    }

    /// The tracked dump file's path, relative to the repository.
    pub fn sql_path(&self) -> (r: &str)
        ensures
            r@ == self@.sql_path,
    {
        self.sql_path.as_str()
    }

    /// The project's name.
    pub fn name(&self) -> (r: &str)
        ensures
            r@ == self@.name,
    {
        self.name.as_str()
    }

    /// The recorded revisions, newest first, as of call time.
    pub fn commit_iterator(&self) -> (r: Result<Vec<Revision>, RevisionStoreError>)
        ensures
            match r {
                Ok(revs) => revs@.len() == self@.history.len() && forall|i: int|
                    0 <= i < revs@.len() ==> (#[trigger] revs@[i])@ == self@.history[
                        self@.history.len() - 1 - i
                    ],
                Err(_) => false,
            },
    {
        Ok(self.repo.revisions_newest_first())
    }

    /// The tracked dump file's absolute path: `repo_path/sql_path`.
    pub fn absolute_sql_path(&self) -> (r: String)
        ensures
            r@ == self@.repo_path + "/"@ + self@.sql_path,
    {
        String::from_str(self.repo_path.as_str()).concat("/").concat(self.sql_path.as_str())
    }

    /// Writes `dump` over the tracked file, then records one new revision
    /// holding exactly that content under `message`. The write lands in
    /// the working copy before the revision is recorded, so no revision
    /// ever references content that was not written.
    pub fn commit_dump(&mut self, message: &str, dump: Vec<u8>) -> (r: Result<
        (),
        RevisionStoreError,
    >)
        requires
            old(self).wf(),
        ensures
            final(self).wf(),
            r matches Ok(()),
            final(self)@ == commit_step(old(self)@, message@, dump@),
    {
        let sync = self.sync_dump(dump);
        match sync {
            Ok(()) => {},
            Err(e) => {
                return Err(e);
            },
        }
        self.repo.commit_file(message);
        Ok(())
    }

    /// The write-only half of `commit_dump`: overwrites the tracked file's
    /// working copy in full and records nothing.
    pub fn sync_dump(&mut self, dump: Vec<u8>) -> (r: Result<(), RevisionStoreError>)
        ensures
            r matches Ok(()),
            final(self)@ == (ProjectV { working: dump@, ..old(self)@ }),
            final(self).wf() == old(self).wf(),
    {
        self.repo.write_file(dump);
        Ok(())
    }

    /// The exact bytes of the tracked dump file as of revision `commit_id`;
    /// fails, naming the identifier, when no such revision exists.
    pub fn get_dump_at_commit(&self, commit_id: u64) -> (r: Result<Vec<u8>, RevisionStoreError>)
        requires
            self.wf(),
        ensures
            match r {
                Ok(d) => dump_at(self@, commit_id as nat) == Some(d@),
                Err(e) => dump_at(self@, commit_id as nat) is None && e == (
                RevisionStoreError::RevisionNotFound { id: commit_id }),
            },
    {
        self.repo.file_content_at(commit_id)
    }

    /// The dump as of the most recent revision; fails on a project with no
    /// recorded revision, never handing back bytes as a silent default.
    pub fn get_latest_dump(&self) -> (r: Result<Vec<u8>, RevisionStoreError>)
        requires
            self.wf(),
        ensures
            match r {
                Ok(d) => latest_dump(self@) == Some(d@),
                Err(e) => self@.history.len() == 0 && e == RevisionStoreError::NoRevisions,
            },
    {
        let last = self.repo.last_commit_id();
        match last {
            Ok(id) => self.get_dump_at_commit(id),
            Err(e) => Err(e),
        }
    }
}

/// A committed dump is what the latest revision then yields: after
/// `commit_dump(message, dump)` moves a project from `v` to
/// `commit_step(v, message, dump)`, the latest dump is exactly `dump`.
pub proof fn lemma_latest_after_commit(v: ProjectV, message: Seq<char>, dump: Seq<u8>)
    ensures
        latest_dump(commit_step(v, message, dump)) == Some(dump),
{
}

/// History is queryable, not latest-only: after two commits in a row, the
/// latest dump is the second content, and the revision recorded by the
/// first commit — whose identifier is the length of the history before it —
/// still yields the first content.
pub proof fn lemma_second_commit_keeps_first(
    v: ProjectV,
    m1: Seq<char>,
    a: Seq<u8>,
    m2: Seq<char>,
    b: Seq<u8>,
)
    ensures
        latest_dump(commit_step(commit_step(v, m1, a), m2, b)) == Some(b),
        dump_at(commit_step(commit_step(v, m1, a), m2, b), v.history.len()) == Some(a),
{
}

/// `create` is idempotent: two projects created from identical arguments
/// are bound to the same repository path and are equal in every observable
/// part, rather than divergent repositories.
pub proof fn lemma_create_idempotent(
    p1: ProjectV,
    p2: ProjectV,
    project_name: Seq<char>,
    project_dir: Seq<char>,
    db_uri: Seq<char>,
)
    requires
        p1 == fresh_project(project_name, project_dir, db_uri),
        p2 == fresh_project(project_name, project_dir, db_uri),
    ensures
        p1.repo_path == p2.repo_path,
        p1 == p2,
{
}

} // verus!
