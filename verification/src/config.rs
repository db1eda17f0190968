//! The named-project registry: a mapping from project name to project
//! metadata, keyed by name with at most one entry per name (last write
//! wins), looked up by name and persisted as one structured text file.

use vstd::prelude::*;

verus! {

/// Failure of a registry lookup, surfaced with the offending name.
#[derive(Debug, PartialEq, Eq)]
pub enum ProjectConfigError {
    ProjectConfigDoesNotExist { name: String },
}

impl ProjectConfigError {
    /// A descriptive message naming the project that was not found.
    pub fn message(&self) -> (r: String)
        ensures
            match self {
                ProjectConfigError::ProjectConfigDoesNotExist { name } => r@ == "Project config "@
                    + name@ + " does not exist, please check config or create it"@,
            },
    {
        match self {
            ProjectConfigError::ProjectConfigDoesNotExist { name } => String::from_str(
                "Project config ",
            ).concat(name.as_str()).concat(" does not exist, please check config or create it"),
        }
    }
}

/// One project's stored metadata; its identity is its name.
#[derive(Debug)]
pub struct ProjectConfig {
    pub name: String,
    pub db_uri: String,
}

/// Mathematical image of a `ProjectConfig`.
pub ghost struct ProjectConfigV {
    pub name: Seq<char>,
    pub db_uri: Seq<char>,
}

impl View for ProjectConfig {
    type V = ProjectConfigV;

    open spec fn view(&self) -> ProjectConfigV {
        ProjectConfigV { name: self.name@, db_uri: self.db_uri@ }
    }
}

/// Whether some entry of `s` carries the name `n`.
pub open spec fn has_name(s: Seq<ProjectConfigV>, n: Seq<char>) -> bool {
    exists|i: int| 0 <= i < s.len() && (#[trigger] s[i]).name == n
}

/// At most one entry per name.
pub open spec fn unique_names(s: Seq<ProjectConfigV>) -> bool {
    forall|i: int, j: int|
        0 <= i < j < s.len() ==> (#[trigger] s[i]).name != (#[trigger] s[j]).name
}

/// The mapping a registry denotes: each entry's name bound to its record,
/// a later entry winning over an earlier one of the same name.
pub open spec fn as_map(s: Seq<ProjectConfigV>) -> Map<Seq<char>, ProjectConfigV>
    decreases s.len(),
{
    if s.len() == 0 {
        Map::empty()
    } else {
        as_map(s.drop_last()).insert(s.last().name, s.last())
    }
}

/// A name is bound in the denoted mapping exactly when some entry
/// carries it.
pub proof fn lemma_as_map_domain(s: Seq<ProjectConfigV>, n: Seq<char>)
    ensures
        as_map(s).contains_key(n) == has_name(s, n),
    decreases s.len(),
{
    if s.len() > 0 {
        lemma_as_map_domain(s.drop_last(), n);
        if s.last().name == n {
            assert(s[s.len() - 1].name == n);
        } else {
            if has_name(s.drop_last(), n) {
                let i = choose|i: int|
                    0 <= i < s.drop_last().len() && (#[trigger] s.drop_last()[i]).name == n;
                assert(s[i].name == n);
            }
            if has_name(s, n) {
                let i = choose|i: int| 0 <= i < s.len() && (#[trigger] s[i]).name == n;
                assert(i < s.len() - 1);
                assert(s.drop_last()[i].name == n);
            }
        }
    }
}

/// Overwriting the one entry that carries `c.name` changes the denoted
/// mapping exactly as inserting the binding does.
pub proof fn lemma_update_as_map(s: Seq<ProjectConfigV>, i: int, c: ProjectConfigV)
    requires
        unique_names(s),
        0 <= i < s.len(),
        s[i].name == c.name,
    ensures
        as_map(s.update(i, c)) == as_map(s).insert(c.name, c),
    decreases s.len(),
{
    let t = s.update(i, c);
    if i == s.len() - 1 {
        assert(t.drop_last() =~= s.drop_last());
        assert(t.last() == c);
        assert(as_map(s).insert(c.name, c) =~= as_map(s.drop_last()).insert(c.name, c));
    } else {
        assert(t.drop_last() =~= s.drop_last().update(i, c));
        assert(t.last() == s.last());
        assert(unique_names(s.drop_last())) by {
            assert forall|p: int, q: int|
                0 <= p < q < s.drop_last().len() implies (#[trigger] s.drop_last()[p]).name != (
            #[trigger] s.drop_last()[q]).name by {
                assert(s[p].name != s[q].name);
            }
        }
        assert(s.drop_last()[i] == s[i]);
        lemma_update_as_map(s.drop_last(), i, c);
        assert(s.last().name != c.name);
        assert(as_map(s.drop_last()).insert(c.name, c).insert(s.last().name, s.last()) =~= as_map(
            s.drop_last(),
        ).insert(s.last().name, s.last()).insert(c.name, c));
    }
}

/// Under unique names, the entry that carries a name is the binding the
/// denoted mapping holds for that name, so a lookup that returns an entry
/// returns the mapping's value, never a default.
pub proof fn lemma_lookup_mapping(s: Seq<ProjectConfigV>, i: int)
    requires
        unique_names(s),
        0 <= i < s.len(),
    ensures
        as_map(s)[s[i].name] == s[i],
    decreases s.len(),
{
    if i < s.len() - 1 {
        assert(unique_names(s.drop_last())) by {
            assert forall|p: int, q: int|
                0 <= p < q < s.drop_last().len() implies (#[trigger] s.drop_last()[p]).name != (
            #[trigger] s.drop_last()[q]).name by {
                assert(s[p].name != s[q].name);
            }
        }
        assert(s.drop_last()[i] == s[i]);
        lemma_lookup_mapping(s.drop_last(), i);
        assert(s.last().name != s[i].name);
    }
}

/// Registering overwrites rather than duplicates, seen as a mapping:
/// whichever branch of `register_project_config`'s contract applied, the
/// registry afterwards denotes the old mapping with the one binding for
/// `c.name` inserted, never a second entry of that name.
pub proof fn lemma_register_mapping(
    s: Seq<ProjectConfigV>,
    t: Seq<ProjectConfigV>,
    c: ProjectConfigV,
)
    requires
        unique_names(s),
        has_name(s, c.name) ==> exists|i: int|
            0 <= i < s.len() && (#[trigger] s[i]).name == c.name && t == s.update(i, c),
        !has_name(s, c.name) ==> t == s.push(c),
    ensures
        as_map(t) == as_map(s).insert(c.name, c),
{
    if has_name(s, c.name) {
        let i = choose|i: int|
            0 <= i < s.len() && (#[trigger] s[i]).name == c.name && t == s.update(i, c);
        lemma_update_as_map(s, i, c);
    } else {
        assert(t.drop_last() =~= s);
        assert(t.last() == c);
    }
}

/// The registry of named projects, in insertion order, at most one entry
/// per name. Its view is the sequence of entry views.
pub struct JabConfig {
    pub projects: Vec<ProjectConfig>,
}

impl View for JabConfig {
    type V = Seq<ProjectConfigV>;

    open spec fn view(&self) -> Seq<ProjectConfigV> {
        Seq::new(self.projects@.len(), |i: int| self.projects@[i]@)
    }
}

impl JabConfig {
    /// At most one entry per name.
    pub open spec fn wf(&self) -> bool {
        unique_names(self@)
    }

    /// A registry with no entry.
    pub fn new() -> (r: JabConfig)
        ensures
            r.wf(),
            r@ == Seq::<ProjectConfigV>::empty(),
    {
        let r = JabConfig { projects: Vec::new() };
        proof {
            assert(r@ =~= Seq::<ProjectConfigV>::empty());
        }
        r
    }

    /// The path of the persisted registry file under the given base
    /// directory: `jab_dir/config`.
    pub fn get_path(jab_dir: &str) -> (r: String)
        ensures
            r@ == jab_dir@ + "/"@ + "config"@,
    {
        String::from_str(jab_dir).concat("/").concat("config")
    }

    /// Inserts `project_config` under its name: an entry already carrying
    /// that name is overwritten in place, so the registry never holds two
    /// entries of one name and its size stays constant on re-registration;
    /// a new name is appended. In-memory only: nothing is persisted.
    pub fn register_project_config(&mut self, project_config: ProjectConfig)
        requires
            old(self).wf(),
        ensures
            final(self).wf(),
            has_name(old(self)@, project_config@.name) ==> exists|i: int|
                0 <= i < old(self)@.len() && (#[trigger] old(self)@[i]).name
                    == project_config@.name && final(self)@ == old(self)@.update(
                    i,
                    project_config@,
                ),
            !has_name(old(self)@, project_config@.name) ==> final(self)@ == old(self)@.push(
                project_config@,
            ),
            final(self)@.len() == if has_name(old(self)@, project_config@.name) {
                old(self)@.len()
            } else {
                old(self)@.len() + 1
            },
    {
        let ghost s0 = self@;
        let mut i: usize = 0;
        while i < self.projects.len()
            invariant
                self@ == s0,
                s0 == old(self)@,
                unique_names(s0),
                i <= s0.len(),
                forall|j: int| 0 <= j < i ==> (#[trigger] s0[j]).name != project_config@.name,
        decreases s0.len() - i,
        {
            if self.projects[i].name == project_config.name {
                proof {
                    assert(s0[i as int].name == project_config@.name);
                    assert(has_name(s0, project_config@.name));
                }
                let ghost cfg = project_config@;
                self.projects.set(i, project_config);
                proof {
                    assert(unique_names(s0));
                    assert(self@ =~= s0.update(i as int, cfg));
                    assert forall|p: int, q: int|
                        0 <= p < q < self@.len() implies (#[trigger] self@[p]).name != (
                    #[trigger] self@[q]).name by {
                        assert(s0[p].name != s0[q].name);
                        if p == i as int {
                            assert(self@[p].name == cfg.name);
                            assert(cfg.name == s0[p].name);
                        }
                        if q == i as int {
                            assert(self@[q].name == cfg.name);
                            assert(cfg.name == s0[q].name);
                        }
                    }
                    assert((i as int) < old(self)@.len() && (old(self)@[i as int]).name
                        == cfg.name && self@ == old(self)@.update(i as int, cfg));
                }
                return ;
            }
            i = i + 1;
        }
        proof {
            assert(!has_name(s0, project_config@.name));
        }
        self.projects.push(project_config);
        proof {
            assert(self@ =~= s0.push(project_config@));
            assert forall|p: int, q: int|
                0 <= p < q < self@.len() implies (#[trigger] self@[p]).name != (
            #[trigger] self@[q]).name by {
                if q < s0.len() {
                    assert(s0[p].name != s0[q].name);
                } else {
                    assert(self@[q] == project_config@);
                    assert(s0[p].name != project_config@.name);
                }
            }
        }
    }

    /// The stored metadata under `name`, or a `ProjectConfigDoesNotExist`
    /// error carrying that name when the registry holds no such entry —
    /// never a default.
    pub fn project_config(&self, name: &str) -> (r: Result<&ProjectConfig, ProjectConfigError>)
        requires
            self.wf(),
        ensures
            match r {
                Ok(c) => has_name(self@, name@) && c@.name == name@ && exists|i: int|
                    0 <= i < self@.len() && #[trigger] self@[i] == c@,
                Err(e) => !has_name(self@, name@) && (e matches
                    ProjectConfigError::ProjectConfigDoesNotExist { name: missing } && missing@
                    == name@),
            },
    {
        let key = String::from_str(name);
        let mut i: usize = 0;
        while i < self.projects.len()
            invariant
                key@ == name@,
                i <= self@.len(),
                forall|j: int| 0 <= j < i ==> (#[trigger] self@[j]).name != name@,
            decreases self@.len() - i,
        {
            if self.projects[i].name == key {
                proof {
                    assert(self@[i as int].name == name@);
                }
                return Ok(&self.projects[i]);
            }
            i = i + 1;
        }
        Err(ProjectConfigError::ProjectConfigDoesNotExist { name: key })
    }
}

} // verus!
