//! Transport-neutral project identity for agent sessions.
//!
//! A context without a `project_id` is anonymous: it names a workspace and pins
//! no session to a project.

use crate::text::holds;
use crate::text::lemma_holds_between;
use vstd::prelude::*;
use vstd::string::*;

verus! {

/// A project and where it lies.
#[derive(Debug, PartialEq, Eq, Hash)]
pub struct ProjectContext {
    /// Stable identifier; empty for an anonymous context.
    pub project_id: String,
    /// Path of the project root.
    pub project_root: String,
}

/// The text of a [`ProjectContext`].
#[verifier::ext_equal]
pub struct ProjectView {
    pub project_id: Seq<char>,
    pub project_root: Seq<char>,
}

impl View for ProjectContext {
    type V = ProjectView;

    open spec fn view(&self) -> ProjectView {
        ProjectView { project_id: self.project_id@, project_root: self.project_root@ }
    }
}

impl Clone for ProjectContext {
    fn clone(&self) -> (r: Self)
        ensures
            r@ == self@,
    {
        ProjectContext {
            project_id: self.project_id.clone(),
            project_root: self.project_root.clone(),
        }
    }
}

/// What the file system says of a path.
pub enum RootProbe {
    /// It cannot be resolved: why.
    Unresolvable(String),
    /// It resolves to this path, which is no directory.
    NotDirectory(String),
    /// It resolves to this directory.
    Directory(String),
}

/// A path as it is quoted in messages.
pub uninterp spec fn quoted_path(s: Seq<char>) -> Seq<char>;

/// The path of text `s` as the `Debug` impl of `std::path::Path` writes it: in
/// quotation marks, escaped. Claims only that the same text always gives the
/// same form.
#[verifier::external_body]
fn quote_path(s: &str) -> (r: String)
    ensures
        r@ == quoted_path(s@),
{
    format!("{:?}", std::path::Path::new(s))
}

/// What the root of a project resolves to, or why it cannot be one.
pub open spec fn validated(root: Seq<char>, probe: RootProbe) -> Result<Seq<char>, Seq<char>> {
    if root.len() == 0 {
        Err("project_root is empty"@)
    } else {
        match probe {
            RootProbe::Unresolvable(why) => Err(
                "project_root "@ + quoted_path(root) + " cannot be canonicalized: "@ + why@,
            ),
            RootProbe::NotDirectory(path) => Err(
                "project_root "@ + quoted_path(path@) + " is not a directory"@,
            ),
            RootProbe::Directory(path) => Ok(path@),
        }
    }
}

impl ProjectView {
    /// The same project at what its root resolves to.
    pub open spec fn canonical(self, probe: RootProbe) -> Result<ProjectView, Seq<char>> {
        match validated(self.project_root, probe) {
            Ok(path) => Ok(ProjectView { project_id: self.project_id, project_root: path }),
            Err(why) => Err(why),
        }
    }
}

/// What a file system says of every path while nothing in it changes. The path
/// of a directory is absolute, so it is not empty, and resolves to itself.
pub open spec fn settled(files: spec_fn(Seq<char>) -> RootProbe) -> bool {
    forall|root: Seq<char>| #[trigger]
        files(root) matches RootProbe::Directory(path) ==> path@.len() > 0 && (files(
            path@,
        ) matches RootProbe::Directory(same) && same@ == path@)
}

impl ProjectContext {
    /// A context that names a workspace only.
    pub fn anonymous(project_root: String) -> (r: Self)
        ensures
            r@ == (ProjectView { project_id: seq![], project_root: project_root@ }),
    {
        let r = ProjectContext { project_id: String::new(), project_root };
        assert(r@.project_id =~= seq![]);
        r
    }

    /// Whether the context pins no project.
    pub fn is_anonymous(&self) -> (r: bool)
        ensures
            r == (self@.project_id.len() == 0),
    {
        self.project_id.as_str().is_empty()
    }

    /// The resolved root, given what the file system says of `project_root`.
    pub fn validate(&self, probe: &RootProbe) -> (r: Result<String, String>)
        ensures
            match validated(self@.project_root, *probe) {
                Ok(path) => r matches Ok(p) && p@ == path,
                Err(why) => r matches Err(e) && e@ == why,
            },
    {
        if self.project_root.as_str().is_empty() {
            return Err("project_root is empty".to_owned());
        }
        match probe {
            RootProbe::Unresolvable(why) => {
                let shown = quote_path(self.project_root.as_str());
                let mut e = "project_root ".to_owned();
                e.append(shown.as_str());
                e.append(" cannot be canonicalized: ");
                e.append(why.as_str());
                Err(e)
            },
            RootProbe::NotDirectory(path) => {
                let shown = quote_path(path.as_str());
                let mut e = "project_root ".to_owned();
                e.append(shown.as_str());
                e.append(" is not a directory");
                Err(e)
            },
            RootProbe::Directory(path) => Ok(path.clone()),
        }
    }

    /// The same project at its resolved root.
    pub fn canonicalized(&self, probe: &RootProbe) -> (r: Result<Self, String>)
        ensures
            match self@.canonical(*probe) {
                Ok(project) => r matches Ok(c) && c@ == project,
                Err(why) => r matches Err(e) && e@ == why,
            },
    {
        match self.validate(probe) {
            Ok(path) => Ok(
                ProjectContext { project_id: self.project_id.clone(), project_root: path },
            ),
            Err(e) => Err(e),
        }
    }
}

/// Canonicalizing is idempotent: while the file system stays as it is, a
/// canonicalized context is canonicalized to itself. It keeps its project, and
/// its root is what the first context is validated to.
pub proof fn law_canonicalizing_is_idempotent(
    p: ProjectView,
    q: ProjectView,
    files: spec_fn(Seq<char>) -> RootProbe,
)
    requires
        settled(files),
        p.canonical(files(p.project_root)) == Ok::<ProjectView, Seq<char>>(q),
    ensures
        q.canonical(files(q.project_root)) == Ok::<ProjectView, Seq<char>>(q),
        q.project_id == p.project_id,
        validated(p.project_root, files(p.project_root)) == Ok::<Seq<char>, Seq<char>>(
            q.project_root,
        ),
{
}

/// A root that is a directory is validated to what it resolves to. One that is
/// not, or resolves to nothing, is refused, and so is an empty one, whatever
/// the file system says.
pub proof fn law_only_directories_are_projects(p: ProjectView, probe: RootProbe)
    ensures
        p.canonical(probe) is Ok <==> p.project_root.len() > 0 && probe is Directory,
        p.canonical(probe) matches Ok(q) ==> q.project_id == p.project_id && (
        probe matches RootProbe::Directory(path) && q.project_root == path@),
        validated(p.project_root, probe) is Ok <==> p.canonical(probe) is Ok,
{
}

/// A refusal says which path it is about, and why it resolves to nothing.
pub proof fn law_refusals_name_the_path(root: Seq<char>, probe: RootProbe)
    requires
        root.len() > 0,
    ensures
        probe matches RootProbe::Unresolvable(why) ==> (validated(root, probe) matches Err(e)
            && holds(e, quoted_path(root)) && holds(e, why@)),
        probe matches RootProbe::NotDirectory(path) ==> (validated(root, probe) matches Err(e)
            && holds(e, quoted_path(path@)) && holds(e, "is not a directory"@)),
{
    match probe {
        RootProbe::Unresolvable(why) => {
            lemma_unresolvable(quoted_path(root), why@);
        },
        RootProbe::NotDirectory(path) => {
            lemma_no_directory(quoted_path(path@));
        },
        RootProbe::Directory(_) => {},
    }
}

proof fn lemma_unresolvable(shown: Seq<char>, why: Seq<char>)
    ensures
        holds("project_root "@ + shown + " cannot be canonicalized: "@ + why, shown),
        holds("project_root "@ + shown + " cannot be canonicalized: "@ + why, why),
{
    let (a, b) = ("project_root "@, " cannot be canonicalized: "@);
    lemma_holds_between(a, shown, b + why);
    assert(a + shown + (b + why) =~= a + shown + b + why);
    lemma_holds_between(a + shown + b, why, seq![]);
    assert(a + shown + b + why + Seq::<char>::empty() =~= a + shown + b + why);
}

proof fn lemma_no_directory(shown: Seq<char>)
    ensures
        holds("project_root "@ + shown + " is not a directory"@, shown),
        holds("project_root "@ + shown + " is not a directory"@, "is not a directory"@),
{
    let (a, b) = ("project_root "@, " is not a directory"@);
    lemma_holds_between(a, shown, b);
    reveal_strlit(" is not a directory");
    reveal_strlit("is not a directory");
    assert(b =~= seq![' '] + "is not a directory"@);
    lemma_holds_between(a + shown + seq![' '], "is not a directory"@, seq![]);
    assert(a + shown + seq![' '] + "is not a directory"@ + Seq::<char>::empty() =~= a + shown + b);
}

} // verus!
