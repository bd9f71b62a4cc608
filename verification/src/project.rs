//! The manifest's data model: one project per version-controlled source tree,
//! together with its post-checkout file actions. The ordering invariant —
//! at most one `DeleteProject` action, always sorted to the end — is stated
//! here and proved of the normalization.

use vstd::prelude::*;

verus! {

/// Fallback revision when neither the project nor the manifest names one.
pub const DEFAULT_REVISION: &'static str = "main";

/// Fallback host when neither the project nor the manifest names one.
pub const DEFAULT_HOST: &'static str = "github.com";

/// A file action copies or links data out of a project's checkout.
#[derive(Debug)]
pub enum ProjectFileAction {
    LinkFile(String, String),
    CopyFile(String, String),
    CopyDir(String, String),
}

/// A post-checkout action: either a file action, or deleting the whole
/// checkout directory once the file actions ran.
#[derive(Debug)]
pub enum ProjectAction {
    FileAction(ProjectFileAction),
    DeleteProject,
}

/// Mathematical model of a [`ProjectAction`].
pub enum ActionModel {
    LinkFile(Seq<char>, Seq<char>),
    CopyFile(Seq<char>, Seq<char>),
    CopyDir(Seq<char>, Seq<char>),
    DeleteProject,
}

impl View for ProjectAction {
    type V = ActionModel;

    open spec fn view(&self) -> ActionModel {
        match self {
            ProjectAction::FileAction(ProjectFileAction::LinkFile(s, d)) => ActionModel::LinkFile(
                s@,
                d@,
            ),
            ProjectAction::FileAction(ProjectFileAction::CopyFile(s, d)) => ActionModel::CopyFile(
                s@,
                d@,
            ),
            ProjectAction::FileAction(ProjectFileAction::CopyDir(s, d)) => ActionModel::CopyDir(
                s@,
                d@,
            ),
            ProjectAction::DeleteProject => ActionModel::DeleteProject,
        }
    }
}

impl DeepView for ProjectAction {
    type V = ActionModel;

    open spec fn deep_view(&self) -> ActionModel {
        self.view()
    }
}

/// One version-controlled source tree plus its post-checkout actions.
#[derive(Debug)]
pub struct Project {
    uri: String,
    name: String,
    revision: String,
    path: String,
    actions: Vec<ProjectAction>,
}

/// Mathematical model of a [`Project`].
pub struct ProjectModel {
    pub uri: Seq<char>,
    pub name: Seq<char>,
    pub revision: Seq<char>,
    pub path: Seq<char>,
    pub actions: Seq<ActionModel>,
}

impl View for Project {
    type V = ProjectModel;

    closed spec fn view(&self) -> ProjectModel {
        ProjectModel {
            uri: self.uri@,
            name: self.name@,
            revision: self.revision@,
            path: self.path@,
            actions: self.actions.deep_view(),
        }
    }
}

impl DeepView for Project {
    type V = ProjectModel;

    open spec fn deep_view(&self) -> ProjectModel {
        self.view()
    }
}

/// The subsequence of file actions, in their original order.
pub open spec fn sp_file_part(s: Seq<ActionModel>) -> Seq<ActionModel>
    decreases s.len(),
{
    if s.len() == 0 {
        s
    } else {
        let rest = sp_file_part(s.drop_last());
        if s.last() is DeleteProject {
            rest
        } else {
            rest.push(s.last())
        }
    }
}

/// The subsequence of `DeleteProject` actions, in their original order.
pub open spec fn sp_delete_part(s: Seq<ActionModel>) -> Seq<ActionModel>
    decreases s.len(),
{
    if s.len() == 0 {
        s
    } else {
        let rest = sp_delete_part(s.drop_last());
        if s.last() is DeleteProject {
            rest.push(s.last())
        } else {
            rest
        }
    }
}

/// Normal form of an action list: every file action first, in order, then
/// the `DeleteProject` actions.
pub open spec fn sp_normalize_actions(s: Seq<ActionModel>) -> Seq<ActionModel> {
    sp_file_part(s) + sp_delete_part(s)
}

/// True when some action in `s` is `DeleteProject`.
pub open spec fn sp_has_delete(s: Seq<ActionModel>) -> bool {
    exists|i: int| 0 <= i < s.len() && s[i] is DeleteProject
}

/// The action a manifest tag with `src`/`dest` attributes stands for, if the
/// tag names a file action.
pub open spec fn sp_file_action_of(tag: Seq<char>, src: Seq<char>, dst: Seq<char>) -> Option<
    ActionModel,
> {
    if tag == "linkfile"@ {
        Some(ActionModel::LinkFile(src, dst))
    } else if tag == "copyfile"@ {
        Some(ActionModel::CopyFile(src, dst))
    } else if tag == "copydir"@ {
        Some(ActionModel::CopyDir(src, dst))
    } else {
        None
    }
}

/// The derived clone-or-fetch URLs of a project.
pub open spec fn sp_https_url(p: ProjectModel) -> Seq<char> {
    "https://"@ + p.uri + "/"@ + p.name + ".git"@
}

pub open spec fn sp_ssh_url(p: ProjectModel) -> Seq<char> {
    "git@"@ + p.uri + ":"@ + p.name + ".git"@
}

pub proof fn lemma_parts_push(s: Seq<ActionModel>, a: ActionModel)
    ensures
        sp_file_part(s.push(a)) == if a is DeleteProject {
            sp_file_part(s)
        } else {
            sp_file_part(s).push(a)
        },
        sp_delete_part(s.push(a)) == if a is DeleteProject {
            sp_delete_part(s).push(a)
        } else {
            sp_delete_part(s)
        },
{
    assert(s.push(a).drop_last() =~= s);
    assert(s.push(a).last() == a);
}

pub proof fn lemma_parts_add(a: Seq<ActionModel>, b: Seq<ActionModel>)
    ensures
        sp_file_part(a + b) == sp_file_part(a) + sp_file_part(b),
        sp_delete_part(a + b) == sp_delete_part(a) + sp_delete_part(b),
    decreases b.len(),
{
    if b.len() == 0 {
        assert(a + b =~= a);
        assert(sp_file_part(a) + sp_file_part(b) =~= sp_file_part(a));
        assert(sp_delete_part(a) + sp_delete_part(b) =~= sp_delete_part(a));
    } else {
        lemma_parts_add(a, b.drop_last());
        assert((a + b).drop_last() =~= a + b.drop_last());
        assert((a + b).last() == b.last());
        if b.last() is DeleteProject {
            assert(sp_delete_part(a) + sp_delete_part(b) =~= (sp_delete_part(a) + sp_delete_part(
                b.drop_last(),
            )).push(b.last()));
            assert(sp_file_part(a) + sp_file_part(b) =~= sp_file_part(a) + sp_file_part(
                b.drop_last(),
            ));
        } else {
            assert(sp_file_part(a) + sp_file_part(b) =~= (sp_file_part(a) + sp_file_part(
                b.drop_last(),
            )).push(b.last()));
            assert(sp_delete_part(a) + sp_delete_part(b) =~= sp_delete_part(a) + sp_delete_part(
                b.drop_last(),
            ));
        }
    }
}

/// Every element of the file part is a file action; every element of the
/// delete part is a delete; together they have all the elements.
pub proof fn lemma_parts_shape(s: Seq<ActionModel>)
    ensures
        forall|i: int|
            0 <= i < sp_file_part(s).len() ==> !(#[trigger] sp_file_part(s)[i] is DeleteProject),
        forall|i: int|
            0 <= i < sp_delete_part(s).len() ==> #[trigger] sp_delete_part(s)[i] is DeleteProject,
        sp_file_part(s).len() + sp_delete_part(s).len() == s.len(),
    decreases s.len(),
{
    if s.len() > 0 {
        lemma_parts_shape(s.drop_last());
    }
}

/// A sequence without deletes is its own file part.
pub proof fn lemma_parts_all_files(s: Seq<ActionModel>)
    requires
        forall|i: int| 0 <= i < s.len() ==> !(#[trigger] s[i] is DeleteProject),
    ensures
        sp_file_part(s) == s,
        sp_delete_part(s) == Seq::<ActionModel>::empty(),
    decreases s.len(),
{
    if s.len() == 0 {
        assert(sp_delete_part(s) =~= Seq::<ActionModel>::empty());
    } else {
        lemma_parts_all_files(s.drop_last());
        assert(sp_file_part(s) =~= s);
    }
}

/// `sp_has_delete` agrees with the delete part being non-empty.
pub proof fn lemma_has_delete_iff(s: Seq<ActionModel>)
    ensures
        sp_has_delete(s) <==> sp_delete_part(s).len() >= 1,
    decreases s.len(),
{
    if s.len() > 0 {
        lemma_has_delete_iff(s.drop_last());
        if s.last() is DeleteProject {
            assert(s[s.len() - 1] is DeleteProject);
        } else {
            if sp_has_delete(s.drop_last()) {
            } else {
                if sp_has_delete(s) {
                    let i = choose|i: int| 0 <= i < s.len() && s[i] is DeleteProject;
                    assert(s.drop_last()[i] is DeleteProject);
                }
            }
        }
    }
}

/// Action ordering law: in the normal form of an action list that holds at
/// most one `DeleteProject`, every position before the delete part holds a
/// file action, every position after holds a delete, no action is lost, and
/// there is still at most one delete.
pub proof fn lemma_delete_project_ordering(s: Seq<ActionModel>)
    requires
        sp_delete_part(s).len() <= 1,
    ensures
        sp_normalize_actions(s).len() == s.len(),
        forall|i: int|
            0 <= i < sp_file_part(s).len() ==> !(#[trigger] sp_normalize_actions(s)[i]
                is DeleteProject),
        forall|i: int|
            sp_file_part(s).len() <= i < sp_normalize_actions(s).len()
                ==> #[trigger] sp_normalize_actions(s)[i] is DeleteProject,
        sp_delete_part(sp_normalize_actions(s)) == sp_delete_part(s),
{
    lemma_parts_shape(s);
    lemma_parts_add(sp_file_part(s), sp_delete_part(s));
    lemma_parts_all_files(sp_file_part(s));
    let d = sp_delete_part(s);
    assert forall|i: int| 0 <= i < d.len() implies #[trigger] d[i] is DeleteProject by {
        lemma_parts_shape(s);
    }
    lemma_parts_all_deletes(d);
    assert(sp_delete_part(sp_normalize_actions(s)) =~= sp_delete_part(s));
}

/// A sequence of deletes is its own delete part.
pub proof fn lemma_parts_all_deletes(s: Seq<ActionModel>)
    requires
        forall|i: int| 0 <= i < s.len() ==> #[trigger] s[i] is DeleteProject,
    ensures
        sp_delete_part(s) == s,
        sp_file_part(s) == Seq::<ActionModel>::empty(),
    decreases s.len(),
{
    if s.len() == 0 {
        assert(sp_file_part(s) =~= Seq::<ActionModel>::empty());
    } else {
        lemma_parts_all_deletes(s.drop_last());
        assert(sp_delete_part(s) =~= s);
    }
}

impl Clone for ProjectFileAction {
    fn clone(&self) -> (res: Self)
        ensures
            res == *self,
    {
        match self {
            ProjectFileAction::LinkFile(s, d) => ProjectFileAction::LinkFile(s.clone(), d.clone()),
            ProjectFileAction::CopyFile(s, d) => ProjectFileAction::CopyFile(s.clone(), d.clone()),
            ProjectFileAction::CopyDir(s, d) => ProjectFileAction::CopyDir(s.clone(), d.clone()),
        }
    }
}

impl Clone for ProjectAction {
    fn clone(&self) -> (res: Self)
        ensures
            res == *self,
    {
        match self {
            ProjectAction::FileAction(f) => ProjectAction::FileAction(f.clone()),
            ProjectAction::DeleteProject => ProjectAction::DeleteProject,
        }
    }
}

impl Project {
    /// Well-formedness: at most one `DeleteProject` action. Constructors
    /// establish it and every method preserves it.
    pub open spec fn wf(&self) -> bool {
        sp_delete_part(self@.actions).len() <= 1
    }

    pub fn new(uri: String, name: String, revision: String, path: String) -> (r: Self)
        ensures
            r@.uri == uri@,
            r@.name == name@,
            r@.revision == revision@,
            r@.path == path@,
            r@.actions == Seq::<ActionModel>::empty(),
            r.wf(),
    {
        let r = Self { uri, name, revision, path, actions: Vec::new() };
        proof {
            assert(r.actions.deep_view() =~= Seq::<ActionModel>::empty());
        }
        r
    }

    /// A copy of this project with its revision replaced by `commit_id`;
    /// every other field, the actions included, is preserved.
    pub fn pin(&self, commit_id: String) -> (r: Self)
        ensures
            r@.uri == self@.uri,
            r@.name == self@.name,
            r@.revision == commit_id@,
            r@.path == self@.path,
            r@.actions == self@.actions,
            self.wf() ==> r.wf(),
    {
        let mut actions: Vec<ProjectAction> = Vec::new();
        let mut i: usize = 0;
        while i < self.actions.len()
            invariant
                i <= self.actions.len(),
                actions.deep_view() =~= self.actions.deep_view().subrange(0, i as int),
            decreases self.actions.len() - i,
        {
            let a = self.actions[i].clone();
            let ghost pre = actions@;
            let ghost predv = actions.deep_view();
            proof {
                broadcast use crate::text::lemma_deep_view_len, crate::text::lemma_deep_view_index;

                assert(a.deep_view() == self.actions.deep_view()[i as int]);
                assert(predv.len() == i);
            }
            actions.push(a);
            proof {
                broadcast use crate::text::lemma_deep_view_len, crate::text::lemma_deep_view_index;

                assert forall|k: int| 0 <= k < i + 1 implies actions.deep_view()[k]
                    == self.actions.deep_view().subrange(0, i + 1)[k] by {
                    if k < i {
                        assert(actions@[k] == pre[k]);
                        assert(predv[k] == pre[k].deep_view());
                        assert(predv[k] == self.actions.deep_view().subrange(0, i as int)[k]);
                    } else {
                        assert(actions@[k] == a);
                    }
                }
                assert(actions.deep_view() =~= self.actions.deep_view().subrange(0, i + 1));
            }
            i += 1;
        }
        proof {
            assert(actions.deep_view() =~= self.actions.deep_view());
        }
        Self {
            uri: self.uri.clone(),
            name: self.name.clone(),
            revision: commit_id,
            path: self.path.clone(),
            actions,
        }
    }

    /// True when `action` names one of the three file-action manifest tags.
    pub fn is_file_action(&self, action: &str) -> (r: bool)
        ensures
            r == sp_file_action_of(action@, Seq::<char>::empty(), Seq::<char>::empty()) is Some,
    {
        crate::text::str_eq(action, "linkfile") || crate::text::str_eq(action, "copyfile")
            || crate::text::str_eq(action, "copydir")
    }

    /// Append the file action `action` names; an unknown tag leaves the
    /// project unchanged.
    pub fn add_file_action(&mut self, action: &str, src: String, dst: String)
        ensures
            final(self)@.uri == old(self)@.uri,
            final(self)@.name == old(self)@.name,
            final(self)@.revision == old(self)@.revision,
            final(self)@.path == old(self)@.path,
            final(self)@.actions == match sp_file_action_of(action@, src@, dst@) {
                Some(a) => old(self)@.actions.push(a),
                None => old(self)@.actions,
            },
            old(self).wf() ==> final(self).wf(),
    {
        let ghost old_dv = self.actions.deep_view();
        if crate::text::str_eq(action, "linkfile") {
            let a = ProjectAction::FileAction(ProjectFileAction::LinkFile(src, dst));
            let ghost am = a@;
            self.actions.push(a);
            proof {
                assert(self.actions.deep_view() =~= old_dv.push(am));
                lemma_parts_push(old_dv, am);
            }
        } else if crate::text::str_eq(action, "copyfile") {
            let a = ProjectAction::FileAction(ProjectFileAction::CopyFile(src, dst));
            let ghost am = a@;
            self.actions.push(a);
            proof {
                assert(self.actions.deep_view() =~= old_dv.push(am));
                lemma_parts_push(old_dv, am);
            }
        } else if crate::text::str_eq(action, "copydir") {
            let a = ProjectAction::FileAction(ProjectFileAction::CopyDir(src, dst));
            let ghost am = a@;
            self.actions.push(a);
            proof {
                assert(self.actions.deep_view() =~= old_dv.push(am));
                lemma_parts_push(old_dv, am);
            }
        }
    }

    /// True when `action` is the delete-project manifest tag.
    pub fn is_delete_project(&self, action: &str) -> (r: bool)
        ensures
            r == (action@ == "delete_project"@),
    {
        crate::text::str_eq(action, "delete_project")
    }

    /// Append a `DeleteProject` action unless one is already present, so
    /// that no project ever holds a duplicate.
    pub fn add_delete_project(&mut self)
        requires
            old(self).wf(),
        ensures
            final(self)@.uri == old(self)@.uri,
            final(self)@.name == old(self)@.name,
            final(self)@.revision == old(self)@.revision,
            final(self)@.path == old(self)@.path,
            final(self)@.actions == if sp_has_delete(old(self)@.actions) {
                old(self)@.actions
            } else {
                old(self)@.actions.push(ActionModel::DeleteProject)
            },
            final(self).wf(),
    {
        let ghost old_dv = self.actions.deep_view();
        let mut i: usize = 0;
        let mut found = false;
        while i < self.actions.len()
            invariant
                i <= self.actions.len(),
                old_dv == self.actions.deep_view(),
                found <==> exists|k: int| 0 <= k < i && old_dv[k] is DeleteProject,
            decreases self.actions.len() - i,
        {
            match &self.actions[i] {
                ProjectAction::DeleteProject => {
                    proof {
                        assert(old_dv[i as int] is DeleteProject);
                    }
                    found = true;
                },
                _ => {},
            }
            i += 1;
        }
        proof {
            lemma_has_delete_iff(old_dv);
        }
        if !found {
            proof {
                assert(forall|k: int| 0 <= k < old_dv.len() ==> !(#[trigger] old_dv[k]
                    is DeleteProject));
                lemma_parts_all_files(old_dv);
            }
            self.actions.push(ProjectAction::DeleteProject);
            proof {
                assert(self.actions.deep_view() =~= old_dv.push(ActionModel::DeleteProject));
                lemma_parts_push(old_dv, ActionModel::DeleteProject);
            }
        }
    }

    /// Bring the action list to normal form: file actions first, in their
    /// original order, then the delete action.
    pub fn sort_actions(&mut self)
        requires
            old(self).wf(),
        ensures
            final(self)@.uri == old(self)@.uri,
            final(self)@.name == old(self)@.name,
            final(self)@.revision == old(self)@.revision,
            final(self)@.path == old(self)@.path,
            final(self)@.actions == sp_normalize_actions(old(self)@.actions),
            final(self).wf(),
    {
        let ghost old_dv = self.actions.deep_view();
        let mut i: usize = 0;
        let mut delete_at: Option<usize> = None;
        while i < self.actions.len()
            invariant
                i <= self.actions.len(),
                old_dv == self.actions.deep_view(),
                match delete_at {
                    Some(j) => j < i && old_dv[j as int] is DeleteProject,
                    None => forall|k: int| 0 <= k < i ==> !(#[trigger] old_dv[k] is DeleteProject),
                },
            decreases self.actions.len() - i,
        {
            if delete_at.is_none() {
                match &self.actions[i] {
                    ProjectAction::DeleteProject => {
                        delete_at = Some(i);
                    },
                    _ => {},
                }
            }
            i += 1;
        }
        match delete_at {
            None => {
                proof {
                    assert(forall|k: int| 0 <= k < old_dv.len() ==> !(#[trigger] old_dv[k]
                        is DeleteProject));
                    lemma_parts_all_files(old_dv);
                    assert(sp_normalize_actions(old_dv) =~= old_dv);
                }
            },
            Some(j) => {
                let a = self.actions.remove(j);
                self.actions.push(a);
                proof {
                    let pre = old_dv.subrange(0, j as int);
                    let post = old_dv.subrange(j + 1, old_dv.len() as int);
                    let d = old_dv[j as int];
                    assert(old_dv =~= pre + (seq![d] + post));
                    lemma_parts_add(pre, seq![d] + post);
                    lemma_parts_add(seq![d], post);
                    assert(seq![d].drop_last() =~= Seq::<ActionModel>::empty());
                    assert(sp_file_part(Seq::<ActionModel>::empty())
                        == Seq::<ActionModel>::empty());
                    assert(sp_delete_part(Seq::<ActionModel>::empty())
                        == Seq::<ActionModel>::empty());
                    assert(d is DeleteProject);
                    assert(sp_file_part(seq![d]) =~= Seq::<ActionModel>::empty());
                    assert(sp_delete_part(seq![d]) =~= seq![d]);
                    // at most one delete overall, and one is in `seq![d]`,
                    // so `pre` and `post` are delete-free
                    lemma_parts_shape(pre);
                    lemma_parts_shape(post);
                    assert(sp_delete_part(pre).len() == 0 && sp_delete_part(post).len() == 0) by {
                        lemma_parts_shape(pre);
                        lemma_parts_shape(post);
                    }
                    lemma_parts_all_files_from_empty_delete(pre);
                    lemma_parts_all_files_from_empty_delete(post);
                    assert(sp_file_part(old_dv) =~= pre + post);
                    assert(sp_delete_part(old_dv) =~= seq![d]);
                    assert(self.actions.deep_view() =~= (pre + post).push(d));
                    assert(sp_normalize_actions(old_dv) =~= (pre + post).push(d));
                    lemma_parts_add(pre + post, seq![d]);
                    assert((pre + post) + seq![d] =~= (pre + post).push(d));
                    lemma_parts_add(pre, post);
                    lemma_parts_push(pre + post, d);
                }
            },
        }
    }

    pub fn get_name(&self) -> (r: &String)
        ensures
            r@ == self@.name,
    {
        &self.name
    }

    pub fn get_uri(&self) -> (r: &String)
        ensures
            r@ == self@.uri,
    {
        &self.uri
    }

    pub fn get_actions(&self) -> (r: &Vec<ProjectAction>)
        ensures
            r.deep_view() == self@.actions,
    {
        &self.actions
    }

    pub fn get_revision(&self) -> (r: &String)
        ensures
            r@ == self@.revision,
    {
        &self.revision
    }

    pub fn get_path(&self) -> (r: &String)
        ensures
            r@ == self@.path,
    {
        &self.path
    }

    /// `https://{uri}/{name}.git`
    pub fn get_uri_https(&self) -> (r: String)
        ensures
            r@ == sp_https_url(self@),
    {
        let mut url = String::new();
        url.append("https://");
        url.append(self.uri.as_str());
        url.append("/");
        url.append(self.name.as_str());
        url.append(".git");
        proof {
            assert(url@ =~= sp_https_url(self@));
        }
        url
    }

    /// `git@{uri}:{name}.git`
    pub fn get_uri_ssh(&self) -> (r: String)
        ensures
            r@ == sp_ssh_url(self@),
    {
        let mut url = String::new();
        url.append("git@");
        url.append(self.uri.as_str());
        url.append(":");
        url.append(self.name.as_str());
        url.append(".git");
        proof {
            assert(url@ =~= sp_ssh_url(self@));
        }
        url
    }
}

impl Clone for Project {
    fn clone(&self) -> (res: Self)
        ensures
            res@ == self@,
    {
        self.pin(self.revision.clone())
    }
}

/// Normalization is the identity on a list already in normal form: all
/// file actions, except possibly a single `DeleteProject` at the end.
pub proof fn lemma_normalize_sorted_identity(s: Seq<ActionModel>)
    requires
        forall|q: int| 0 <= q < s.len() - 1 ==> !(#[trigger] s[q] is DeleteProject),
    ensures
        sp_normalize_actions(s) == s,
{
    if s.len() == 0 {
        assert(sp_normalize_actions(s) =~= s);
    } else if s.last() is DeleteProject {
        let a = s.drop_last();
        assert(forall|q: int| 0 <= q < a.len() ==> !(#[trigger] a[q] is DeleteProject));
        lemma_parts_all_files(a);
        assert(s =~= a + seq![s.last()]);
        lemma_parts_add(a, seq![s.last()]);
        assert(seq![s.last()].drop_last() =~= Seq::<ActionModel>::empty());
        assert(sp_file_part(Seq::<ActionModel>::empty()) == Seq::<ActionModel>::empty());
        assert(sp_delete_part(Seq::<ActionModel>::empty()) == Seq::<ActionModel>::empty());
        assert(sp_file_part(seq![s.last()]) =~= Seq::<ActionModel>::empty());
        assert(sp_delete_part(seq![s.last()]) =~= seq![s.last()]);
        assert(sp_normalize_actions(s) =~= a + seq![s.last()]);
        assert(sp_normalize_actions(s) =~= s);
    } else {
        assert(forall|q: int| 0 <= q < s.len() ==> !(#[trigger] s[q] is DeleteProject)) by {
            assert(!(s[s.len() - 1] is DeleteProject));
        }
        lemma_parts_all_files(s);
        assert(sp_normalize_actions(s) =~= s);
    }
}

/// A delete part of length zero means every element is a file action.
pub proof fn lemma_parts_all_files_from_empty_delete(s: Seq<ActionModel>)
    requires
        sp_delete_part(s).len() == 0,
    ensures
        sp_file_part(s) == s,
    decreases s.len(),
{
    if s.len() > 0 {
        if s.last() is DeleteProject {
            assert(sp_delete_part(s).len() >= 1);
        }
        lemma_parts_all_files_from_empty_delete(s.drop_last());
        assert(sp_file_part(s) =~= s);
    }
}

} // verus!
