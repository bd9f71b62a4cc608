//! The manifest instance and the run-wide plumbing around it: the error
//! taxonomy with its user-visible messages, the aggregation of per-project
//! sync outcomes, and status-report formatting.

use crate::project::Project;
use crate::project::ProjectModel;
use crate::xml_parser::sp_models_of;
use crate::xml_parser::sp_parse_error_text;
use crate::xml_parser::spec_compose_manifest;
use crate::xml_parser::spec_parse_manifest;
use crate::xml_parser::ParseFailure;
use crate::xml_parser::XmlParser;
use vstd::prelude::*;

verus! {

/// Protocol used to reach a project's remote: https or ssh.
#[derive(Clone, Copy)]
pub enum DwlMode {
    HTTPS,
    SSH,
}


/// The manifest text format, as a contract between the application and its
/// parser: parsing yields exactly the projects the text describes, and
/// composing yields the canonical text of a project list.
pub trait ManifestParser {
    /// Parse a manifest text into its projects.
    fn parse(&self, file: &str) -> (r: Result<Vec<Project>, ManifestError>)
        ensures
            match r {
                Ok(ps) => spec_parse_manifest(file@) == Ok::<Seq<ProjectModel>, ParseFailure>(
                    ps.deep_view(),
                ) && (forall|k: int| 0 <= k < ps@.len() ==> #[trigger] ps@[k].wf()),
                Err(e) => (spec_parse_manifest(file@) matches Err(f) && (e matches
                    ManifestError::FailedToParseManifest(m) && m@ == sp_parse_error_text(f))),
            },
    ;

    /// Compose the canonical manifest text of a project list.
    fn compose(&self, projects: &[Project]) -> (r: Result<String, ManifestError>)
        ensures
            r matches Ok(text) && text@ == spec_compose_manifest(sp_models_of(projects@)),
    ;
}

/// Everything that can go wrong across a run, each variant carrying the
/// detail text that its message embeds.
#[derive(Debug, Clone, PartialEq)]
pub enum ManifestError {
    FailedToInitialize(String),
    FailedToGetAbsolutePath(String),
    FileDoesNotExist(String),
    FailedToReadManifest(String),
    FailedToParseManifest(String),
    FailedToGenerateDefaultManifest(String),
    FailedToComposeManifest(String),
    FailedToExecuteAction(String),
    FailedToCheckoutRepository(String),
    FailedToGetCommitId(String),
    FailedToDetermineIfRepoIsModified(String),
    FailedToSync(String),
    FailedToSaveFile(String),
    MissingDependency(String),
}

/// The user-visible message of an error: a fixed prefix naming the failure,
/// then the carried detail.
pub open spec fn sp_error_message(e: ManifestError) -> Seq<char> {
    match e {
        ManifestError::FailedToInitialize(s) => "Failed to initialize repository: "@ + s@,
        ManifestError::FailedToGetAbsolutePath(s) => "Failed to get absolute path of "@ + s@,
        ManifestError::FileDoesNotExist(s) => "File does not exist: "@ + s@,
        ManifestError::FailedToReadManifest(s) => "Failed to read manifest file: "@ + s@,
        ManifestError::FailedToParseManifest(s) => "Failed to parse manifest file: "@ + s@,
        ManifestError::FailedToGenerateDefaultManifest(s) => {
            "Failed to generate default manifest file: "@ + s@
        },
        ManifestError::FailedToComposeManifest(s) => "Failed to compose manifest file: "@ + s@,
        ManifestError::FailedToExecuteAction(s) => "Failed to execute action: "@ + s@,
        ManifestError::FailedToCheckoutRepository(s) => "Failed to checkout repository: "@ + s@,
        ManifestError::FailedToGetCommitId(s) => "Failed to get commit id: "@ + s@,
        ManifestError::FailedToDetermineIfRepoIsModified(s) => {
            "Failed to determine if repo is modified: "@ + s@
        },
        ManifestError::FailedToSync(s) => "Failed to sync manifest: "@ + s@,
        ManifestError::FailedToSaveFile(s) => "Failed to save file: "@ + s@,
        ManifestError::MissingDependency(s) => "Failed to find dependency: "@ + s@,
    }
}

impl ManifestError {
    /// Render this error as its user-visible message.
    pub fn message(&self) -> (r: String)
        ensures
            r@ == sp_error_message(*self),
    {
        let mut out = String::new();
        match self {
            ManifestError::FailedToInitialize(s) => {
                out.append("Failed to initialize repository: ");
                out.append(s.as_str());
            },
            ManifestError::FailedToGetAbsolutePath(s) => {
                out.append("Failed to get absolute path of ");
                out.append(s.as_str());
            },
            ManifestError::FileDoesNotExist(s) => {
                out.append("File does not exist: ");
                out.append(s.as_str());
            },
            ManifestError::FailedToReadManifest(s) => {
                out.append("Failed to read manifest file: ");
                out.append(s.as_str());
            },
            ManifestError::FailedToParseManifest(s) => {
                out.append("Failed to parse manifest file: ");
                out.append(s.as_str());
            },
            ManifestError::FailedToGenerateDefaultManifest(s) => {
                out.append("Failed to generate default manifest file: ");
                out.append(s.as_str());
            },
            ManifestError::FailedToComposeManifest(s) => {
                out.append("Failed to compose manifest file: ");
                out.append(s.as_str());
            },
            ManifestError::FailedToExecuteAction(s) => {
                out.append("Failed to execute action: ");
                out.append(s.as_str());
            },
            ManifestError::FailedToCheckoutRepository(s) => {
                out.append("Failed to checkout repository: ");
                out.append(s.as_str());
            },
            ManifestError::FailedToGetCommitId(s) => {
                out.append("Failed to get commit id: ");
                out.append(s.as_str());
            },
            ManifestError::FailedToDetermineIfRepoIsModified(s) => {
                out.append("Failed to determine if repo is modified: ");
                out.append(s.as_str());
            },
            ManifestError::FailedToSync(s) => {
                out.append("Failed to sync manifest: ");
                out.append(s.as_str());
            },
            ManifestError::FailedToSaveFile(s) => {
                out.append("Failed to save file: ");
                out.append(s.as_str());
            },
            ManifestError::MissingDependency(s) => {
                out.append("Failed to find dependency: ");
                out.append(s.as_str());
            },
        }
        out
    }
}

/// The messages of the failed results, in result order.
pub open spec fn sp_failure_messages(rs: Seq<Result<(), ManifestError>>) -> Seq<Seq<char>>
    decreases rs.len(),
{
    if rs.len() == 0 {
        Seq::empty()
    } else {
        let rest = sp_failure_messages(rs.drop_last());
        match rs.last() {
            Ok(_) => rest,
            Err(e) => rest.push(sp_error_message(e)),
        }
    }
}

/// Error messages joined with one line feed after each.
pub open spec fn sp_joined_errors(msgs: Seq<Seq<char>>) -> Seq<char>
    decreases msgs.len(),
{
    if msgs.len() == 0 {
        Seq::empty()
    } else {
        sp_joined_errors(msgs.drop_last()) + msgs.last() + "\n"@
    }
}

/// Fan-in of per-project sync outcomes. All of them succeeded exactly when
/// the whole sync did; otherwise every failure message is preserved, each on
/// its own line after a blank separator, in the order the results arrived.
pub fn collect_sync_errors(results: &Vec<Result<(), ManifestError>>) -> (r: Result<
    (),
    ManifestError,
>)
    ensures
        (r is Ok) == (sp_failure_messages(results@).len() == 0),
        r matches Err(e) ==> e matches ManifestError::FailedToSync(m) && m@ == "\n\n"@
            + sp_joined_errors(sp_failure_messages(results@)),
{
    let mut msgs: Vec<String> = Vec::new();
    let mut i: usize = 0;
    while i < results.len()
        invariant
            i <= results@.len(),
            msgs.deep_view() =~= sp_failure_messages(results@.subrange(0, i as int)),
        decreases results@.len() - i,
    {
        let ghost predv = msgs.deep_view();
        proof {
            broadcast use crate::text::lemma_deep_view_len, crate::text::lemma_deep_view_index;

            assert(results@.subrange(0, i + 1).drop_last() =~= results@.subrange(0, i as int));
        }
        match &results[i] {
            Ok(_) => {
                proof {
                    assert(results@.subrange(0, i + 1).last() == results@[i as int]);
                }
            },
            Err(e) => {
                let m = e.message();
                msgs.push(m);
                proof {
                    broadcast use
                        crate::text::lemma_deep_view_len,
                        crate::text::lemma_deep_view_index;

                    assert(results@.subrange(0, i + 1).last() == results@[i as int]);
                    assert(msgs.deep_view() =~= predv.push(sp_error_message(results@[i as int]
                        ->Err_0)));
                }
            },
        }
        proof {
            assert(msgs.deep_view() =~= sp_failure_messages(results@.subrange(0, i + 1)));
        }
        i += 1;
    }
    proof {
        assert(results@.subrange(0, results@.len() as int) =~= results@);
    }
    if msgs.len() == 0 {
        proof {
            broadcast use crate::text::lemma_deep_view_len;

        }
        Ok(())
    } else {
        let ghost all = msgs.deep_view();
        let mut text = String::new();
        text.append("\n\n");
        let mut j: usize = 0;
        while j < msgs.len()
            invariant
                j <= msgs@.len(),
                all == msgs.deep_view(),
                text@ =~= "\n\n"@ + sp_joined_errors(all.subrange(0, j as int)),
            decreases msgs@.len() - j,
        {
            proof {
                broadcast use crate::text::lemma_deep_view_len, crate::text::lemma_deep_view_index;

                assert(all.subrange(0, j + 1).drop_last() =~= all.subrange(0, j as int));
                assert(all.subrange(0, j + 1).last() == all[j as int]);
            }
            text.append(msgs[j].as_str());
            text.append("\n");
            proof {
                assert(text@ =~= "\n\n"@ + sp_joined_errors(all.subrange(0, j + 1)));
            }
            j += 1;
        }
        proof {
            broadcast use crate::text::lemma_deep_view_len;

            assert(all.subrange(0, all.len() as int) =~= all);
        }
        Err(ManifestError::FailedToSync(text))
    }
}

/// Partial-failure isolation: when exactly one project's pipeline failed,
/// the aggregate holds exactly that project's message and nothing else.
pub proof fn lemma_partial_failure_isolation(rs: Seq<Result<(), ManifestError>>, i: int)
    requires
        0 <= i < rs.len(),
        rs[i] is Err,
        forall|j: int| 0 <= j < rs.len() && j != i ==> rs[j] is Ok,
    ensures
        sp_failure_messages(rs) =~= seq![sp_error_message(rs[i]->Err_0)],
        "\n\n"@ + sp_joined_errors(sp_failure_messages(rs)) =~= "\n\n"@ + sp_error_message(
            rs[i]->Err_0,
        ) + "\n"@,
    decreases rs.len(),
{
    lemma_all_ok_no_messages(rs.subrange(0, i));
    lemma_messages_after_single_err(rs, i);
    assert(sp_joined_errors(seq![sp_error_message(rs[i]->Err_0)].drop_last())
        == sp_joined_errors(Seq::<Seq<char>>::empty()));
    assert(seq![sp_error_message(rs[i]->Err_0)].drop_last() =~= Seq::<Seq<char>>::empty());
}

/// A prefix of successes contributes no messages.
proof fn lemma_all_ok_no_messages(rs: Seq<Result<(), ManifestError>>)
    requires
        forall|j: int| 0 <= j < rs.len() ==> rs[j] is Ok,
    ensures
        sp_failure_messages(rs) == Seq::<Seq<char>>::empty(),
    decreases rs.len(),
{
    if rs.len() > 0 {
        lemma_all_ok_no_messages(rs.drop_last());
        assert(sp_failure_messages(rs) =~= Seq::<Seq<char>>::empty());
    }
}

/// With one failure at `i` and successes elsewhere, the message list is that
/// one failure's message.
proof fn lemma_messages_after_single_err(rs: Seq<Result<(), ManifestError>>, i: int)
    requires
        0 <= i < rs.len(),
        rs[i] is Err,
        forall|j: int| 0 <= j < rs.len() && j != i ==> rs[j] is Ok,
    ensures
        sp_failure_messages(rs) =~= seq![sp_error_message(rs[i]->Err_0)],
    decreases rs.len(),
{
    if i == rs.len() - 1 {
        lemma_all_ok_no_messages(rs.drop_last());
    } else {
        lemma_messages_after_single_err(rs.drop_last(), i);
    }
}

/// Mathematical model of a [`ManifestInstance`].
pub struct InstanceModel {
    pub filename: Seq<char>,
    pub file: Seq<char>,
    pub projects: Seq<ProjectModel>,
}

/// A manifest read into memory: where it came from, its text, and the
/// projects parsed out of the text.
pub struct ManifestInstance {
    filename: String,
    file: String,
    projects: Vec<Project>,
}

impl View for ManifestInstance {
    type V = InstanceModel;

    closed spec fn view(&self) -> InstanceModel {
        InstanceModel {
            filename: self.filename@,
            file: self.file@,
            projects: self.projects.deep_view(),
        }
    }
}

impl ManifestInstance {
    /// Build an instance from a manifest's resolved file name and its text.
    /// Reading the file and resolving its absolute path are the caller's
    /// business; nothing is parsed yet.
    pub fn try_from(filename: String, file: String) -> (r: Self)
        ensures
            r@.filename == filename@,
            r@.file == file@,
            r@.projects == Seq::<ProjectModel>::empty(),
    {
        let r = Self { filename, file, projects: Vec::new() };
        proof {
            assert(r.projects.deep_view() =~= Seq::<ProjectModel>::empty());
        }
        r
    }


    /// Parse the manifest's text into its projects. On a rejection the
    /// instance is left unchanged and the rejection's message is returned.
    pub fn parse(&mut self) -> (r: Result<(), ManifestError>)
        ensures
            final(self)@.filename == old(self)@.filename,
            final(self)@.file == old(self)@.file,
            match spec_parse_manifest(old(self)@.file) {
                Ok(ps) => r is Ok && final(self)@.projects == ps,
                Err(f) => (r matches Err(e) && (e matches ManifestError::FailedToParseManifest(m)
                    && m@ == sp_parse_error_text(f))) && final(self)@.projects == old(
                    self,
                )@.projects,
            },
            r is Ok ==> forall|k: int|
                0 <= k < final(self)@.projects.len()
                    ==> crate::project::sp_delete_part(
                    #[trigger] final(self)@.projects[k].actions,
                ).len() <= 1,
    {
        let parser = XmlParser::new();
        match parser.parse(self.file.as_str()) {
            Ok(ps) => {
                self.projects = ps;
                proof {
                    broadcast use crate::text::lemma_deep_view_len, crate::text::lemma_deep_view_index;

                    assert forall|k: int| 0 <= k < self.projects.deep_view().len()
                        implies crate::project::sp_delete_part(
                        #[trigger] self.projects.deep_view()[k].actions,
                    ).len() <= 1 by {
                        assert(self.projects@[k].wf());
                        assert(self.projects.deep_view()[k] == self.projects@[k]@);
                    }
                }
                Ok(())
            },
            Err(e) => Err(e),
        }
    }

    /// A new instance with every project pinned to its queried commit
    /// identifier, in order, and the manifest text recomposed; this
    /// instance is not touched. The caller queries one identifier per
    /// project, in project order.
    pub fn pin(&self, commit_ids: &Vec<String>) -> (r: Self)
        requires
            commit_ids@.len() == self@.projects.len(),
        ensures
            r@.filename == self@.filename,
            r@.projects.len() == self@.projects.len(),
            forall|k: int|
                0 <= k < r@.projects.len() ==> #[trigger] r@.projects[k] == (ProjectModel {
                    revision: commit_ids@[k]@,
                    ..self@.projects[k]
                }),
            r@.file == spec_compose_manifest(r@.projects),
    {
        let ghost n = self.projects@.len();
        let mut projects: Vec<Project> = Vec::new();
        let mut i: usize = 0;
        proof {
            broadcast use crate::text::lemma_deep_view_len, crate::text::lemma_deep_view_index;

        }
        while i < self.projects.len()
            invariant
                i <= self.projects@.len(),
                commit_ids@.len() == self.projects@.len(),
                projects@.len() == i,
                forall|k: int|
                    0 <= k < i ==> #[trigger] projects.deep_view()[k] == (ProjectModel {
                        revision: commit_ids@[k]@,
                        ..self.projects.deep_view()[k]
                    }),
            decreases self.projects@.len() - i,
        {
            proof {
                broadcast use crate::text::lemma_deep_view_len, crate::text::lemma_deep_view_index;

            }
            let pinned = self.projects[i].pin(commit_ids[i].clone());
            let ghost predv = projects.deep_view();
            let ghost pm = pinned@;
            projects.push(pinned);
            proof {
                broadcast use crate::text::lemma_deep_view_len, crate::text::lemma_deep_view_index;

                assert(projects.deep_view() =~= predv.push(pm));
            }
            i += 1;
        }
        let parser = XmlParser::new();
        let file = match parser.compose(projects.as_slice()) {
            Ok(text) => text,
            Err(_) => String::new(),
        };
        proof {
            broadcast use crate::text::lemma_deep_view_len, crate::text::lemma_deep_view_index;

            assert(sp_models_of(projects@) =~= projects.deep_view());
        }
        Self { filename: self.filename.clone(), file, projects }
    }

    pub fn get_filename(&self) -> (r: &String)
        ensures
            r@ == self@.filename,
    {
        &self.filename
    }

    pub fn get_file(&self) -> (r: &String)
        ensures
            r@ == self@.file,
    {
        &self.file
    }

    pub fn get_projects(&self) -> (r: &Vec<Project>)
        ensures
            r.deep_view() == self@.projects,
    {
        &self.projects
    }
}

/// `n` spaces.
pub open spec fn sp_spaces(n: nat) -> Seq<char>
    decreases n,
{
    if n == 0 {
        Seq::empty()
    } else {
        sp_spaces((n - 1) as nat).push(' ')
    }
}

/// The longest path in a list of (path, status) rows.
pub open spec fn sp_max_path_len(rows: Seq<(Seq<char>, Seq<char>)>) -> nat
    decreases rows.len(),
{
    if rows.len() == 0 {
        0
    } else {
        let rest = sp_max_path_len(rows.drop_last());
        if rows.last().0.len() > rest {
            rows.last().0.len()
        } else {
            rest
        }
    }
}

/// Align status rows: each line is the project's path, padded with spaces to
/// the longest path's width, followed by its status.
pub fn format_status_lines(rows: &Vec<(String, String)>) -> (r: Vec<String>)
    ensures
        r.deep_view().len() == rows.deep_view().len(),
        forall|i: int|
            0 <= i < rows.deep_view().len() ==> #[trigger] r.deep_view()[i]
                == rows.deep_view()[i].0 + sp_spaces(
                (sp_max_path_len(rows.deep_view()) - rows.deep_view()[i].0.len()) as nat,
            ) + rows.deep_view()[i].1,
{
    let ghost rdv = rows.deep_view();
    let mut max_len: usize = 0;
    let mut i: usize = 0;
    proof {
        broadcast use crate::text::lemma_deep_view_len, crate::text::lemma_deep_view_index;

    }
    while i < rows.len()
        invariant
            i <= rows@.len(),
            rdv == rows.deep_view(),
            rdv.len() == rows@.len(),
            max_len == sp_max_path_len(rdv.subrange(0, i as int)),
        decreases rows@.len() - i,
    {
        proof {
            broadcast use crate::text::lemma_deep_view_len, crate::text::lemma_deep_view_index;

            assert(rdv.subrange(0, i + 1).drop_last() =~= rdv.subrange(0, i as int));
            assert(rdv.subrange(0, i + 1).last() == rdv[i as int]);
        }
        let plen = rows[i].0.unicode_len();
        if plen > max_len {
            max_len = plen;
        }
        i += 1;
    }
    proof {
        assert(rdv.subrange(0, rdv.len() as int) =~= rdv);
    }
    let mut out: Vec<String> = Vec::new();
    let mut j: usize = 0;
    while j < rows.len()
        invariant
            j <= rows@.len(),
            rdv == rows.deep_view(),
            rdv.len() == rows@.len(),
            max_len == sp_max_path_len(rdv),
            out.deep_view().len() == j,
            forall|k: int|
                0 <= k < j ==> #[trigger] out.deep_view()[k] == rdv[k].0 + sp_spaces(
                    (sp_max_path_len(rdv) - rdv[k].0.len()) as nat,
                ) + rdv[k].1,
        decreases rows@.len() - j,
    {
        proof {
            broadcast use crate::text::lemma_deep_view_len, crate::text::lemma_deep_view_index;

            lemma_max_path_len_bound(rdv, j as int);
        }
        let mut line = String::new();
        line.append(rows[j].0.as_str());
        let plen = rows[j].0.unicode_len();
        let mut pad: usize = 0;
        let padding = max_len - plen;
        while pad < padding
            invariant
                pad <= padding,
                padding == max_len - plen,
                plen <= max_len,
                line@ =~= rdv[j as int].0 + sp_spaces(pad as nat),
                rdv == rows.deep_view(),
                j < rows@.len(),
                rdv.len() == rows@.len(),
                plen == rdv[j as int].0.len(),
            decreases padding - pad,
        {
            line.append(" ");
            proof {
                reveal_strlit(" ");
                assert(line@ =~= rdv[j as int].0 + sp_spaces((pad + 1) as nat));
            }
            pad += 1;
        }
        line.append(rows[j].1.as_str());
        let ghost predv = out.deep_view();
        out.push(line);
        proof {
            broadcast use crate::text::lemma_deep_view_len, crate::text::lemma_deep_view_index;

            assert(out.deep_view() =~= predv.push(
                rdv[j as int].0 + sp_spaces((max_len - plen) as nat) + rdv[j as int].1,
            ));
        }
        j += 1;
    }
    out
}

/// Every row's path is at most the maximum path length.
proof fn lemma_max_path_len_bound(rows: Seq<(Seq<char>, Seq<char>)>, i: int)
    requires
        0 <= i < rows.len(),
    ensures
        rows[i].0.len() <= sp_max_path_len(rows),
    decreases rows.len(),
{
    if i == rows.len() - 1 {
    } else {
        lemma_max_path_len_bound(rows.drop_last(), i);
    }
}

} // verus!
