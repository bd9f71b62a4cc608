//! The version-control provider, as decision logic: which `git` invocation
//! each pipeline stage runs, and how each stage's outcome drives the next.
//! Running the subprocesses is the caller's business; the state machines
//! here consume the observed outcomes and are verified for every possible
//! outcome.

use crate::application::DwlMode;
use crate::application::ManifestError;
use crate::project::Project;
use crate::text::sp_contains;
use vstd::prelude::*;

verus! {

/// The external version-control command every plan invokes.
pub const GIT_PROGRAM: &'static str = "git";

/// A git backend. The struct itself is stateless: per-project state lives in
/// the machines built from it.
pub struct GitVersionControl {}

impl GitVersionControl {
    pub fn new() -> (r: Self) {
        Self {  }
    }

    /// The initialization machine for one project: its remote URL is
    /// derived from the project and the chosen protocol.
    pub fn init_machine(&self, project: &Project, mode: &DwlMode) -> (r: InitMachine)
        ensures
            r@ == sp_init_new(
                match mode {
                    DwlMode::HTTPS => crate::project::sp_https_url(project@),
                    DwlMode::SSH => crate::project::sp_ssh_url(project@),
                },
            ),
    {
        let url = match mode {
            DwlMode::HTTPS => project.get_uri_https(),
            DwlMode::SSH => project.get_uri_ssh(),
        };
        InitMachine::new(url)
    }

    /// The checkout machine for one project.
    pub fn checkout_machine(&self, project: &Project, force: bool, lightweight: bool) -> (r:
        CheckoutMachine)
        ensures
            r@ == sp_checkout_new(project@.path, project@.revision, force, lightweight),
    {
        CheckoutMachine::new(project.get_path().clone(), project.get_revision().clone(), force, lightweight)
    }
}

impl Default for GitVersionControl {
    fn default() -> (r: Self) {
        Self::new()
    }
}

/// True of a revision that is a raw commit identifier: forty lowercase
/// hexadecimal digits, as the backend prints them.
pub open spec fn sp_is_commit_id(rev: Seq<char>) -> bool {
    rev.len() == 40 && forall|i: int|
        0 <= i < rev.len() ==> (('0' <= #[trigger] rev[i] && rev[i] <= '9') || ('a' <= rev[i]
            && rev[i] <= 'f'))
}

/// Structural check for a raw commit identifier.
pub fn is_commit_id(rev: &str) -> (r: bool)
    ensures
        r == sp_is_commit_id(rev@),
{
    let len = rev.unicode_len();
    if len != 40 {
        return false;
    }
    let mut i: usize = 0;
    while i < len
        invariant
            i <= len,
            len == rev@.len(),
            forall|k: int|
                0 <= k < i ==> (('0' <= #[trigger] rev@[k] && rev@[k] <= '9') || ('a' <= rev@[k]
                    && rev@[k] <= 'f')),
        decreases len - i,
    {
        let c = rev.get_char(i);
        if !(('0' <= c && c <= '9') || ('a' <= c && c <= 'f')) {
            return false;
        }
        i += 1;
    }
    true
}

/// Arguments of the fetch that precedes a checkout. A shallow sync fetches
/// depth-1 scoped to the revision; an already-shallow repository being
/// brought to a full sync is unshallowed; otherwise everything is fetched,
/// pruning stale refs.
pub open spec fn sp_fetch_args(lightweight: bool, is_shallow: bool, revision: Seq<char>) -> Seq<
    Seq<char>,
> {
    if lightweight {
        seq![
            "fetch"@,
            "--progress"@,
            "--tags"@,
            "--prune"@,
            "--depth"@,
            "1"@,
            "origin"@,
            revision,
        ]
    } else if is_shallow {
        seq!["fetch"@, "--progress"@, "--tags"@, "--prune"@, "--unshallow"@, "origin"@]
    } else {
        seq!["fetch"@, "--progress"@, "--tags"@, "--prune"@, "origin"@]
    }
}

/// Arguments of the checkout itself. `force` discards local edits; a
/// shallow sync checks out what the depth-1 fetch brought.
pub open spec fn sp_checkout_args(revision: Seq<char>, force: bool, lightweight: bool) -> Seq<
    Seq<char>,
> {
    if force {
        seq!["checkout"@, revision, "--progress"@, "--force"@]
    } else if lightweight {
        seq!["checkout"@, "FETCH_HEAD"@, "--progress"@]
    } else {
        seq!["checkout"@, revision, "--progress"@]
    }
}

pub open spec fn sp_shallow_query_args() -> Seq<Seq<char>> {
    seq!["rev-parse"@, "--is-shallow-repository"@]
}

pub open spec fn sp_status_args() -> Seq<Seq<char>> {
    seq!["status"@, "--porcelain"@, "--untracked-files=no"@]
}

pub open spec fn sp_branch_query_args() -> Seq<Seq<char>> {
    seq!["status"@]
}

pub open spec fn sp_merge_args() -> Seq<Seq<char>> {
    seq!["merge"@, "--ff-only"@, "--progress"@]
}

pub open spec fn sp_rev_parse_head_args() -> Seq<Seq<char>> {
    seq!["rev-parse"@, "HEAD"@]
}

pub open spec fn sp_init_args() -> Seq<Seq<char>> {
    seq!["init"@, "--quiet"@]
}

pub open spec fn sp_remote_query_args() -> Seq<Seq<char>> {
    seq!["remote"@, "get-url"@, "origin"@]
}

pub open spec fn sp_remote_update_args(exists: bool, url: Seq<char>) -> Seq<Seq<char>> {
    if exists {
        seq!["remote"@, "set-url"@, "origin"@, url]
    } else {
        seq!["remote"@, "add"@, "origin"@, url]
    }
}

/// One planned subprocess invocation: the arguments handed to the
/// version-control tool, and whether its diagnostic stream feeds the
/// progress monitor.
pub struct GitCommand {
    pub args: Vec<String>,
    pub monitored: bool,
}

/// Mathematical model of a [`GitCommand`].
pub struct CommandModel {
    pub args: Seq<Seq<char>>,
    pub monitored: bool,
}

impl View for GitCommand {
    type V = CommandModel;

    open spec fn view(&self) -> CommandModel {
        CommandModel { args: self.args.deep_view(), monitored: self.monitored }
    }
}

/// What the caller observed of one subprocess: either it ran to an exit —
/// successful or not, with the text the stage cares about (standard output
/// for queries, the monitor's failure text for monitored commands) — or it
/// could not be run at all.
pub enum GitEvent {
    Exited { success: bool, output: String },
    NotRun { message: String },
}

/// Mathematical model of a [`GitEvent`].
pub enum EventModel {
    Exited(bool, Seq<char>),
    NotRun(Seq<char>),
}

impl View for GitEvent {
    type V = EventModel;

    open spec fn view(&self) -> EventModel {
        match self {
            GitEvent::Exited { success, output } => EventModel::Exited(*success, output@),
            GitEvent::NotRun { message } => EventModel::NotRun(message@),
        }
    }
}

/// The stages of one project's checkout pipeline, in their fixed order.
#[derive(Clone, Copy, PartialEq, Eq, Structural)]
pub enum CheckoutPhase {
    QueryShallow,
    Fetch,
    Checkout,
    QueryStatus,
    QueryBranch,
    Merge,
    Done,
    Failed,
}

/// Mathematical model of a [`CheckoutMachine`].
pub struct CheckoutModel {
    pub path: Seq<char>,
    pub revision: Seq<char>,
    pub force: bool,
    pub lightweight: bool,
    pub is_shallow: bool,
    pub phase: CheckoutPhase,
    pub error: Seq<char>,
}

/// The message a failed pipeline stage labels with the project's path.
pub open spec fn sp_stage_error(path: Seq<char>, detail: Seq<char>) -> Seq<char> {
    path + "\n"@ + detail + "\n"@
}

pub open spec fn sp_dirty_error(path: Seq<char>) -> Seq<char> {
    path + ", repository is dirty, please commit or stash your changes"@
}

pub open spec fn sp_status_query_error(path: Seq<char>, detail: Seq<char>) -> Seq<char> {
    path + ". Failed to check repository status: \n"@ + detail + "\n"@
}

pub open spec fn sp_shallow_reject_error(path: Seq<char>) -> Seq<char> {
    path + ", lightweight sync requires a branch or tag revision, not a commit id"@
}

/// The machine a fresh checkout starts from. A lightweight sync of a raw
/// commit identifier is rejected here, before any command runs: shallow
/// fetches can only target a branch or tag name.
pub open spec fn sp_checkout_new(
    path: Seq<char>,
    revision: Seq<char>,
    force: bool,
    lightweight: bool,
) -> CheckoutModel {
    if lightweight && sp_is_commit_id(revision) {
        CheckoutModel {
            path,
            revision,
            force,
            lightweight,
            is_shallow: false,
            phase: CheckoutPhase::Failed,
            error: sp_shallow_reject_error(path),
        }
    } else {
        CheckoutModel {
            path,
            revision,
            force,
            lightweight,
            is_shallow: false,
            phase: CheckoutPhase::QueryShallow,
            error: Seq::empty(),
        }
    }
}

/// The command the machine's current stage runs, if it is still running.
pub open spec fn sp_checkout_pending(m: CheckoutModel) -> Option<CommandModel> {
    match m.phase {
        CheckoutPhase::QueryShallow => Some(
            CommandModel { args: sp_shallow_query_args(), monitored: false },
        ),
        CheckoutPhase::Fetch => Some(
            CommandModel {
                args: sp_fetch_args(m.lightweight, m.is_shallow, m.revision),
                monitored: true,
            },
        ),
        CheckoutPhase::Checkout => Some(
            CommandModel {
                args: sp_checkout_args(m.revision, m.force, m.lightweight),
                monitored: true,
            },
        ),
        CheckoutPhase::QueryStatus => Some(
            CommandModel { args: sp_status_args(), monitored: false },
        ),
        CheckoutPhase::QueryBranch => Some(
            CommandModel { args: sp_branch_query_args(), monitored: false },
        ),
        CheckoutPhase::Merge => Some(CommandModel { args: sp_merge_args(), monitored: true }),
        CheckoutPhase::Done => None,
        CheckoutPhase::Failed => None,
    }
}

pub open spec fn sp_checkout_fail(m: CheckoutModel, msg: Seq<char>) -> CheckoutModel {
    CheckoutModel { phase: CheckoutPhase::Failed, error: msg, ..m }
}

/// One transition of the checkout pipeline on an observed outcome.
///
/// The stages run in order: learn whether the repository is shallow, fetch,
/// check the revision out, guard against a dirty working copy (it fails the
/// sync unless `force` discarded local edits), and — only when a branch is
/// checked out — fast-forward it to its freshly fetched upstream.
pub open spec fn sp_checkout_step(m: CheckoutModel, ev: EventModel) -> CheckoutModel {
    match m.phase {
        CheckoutPhase::QueryShallow => match ev {
            EventModel::Exited(true, out) => CheckoutModel {
                is_shallow: sp_contains(out, "true"@),
                phase: CheckoutPhase::Fetch,
                ..m
            },
            EventModel::Exited(false, _) => sp_checkout_fail(
                m,
                sp_stage_error(m.path, "git rev-parse failed"@),
            ),
            EventModel::NotRun(msg) => sp_checkout_fail(m, sp_stage_error(m.path, msg)),
        },
        CheckoutPhase::Fetch => match ev {
            EventModel::Exited(true, _) => CheckoutModel { phase: CheckoutPhase::Checkout, ..m },
            EventModel::Exited(false, out) => sp_checkout_fail(m, sp_stage_error(m.path, out)),
            EventModel::NotRun(msg) => sp_checkout_fail(m, sp_stage_error(m.path, msg)),
        },
        CheckoutPhase::Checkout => match ev {
            EventModel::Exited(true, _) => CheckoutModel { phase: CheckoutPhase::QueryStatus, ..m },
            EventModel::Exited(false, out) => sp_checkout_fail(m, sp_stage_error(m.path, out)),
            EventModel::NotRun(msg) => sp_checkout_fail(m, sp_stage_error(m.path, msg)),
        },
        CheckoutPhase::QueryStatus => match ev {
            EventModel::Exited(_, out) => {
                if out.len() > 0 && !m.force {
                    sp_checkout_fail(m, sp_dirty_error(m.path))
                } else {
                    CheckoutModel { phase: CheckoutPhase::QueryBranch, ..m }
                }
            },
            EventModel::NotRun(msg) => sp_checkout_fail(m, sp_status_query_error(m.path, msg)),
        },
        CheckoutPhase::QueryBranch => match ev {
            EventModel::Exited(_, out) => {
                if sp_contains(out, "On branch"@) {
                    CheckoutModel { phase: CheckoutPhase::Merge, ..m }
                } else {
                    CheckoutModel { phase: CheckoutPhase::Done, ..m }
                }
            },
            EventModel::NotRun(_) => CheckoutModel { phase: CheckoutPhase::Done, ..m },
        },
        CheckoutPhase::Merge => match ev {
            EventModel::Exited(true, _) => CheckoutModel { phase: CheckoutPhase::Done, ..m },
            EventModel::Exited(false, out) => sp_checkout_fail(m, sp_stage_error(m.path, out)),
            EventModel::NotRun(msg) => sp_checkout_fail(m, sp_stage_error(m.path, msg)),
        },
        CheckoutPhase::Done => m,
        CheckoutPhase::Failed => m,
    }
}

/// The per-project checkout pipeline as an executable state machine: the
/// caller runs `pending()`'s command, reports what happened through
/// `on_event`, and reads the final outcome when no command is pending.
pub struct CheckoutMachine {
    path: String,
    revision: String,
    force: bool,
    lightweight: bool,
    is_shallow: bool,
    phase: CheckoutPhase,
    error: String,
}

impl View for CheckoutMachine {
    type V = CheckoutModel;

    closed spec fn view(&self) -> CheckoutModel {
        CheckoutModel {
            path: self.path@,
            revision: self.revision@,
            force: self.force,
            lightweight: self.lightweight,
            is_shallow: self.is_shallow,
            phase: self.phase,
            error: self.error@,
        }
    }
}

impl CheckoutMachine {
    pub fn new(path: String, revision: String, force: bool, lightweight: bool) -> (r: Self)
        ensures
            r@ == sp_checkout_new(path@, revision@, force, lightweight),
    {
        let reject = lightweight && is_commit_id(revision.as_str());
        if reject {
            let mut error = String::new();
            error.append(path.as_str());
            error.append(", lightweight sync requires a branch or tag revision, not a commit id");
            proof {
                assert(error@ =~= sp_shallow_reject_error(path@));
            }
            Self {
                path,
                revision,
                force,
                lightweight,
                is_shallow: false,
                phase: CheckoutPhase::Failed,
                error,
            }
        } else {
            let r = Self {
                path,
                revision,
                force,
                lightweight,
                is_shallow: false,
                phase: CheckoutPhase::QueryShallow,
                error: String::new(),
            };
            r
        }
    }

    /// The command of the current stage, or nothing once the pipeline ended.
    pub fn pending(&self) -> (r: Option<GitCommand>)
        ensures
            match r {
                Some(c) => sp_checkout_pending(self@) == Some(c@),
                None => sp_checkout_pending(self@) is None,
            },
    {
        match self.phase {
            CheckoutPhase::QueryShallow => Some(
                GitCommand { args: args2("rev-parse", "--is-shallow-repository"), monitored: false },
            ),
            CheckoutPhase::Fetch => Some(
                GitCommand {
                    args: fetch_args(self.lightweight, self.is_shallow, self.revision.as_str()),
                    monitored: true,
                },
            ),
            CheckoutPhase::Checkout => Some(
                GitCommand {
                    args: checkout_args(self.revision.as_str(), self.force, self.lightweight),
                    monitored: true,
                },
            ),
            CheckoutPhase::QueryStatus => Some(
                GitCommand {
                    args: args3("status", "--porcelain", "--untracked-files=no"),
                    monitored: false,
                },
            ),
            CheckoutPhase::QueryBranch => Some(
                GitCommand { args: args1("status"), monitored: false },
            ),
            CheckoutPhase::Merge => Some(
                GitCommand { args: args3("merge", "--ff-only", "--progress"), monitored: true },
            ),
            CheckoutPhase::Done => None,
            CheckoutPhase::Failed => None,
        }
    }

    /// Feed the outcome of the pending command into the machine.
    pub fn on_event(&mut self, ev: GitEvent)
        ensures
            final(self)@ == sp_checkout_step(old(self)@, ev@),
    {
        match self.phase {
            CheckoutPhase::QueryShallow => match ev {
                GitEvent::Exited { success: true, output } => {
                    self.is_shallow = crate::text::str_contains(output.as_str(), "true");
                    self.phase = CheckoutPhase::Fetch;
                },
                GitEvent::Exited { success: false, output: _ } => {
                    self.fail_stage("git rev-parse failed");
                },
                GitEvent::NotRun { message } => {
                    self.fail_stage(message.as_str());
                },
            },
            CheckoutPhase::Fetch => match ev {
                GitEvent::Exited { success: true, output: _ } => {
                    self.phase = CheckoutPhase::Checkout;
                },
                GitEvent::Exited { success: false, output } => {
                    self.fail_stage(output.as_str());
                },
                GitEvent::NotRun { message } => {
                    self.fail_stage(message.as_str());
                },
            },
            CheckoutPhase::Checkout => match ev {
                GitEvent::Exited { success: true, output: _ } => {
                    self.phase = CheckoutPhase::QueryStatus;
                },
                GitEvent::Exited { success: false, output } => {
                    self.fail_stage(output.as_str());
                },
                GitEvent::NotRun { message } => {
                    self.fail_stage(message.as_str());
                },
            },
            CheckoutPhase::QueryStatus => match ev {
                GitEvent::Exited { success: _, output } => {
                    if output.unicode_len() > 0 && !self.force {
                        let mut msg = String::new();
                        msg.append(self.path.as_str());
                        msg.append(", repository is dirty, please commit or stash your changes");
                        proof {
                            assert(msg@ =~= sp_dirty_error(self.path@));
                        }
                        self.phase = CheckoutPhase::Failed;
                        self.error = msg;
                    } else {
                        self.phase = CheckoutPhase::QueryBranch;
                    }
                },
                GitEvent::NotRun { message } => {
                    let mut msg = String::new();
                    msg.append(self.path.as_str());
                    msg.append(". Failed to check repository status: \n");
                    msg.append(message.as_str());
                    msg.append("\n");
                    proof {
                        assert(msg@ =~= sp_status_query_error(self.path@, message@));
                    }
                    self.phase = CheckoutPhase::Failed;
                    self.error = msg;
                },
            },
            CheckoutPhase::QueryBranch => match ev {
                GitEvent::Exited { success: _, output } => {
                    if crate::text::str_contains(output.as_str(), "On branch") {
                        self.phase = CheckoutPhase::Merge;
                    } else {
                        self.phase = CheckoutPhase::Done;
                    }
                },
                GitEvent::NotRun { message: _ } => {
                    self.phase = CheckoutPhase::Done;
                },
            },
            CheckoutPhase::Merge => match ev {
                GitEvent::Exited { success: true, output: _ } => {
                    self.phase = CheckoutPhase::Done;
                },
                GitEvent::Exited { success: false, output } => {
                    self.fail_stage(output.as_str());
                },
                GitEvent::NotRun { message } => {
                    self.fail_stage(message.as_str());
                },
            },
            CheckoutPhase::Done => {},
            CheckoutPhase::Failed => {},
        }
    }

    /// Fail with the stage error labeled by the project's path.
    fn fail_stage(&mut self, detail: &str)
        ensures
            final(self)@ == sp_checkout_fail(old(self)@, sp_stage_error(old(self)@.path, detail@)),
    {
        let mut msg = String::new();
        msg.append(self.path.as_str());
        msg.append("\n");
        msg.append(detail);
        msg.append("\n");
        proof {
            assert(msg@ =~= sp_stage_error(self.path@, detail@));
        }
        self.phase = CheckoutPhase::Failed;
        self.error = msg;
    }


    /// The pipeline's result once no command is pending.
    pub fn outcome(&self) -> (r: Option<Result<(), ManifestError>>)
        ensures
            match r {
                Some(Ok(())) => self@.phase is Done,
                Some(Err(e)) => self@.phase is Failed && (e matches
                    ManifestError::FailedToCheckoutRepository(m) && m@ == self@.error),
                None => !(self@.phase is Done) && !(self@.phase is Failed),
            },
    {
        match self.phase {
            CheckoutPhase::Done => Some(Ok(())),
            CheckoutPhase::Failed => Some(
                Err(ManifestError::FailedToCheckoutRepository(self.error.clone())),
            ),
            _ => None,
        }
    }
}

/// The stages of one project's repository initialization.
#[derive(Clone, Copy, PartialEq, Eq, Structural)]
pub enum InitPhase {
    Init,
    RemoteQuery,
    RemoteUpdate,
    Done,
    Failed,
}

/// Mathematical model of an [`InitMachine`].
pub struct InitModel {
    pub url: Seq<char>,
    pub remote_exists: bool,
    pub phase: InitPhase,
    pub error: Seq<char>,
}

pub open spec fn sp_init_new(url: Seq<char>) -> InitModel {
    InitModel { url, remote_exists: false, phase: InitPhase::Init, error: Seq::empty() }
}

pub open spec fn sp_init_pending(m: InitModel) -> Option<CommandModel> {
    match m.phase {
        InitPhase::Init => Some(CommandModel { args: sp_init_args(), monitored: false }),
        InitPhase::RemoteQuery => Some(
            CommandModel { args: sp_remote_query_args(), monitored: false },
        ),
        InitPhase::RemoteUpdate => Some(
            CommandModel { args: sp_remote_update_args(m.remote_exists, m.url), monitored: false },
        ),
        InitPhase::Done => None,
        InitPhase::Failed => None,
    }
}

/// One transition of the initialization sequence: create the repository,
/// learn whether an origin remote exists, then set or add its URL.
pub open spec fn sp_init_step(m: InitModel, ev: EventModel) -> InitModel {
    match m.phase {
        InitPhase::Init => match ev {
            EventModel::Exited(true, _) => InitModel { phase: InitPhase::RemoteQuery, ..m },
            EventModel::Exited(false, _) => InitModel {
                phase: InitPhase::Failed,
                error: "git init failed"@,
                ..m
            },
            EventModel::NotRun(msg) => InitModel { phase: InitPhase::Failed, error: msg, ..m },
        },
        InitPhase::RemoteQuery => match ev {
            EventModel::Exited(success, _) => InitModel {
                remote_exists: success,
                phase: InitPhase::RemoteUpdate,
                ..m
            },
            EventModel::NotRun(msg) => InitModel { phase: InitPhase::Failed, error: msg, ..m },
        },
        InitPhase::RemoteUpdate => match ev {
            EventModel::Exited(true, _) => InitModel { phase: InitPhase::Done, ..m },
            EventModel::Exited(false, _) => InitModel {
                phase: InitPhase::Failed,
                error: if m.remote_exists {
                    "git remote set-url failed"@
                } else {
                    "git remote add failed"@
                },
                ..m
            },
            EventModel::NotRun(msg) => InitModel { phase: InitPhase::Failed, error: msg, ..m },
        },
        InitPhase::Done => m,
        InitPhase::Failed => m,
    }
}

/// Repository initialization as an executable state machine. The caller
/// creates the destination directory beforehand if it is absent, runs each
/// pending command in it, and reports the outcomes.
pub struct InitMachine {
    url: String,
    remote_exists: bool,
    phase: InitPhase,
    error: String,
}

impl View for InitMachine {
    type V = InitModel;

    closed spec fn view(&self) -> InitModel {
        InitModel {
            url: self.url@,
            remote_exists: self.remote_exists,
            phase: self.phase,
            error: self.error@,
        }
    }
}

impl InitMachine {
    pub fn new(url: String) -> (r: Self)
        ensures
            r@ == sp_init_new(url@),
    {
        Self { url, remote_exists: false, phase: InitPhase::Init, error: String::new() }
    }

    pub fn pending(&self) -> (r: Option<GitCommand>)
        ensures
            match r {
                Some(c) => sp_init_pending(self@) == Some(c@),
                None => sp_init_pending(self@) is None,
            },
    {
        match self.phase {
            InitPhase::Init => Some(GitCommand { args: args2("init", "--quiet"), monitored: false }),
            InitPhase::RemoteQuery => Some(
                GitCommand { args: args3("remote", "get-url", "origin"), monitored: false },
            ),
            InitPhase::RemoteUpdate => {
                let mut args: Vec<String> = if self.remote_exists {
                    args3("remote", "set-url", "origin")
                } else {
                    args3("remote", "add", "origin")
                };
                let ghost pre = args.deep_view();
                args.push(self.url.clone());
                proof {
                    assert(args.deep_view() =~= pre.push(self.url@));
                    assert(args.deep_view() =~= sp_remote_update_args(
                        self.remote_exists,
                        self.url@,
                    ));
                }
                Some(GitCommand { args, monitored: false })
            },
            InitPhase::Done => None,
            InitPhase::Failed => None,
        }
    }

    pub fn on_event(&mut self, ev: GitEvent)
        ensures
            final(self)@ == sp_init_step(old(self)@, ev@),
    {
        match self.phase {
            InitPhase::Init => match ev {
                GitEvent::Exited { success: true, output: _ } => {
                    self.phase = InitPhase::RemoteQuery;
                },
                GitEvent::Exited { success: false, output: _ } => {
                    self.phase = InitPhase::Failed;
                    self.error = "git init failed".to_owned();
                },
                GitEvent::NotRun { message } => {
                    self.phase = InitPhase::Failed;
                    self.error = message;
                },
            },
            InitPhase::RemoteQuery => match ev {
                GitEvent::Exited { success, output: _ } => {
                    self.remote_exists = success;
                    self.phase = InitPhase::RemoteUpdate;
                },
                GitEvent::NotRun { message } => {
                    self.phase = InitPhase::Failed;
                    self.error = message;
                },
            },
            InitPhase::RemoteUpdate => match ev {
                GitEvent::Exited { success: true, output: _ } => {
                    self.phase = InitPhase::Done;
                },
                GitEvent::Exited { success: false, output: _ } => {
                    self.phase = InitPhase::Failed;
                    self.error = if self.remote_exists {
                        "git remote set-url failed".to_owned()
                    } else {
                        "git remote add failed".to_owned()
                    };
                },
                GitEvent::NotRun { message } => {
                    self.phase = InitPhase::Failed;
                    self.error = message;
                },
            },
            InitPhase::Done => {},
            InitPhase::Failed => {},
        }
    }

    pub fn outcome(&self) -> (r: Option<Result<(), ManifestError>>)
        ensures
            match r {
                Some(Ok(())) => self@.phase is Done,
                Some(Err(e)) => self@.phase is Failed && (e matches
                    ManifestError::FailedToInitialize(m) && m@ == self@.error),
                None => !(self@.phase is Done) && !(self@.phase is Failed),
            },
    {
        match self.phase {
            InitPhase::Done => Some(Ok(())),
            InitPhase::Failed => Some(
                Err(ManifestError::FailedToInitialize(self.error.clone())),
            ),
            _ => None,
        }
    }
}

/// The fetch plan as a standalone function.
pub fn fetch_args(lightweight: bool, is_shallow: bool, revision: &str) -> (r: Vec<String>)
    ensures
        r.deep_view() == sp_fetch_args(lightweight, is_shallow, revision@),
{
    if lightweight {
        let mut args = args3("fetch", "--progress", "--tags");
        let ghost p0 = args.deep_view();
        args.push("--prune".to_owned());
        proof {
            assert(args.deep_view() =~= p0.push("--prune"@));
        }
        let ghost p1 = args.deep_view();
        args.push("--depth".to_owned());
        proof {
            assert(args.deep_view() =~= p1.push("--depth"@));
        }
        let ghost p2 = args.deep_view();
        args.push("1".to_owned());
        proof {
            assert(args.deep_view() =~= p2.push("1"@));
        }
        let ghost p3 = args.deep_view();
        args.push("origin".to_owned());
        proof {
            assert(args.deep_view() =~= p3.push("origin"@));
        }
        let ghost p4 = args.deep_view();
        args.push(revision.to_owned());
        proof {
            assert(args.deep_view() =~= p4.push(revision@));
            assert(args.deep_view() =~= sp_fetch_args(lightweight, is_shallow, revision@));
        }
        args
    } else if is_shallow {
        let mut args = args3("fetch", "--progress", "--tags");
        let ghost p0 = args.deep_view();
        args.push("--prune".to_owned());
        proof {
            assert(args.deep_view() =~= p0.push("--prune"@));
        }
        let ghost p1 = args.deep_view();
        args.push("--unshallow".to_owned());
        proof {
            assert(args.deep_view() =~= p1.push("--unshallow"@));
        }
        let ghost p2 = args.deep_view();
        args.push("origin".to_owned());
        proof {
            assert(args.deep_view() =~= p2.push("origin"@));
            assert(args.deep_view() =~= sp_fetch_args(lightweight, is_shallow, revision@));
        }
        args
    } else {
        let mut args = args3("fetch", "--progress", "--tags");
        let ghost p0 = args.deep_view();
        args.push("--prune".to_owned());
        proof {
            assert(args.deep_view() =~= p0.push("--prune"@));
        }
        let ghost p1 = args.deep_view();
        args.push("origin".to_owned());
        proof {
            assert(args.deep_view() =~= p1.push("origin"@));
            assert(args.deep_view() =~= sp_fetch_args(lightweight, is_shallow, revision@));
        }
        args
    }
}

/// The checkout plan as a standalone function.
pub fn checkout_args(revision: &str, force: bool, lightweight: bool) -> (r: Vec<String>)
    ensures
        r.deep_view() == sp_checkout_args(revision@, force, lightweight),
{
    if force {
        let mut args = args1("checkout");
        let ghost p0 = args.deep_view();
        args.push(revision.to_owned());
        proof {
            assert(args.deep_view() =~= p0.push(revision@));
        }
        let ghost p1 = args.deep_view();
        args.push("--progress".to_owned());
        proof {
            assert(args.deep_view() =~= p1.push("--progress"@));
        }
        let ghost p2 = args.deep_view();
        args.push("--force".to_owned());
        proof {
            assert(args.deep_view() =~= p2.push("--force"@));
            assert(args.deep_view() =~= sp_checkout_args(revision@, force, lightweight));
        }
        args
    } else if lightweight {
        let args = args3("checkout", "FETCH_HEAD", "--progress");
        proof {
            assert(args.deep_view() =~= sp_checkout_args(revision@, force, lightweight));
        }
        args
    } else {
        let mut args = args1("checkout");
        let ghost p0 = args.deep_view();
        args.push(revision.to_owned());
        proof {
            assert(args.deep_view() =~= p0.push(revision@));
        }
        let ghost p1 = args.deep_view();
        args.push("--progress".to_owned());
        proof {
            assert(args.deep_view() =~= p1.push("--progress"@));
            assert(args.deep_view() =~= sp_checkout_args(revision@, force, lightweight));
        }
        args
    }
}

/// The current-revision query: `rev-parse HEAD`.
pub fn rev_parse_head_args() -> (r: Vec<String>)
    ensures
        r.deep_view() == sp_rev_parse_head_args(),
{
    args2("rev-parse", "HEAD")
}

/// The modification query: `status --porcelain --untracked-files=no`.
pub fn status_args() -> (r: Vec<String>)
    ensures
        r.deep_view() == sp_status_args(),
{
    args3("status", "--porcelain", "--untracked-files=no")
}

/// A working copy is modified exactly when the porcelain status printed
/// anything.
pub fn is_modified_from_status(stdout: &str) -> (r: bool)
    ensures
        r == (stdout@.len() > 0),
{
    stdout.unicode_len() > 0
}

/// The commit identifier from the query's output: the text with line
/// endings stripped.
pub fn clean_commit_id(stdout: &str) -> (r: String)
    ensures
        r@ == crate::text::sp_strip_crlf(stdout@),
{
    crate::text::strip_crlf(stdout)
}

fn args1(a: &str) -> (r: Vec<String>)
    ensures
        r.deep_view() == seq![a@],
{
    let mut v: Vec<String> = Vec::new();
    v.push(a.to_owned());
    proof {
        assert(v.deep_view() =~= seq![a@]);
    }
    v
}

fn args2(a: &str, b: &str) -> (r: Vec<String>)
    ensures
        r.deep_view() == seq![a@, b@],
{
    let mut v = args1(a);
    let ghost p = v.deep_view();
    v.push(b.to_owned());
    proof {
        assert(v.deep_view() =~= p.push(b@));
        assert(v.deep_view() =~= seq![a@, b@]);
    }
    v
}

fn args3(a: &str, b: &str, c: &str) -> (r: Vec<String>)
    ensures
        r.deep_view() == seq![a@, b@, c@],
{
    let mut v = args2(a, b);
    let ghost p = v.deep_view();
    v.push(c.to_owned());
    proof {
        assert(v.deep_view() =~= p.push(c@));
        assert(v.deep_view() =~= seq![a@, b@, c@]);
    }
    v
}

/// Idempotent re-sync: on a repository that is already at its revision and
/// clean, a full (non-shallow, non-forced) pipeline whose commands all
/// succeed runs to completion — no stage turns a clean, successful run into
/// a failure.
pub proof fn lemma_clean_resync_succeeds(
    path: Seq<char>,
    revision: Seq<char>,
    shallow_out: Seq<char>,
    fetch_out: Seq<char>,
    checkout_out: Seq<char>,
    branch_out: Seq<char>,
    merge_out: Seq<char>,
)
    ensures
        ({
            let m0 = sp_checkout_new(path, revision, false, false);
            let m1 = sp_checkout_step(m0, EventModel::Exited(true, shallow_out));
            let m2 = sp_checkout_step(m1, EventModel::Exited(true, fetch_out));
            let m3 = sp_checkout_step(m2, EventModel::Exited(true, checkout_out));
            let m4 = sp_checkout_step(m3, EventModel::Exited(true, Seq::empty()));
            let m5 = sp_checkout_step(m4, EventModel::Exited(true, branch_out));
            let m6 = sp_checkout_step(m5, EventModel::Exited(true, merge_out));
            (if sp_contains(branch_out, "On branch"@) {
                m6
            } else {
                m5
            }).phase is Done
        }),
{
}

/// Re-running initialization on an existing repository is harmless: with
/// every command succeeding — whether or not an origin remote already
/// exists — the sequence runs to completion.
pub proof fn lemma_clean_init_succeeds(
    url: Seq<char>,
    init_out: Seq<char>,
    query_exists: bool,
    query_out: Seq<char>,
    update_out: Seq<char>,
)
    ensures
        ({
            let m0 = sp_init_new(url);
            let m1 = sp_init_step(m0, EventModel::Exited(true, init_out));
            let m2 = sp_init_step(m1, EventModel::Exited(query_exists, query_out));
            let m3 = sp_init_step(m2, EventModel::Exited(true, update_out));
            m3.phase is Done
        }),
{
}

/// Dirty-working-copy guard: a non-empty status after checkout fails the
/// pipeline with the "please commit or stash" message unless `force`
/// discarded local edits, in which case the pipeline proceeds.
pub proof fn lemma_dirty_guard(m: CheckoutModel, success: bool, out: Seq<char>)
    requires
        m.phase is QueryStatus,
        out.len() > 0,
    ensures
        !m.force ==> sp_checkout_step(m, EventModel::Exited(success, out)).phase is Failed,
        !m.force ==> sp_checkout_step(m, EventModel::Exited(success, out)).error == sp_dirty_error(
            m.path,
        ),
        m.force ==> sp_checkout_step(m, EventModel::Exited(success, out)).phase is QueryBranch,
{
}

/// Lightweight constraint: a shallow sync of a raw commit identifier is
/// rejected before any command runs.
pub proof fn lemma_shallow_commit_id_rejected(
    path: Seq<char>,
    revision: Seq<char>,
    force: bool,
)
    requires
        sp_is_commit_id(revision),
    ensures
        sp_checkout_new(path, revision, force, true).phase is Failed,
        sp_checkout_new(path, revision, force, true).error == sp_shallow_reject_error(path),
        sp_checkout_pending(sp_checkout_new(path, revision, force, true)) is None,
{
}

} // verus!
