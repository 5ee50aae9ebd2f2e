//! consign drain — push eligible repos safely.
//!
//! For each repo that the policy finds auto-ok and that is ahead or has no
//! upstream, either performs (or plans) the appropriate git push. Repos the
//! policy leaves to a human are listed as needing one. Never force-pushes.

use vstd::prelude::*;

use crate::text::{lines_of, lemma_lines_of_split};
use crate::text::{
    contains_exec, contains_seq, occurs_at, dec, display_name, display_name_exec, push_dec, push_str,
    to_chars,
};
use crate::policy::{policy_spec, PolicyCfg, PolicyClass, RepoProbe};
use crate::{string_views, DebtClass, RepoDebt};

verus! {

// ---------------------------------------------------------------------------
// What each debt class means to drain
// ---------------------------------------------------------------------------

/// Policy decision for a repo.
#[derive(Debug, Clone, Copy, PartialEq, Eq, Structural)]
pub enum PolicyDecision {
    /// Drain may push automatically.
    AutoOk,
    /// Diverged — leave for human.
    ManualOnly,
    /// No remote — drain doesn't mint remotes; use consign-publish.
    NoRemote,
    /// Already clean.
    Clean,
}

pub open spec fn classify_spec(c: DebtClass) -> PolicyDecision {
    match c {
        DebtClass::Ahead { .. } => PolicyDecision::AutoOk,
        DebtClass::NoUpstream { .. } => PolicyDecision::AutoOk,
        DebtClass::Diverged { .. } => PolicyDecision::ManualOnly,
        DebtClass::NoRemote => PolicyDecision::NoRemote,
        DebtClass::Clean => PolicyDecision::Clean,
    }
}

/// Classify a repo's push-debt into a policy decision.
pub fn classify(debt: &RepoDebt) -> (r: PolicyDecision)
    ensures
        r == classify_spec(debt.class),
{
    match &debt.class {
        DebtClass::Ahead { .. } => PolicyDecision::AutoOk,
        DebtClass::NoUpstream { .. } => PolicyDecision::AutoOk,
        DebtClass::Diverged { .. } => PolicyDecision::ManualOnly,
        DebtClass::NoRemote => PolicyDecision::NoRemote,
        DebtClass::Clean => PolicyDecision::Clean,
    }
}

// ---------------------------------------------------------------------------
// Drain action types
// ---------------------------------------------------------------------------

/// The push action that drain will take for a repo.
#[derive(Debug, Clone, Copy, PartialEq, Eq, Structural)]
pub enum DrainAction {
    /// `git push` (upstream set, n commits ahead)
    Push,
    /// `git push --set-upstream origin <branch>`
    SetUpstream,
    /// Skip — diverged or manual-only; human must resolve
    Skip,
    /// Skip — no remote; consign-publish handles this
    NoRemote,
    /// Skip — already clean
    Clean,
}

/// Result of a single drain attempt.
#[derive(Debug, Clone, Copy, PartialEq, Eq, Structural)]
pub enum ActionResult {
    Success,
    DryRun,
    Error,
}

/// Per-repo receipt emitted by drain.
#[derive(Debug, Clone)]
pub struct DrainReceipt {
    /// Repo name (last path component).
    pub name: String,
    /// Absolute path to the repo root.
    pub path: String,
    /// Current branch.
    pub branch: String,
    /// The action taken (or planned in dry-run).
    pub action: DrainAction,
    /// Result status.
    pub result: ActionResult,
    /// Number of commits pushed (0 for dry-run or skip).
    pub commits_pushed: u32,
    /// Error detail if result is Error.
    pub error_detail: Option<String>,
}

/// A receipt's content as values.
pub struct ReceiptView {
    pub name: Seq<char>,
    pub path: Seq<char>,
    pub branch: Seq<char>,
    pub action: DrainAction,
    pub result: ActionResult,
    pub commits_pushed: u32,
    pub error_detail: Option<Seq<char>>,
}

impl View for DrainReceipt {
    type V = ReceiptView;

    open spec fn view(&self) -> ReceiptView {
        ReceiptView {
            name: self.name@,
            path: self.path@,
            branch: self.branch@,
            action: self.action,
            result: self.result,
            commits_pushed: self.commits_pushed,
            error_detail: match self.error_detail {
                Some(d) => Some(d@),
                None => None,
            },
        }
    }
}

/// The views of a sequence of receipts.
pub open spec fn receipt_views(rs: Seq<DrainReceipt>) -> Seq<ReceiptView> {
    rs.map_values(|r: DrainReceipt| r@)
}

// ---------------------------------------------------------------------------
// Push runner (injectable for testing)
// ---------------------------------------------------------------------------

/// The result of running a git push command.
#[derive(Debug)]
pub struct PushOutcome {
    pub success: bool,
    pub stderr: String,
}

impl View for PushOutcome {
    type V = (bool, Seq<char>);

    open spec fn view(&self) -> (bool, Seq<char>) {
        (self.success, self.stderr@)
    }
}

/// A push argument that would overwrite remote history.
pub open spec fn is_force_flag(a: Seq<char>) -> bool {
    a == "--force"@ || a == "--force-with-lease"@
}

/// No argument is a force flag.
pub open spec fn no_force_flags(args: Seq<Seq<char>>) -> bool {
    forall|i: int| 0 <= i < args.len() ==> !is_force_flag(#[trigger] args[i])
}

/// True when `name` is `--force` or `--force-with-lease`.
pub fn is_force_flag_name(name: &String) -> (r: bool)
    ensures
        r == is_force_flag(name@),
{
    let force = String::from_str("--force");
    let lease = String::from_str("--force-with-lease");
    *name == force || *name == lease
}

/// The views of a list of string slices.
pub open spec fn str_views(args: Seq<&str>) -> Seq<Seq<char>> {
    args.map_values(|a: &str| a@)
}

/// Trait for running git push — injectable in tests.
pub trait PushRunner: Send + Sync {
    /// The answers (success, stderr) that this runner can give to a push of
    /// `repo` with `args`. A runner that does not say otherwise may give any
    /// answer; through `dyn PushRunner` nothing more is known of it than what
    /// `run_push` ensures.
    open spec fn answers(&self, repo: Seq<char>, args: Seq<Seq<char>>, outcome: (bool, Seq<char>)) -> bool {
        true
    }

    /// Run a git push. The args are the arguments passed to `git push`;
    /// they never contain `--force` or `--force-with-lease`. What comes back
    /// is one of the runner's answers to this push.
    fn run_push(&self, repo: &str, args: &[&str]) -> (o: PushOutcome)
        requires
            forall|i: int| 0 <= i < args@.len() ==> !is_force_flag(#[trigger] args@[i]@),
        ensures
            self.answers(repo@, str_views(args@), o@),
    ;
}

// ---------------------------------------------------------------------------
// Drain configuration
// ---------------------------------------------------------------------------

/// Configuration for a drain run.
pub struct DrainConfig<'a> {
    /// If true, plan but do not push.
    pub dry_run: bool,
    /// If not empty, only drain repos whose name is one of these.
    pub only: &'a [String],
    /// The policy configuration that decides push-eligibility.
    pub policy: &'a PolicyCfg,
    /// Push runner (real or injected test double).
    pub runner: &'a dyn PushRunner,
}

// ---------------------------------------------------------------------------
// What drain does to one repo
// ---------------------------------------------------------------------------

/// The `--only` filter lets `name` through.
pub open spec fn only_allows(only: Seq<Seq<char>>, name: Seq<char>) -> bool {
    only.len() == 0 || only.contains(name)
}

/// The push that drain plans for a push-eligible class.
pub open spec fn planned_action(c: DebtClass) -> DrainAction {
    match c {
        DebtClass::NoUpstream { .. } => DrainAction::SetUpstream,
        _ => DrainAction::Push,
    }
}

/// The number of commits that a push of this class carries.
pub open spec fn commits_ahead(c: DebtClass) -> u32 {
    match c {
        DebtClass::Ahead { n } => n,
        DebtClass::NoUpstream { n } => n,
        _ => 0,
    }
}

/// The arguments drain hands to `git push` for an action.
pub open spec fn push_args_spec(action: DrainAction, branch: Seq<char>) -> Seq<Seq<char>> {
    if action == DrainAction::SetUpstream {
        seq!["--set-upstream"@, "origin"@, branch]
    } else {
        Seq::empty()
    }
}

/// Drain pushes this repo: it passes the filter, the policy says auto-ok, it
/// has commits to push (ahead, or no upstream), and this is not a dry run.
pub open spec fn pushes(
    debt: RepoDebt,
    cfg: PolicyCfg,
    probe: RepoProbe,
    dry_run: bool,
    only: Seq<Seq<char>>,
) -> bool {
    &&& only_allows(only, display_name(debt.path@))
    &&& policy_spec(debt, cfg, probe) == PolicyClass::AutoOk
    &&& classify_spec(debt.class) == PolicyDecision::AutoOk
    &&& !dry_run
}

/// The detail recorded for a diverged repo.
pub open spec fn diverged_detail(c: DebtClass) -> Seq<char> {
    let (a, b) = match c {
        DebtClass::Diverged { a, b } => (a, b),
        _ => (0u32, 0u32),
    };
    "diverged (ahead "@ + dec(a as nat) + " behind "@ + dec(b as nat) + ") — needs human review"@
}

/// The detail recorded for a repo with commits to push that the policy leaves
/// to a human (off its default branch, or detached).
pub open spec fn manual_detail(debt: RepoDebt) -> Seq<char> {
    "manual-only (branch "@ + debt.branch@ + ") — needs human review"@
}

pub open spec fn receipt_view(
    debt: RepoDebt,
    action: DrainAction,
    result: ActionResult,
    commits_pushed: u32,
    error_detail: Option<Seq<char>>,
) -> ReceiptView {
    ReceiptView {
        name: display_name(debt.path@),
        path: debt.path@,
        branch: debt.branch@,
        action,
        result,
        commits_pushed,
        error_detail,
    }
}

/// The receipt for a push that git answered with `o` (success, stderr).
pub open spec fn push_receipt_spec(debt: RepoDebt, o: (bool, Seq<char>)) -> ReceiptView {
    if o.0 {
        receipt_view(debt, planned_action(debt.class), ActionResult::Success, commits_ahead(debt.class), None)
    } else {
        receipt_view(debt, planned_action(debt.class), ActionResult::Error, 0, Some(o.1))
    }
}

/// The receipt that drain writes for `debt`; `o` is git's answer to the push,
/// and only matters when drain pushes.
///
/// The `--only` filter comes first. A clean repo, one without a remote and a
/// diverged one get the receipt of their class whatever the policy says; the
/// policy decides only for a repo with commits to push (ahead, or without an
/// upstream): held private, left to a human, or pushed.
pub open spec fn drain_spec(
    debt: RepoDebt,
    cfg: PolicyCfg,
    probe: RepoProbe,
    dry_run: bool,
    only: Seq<Seq<char>>,
    o: (bool, Seq<char>),
) -> ReceiptView {
    if !only_allows(only, display_name(debt.path@)) {
        receipt_view(debt, DrainAction::Skip, ActionResult::Success, 0, Some("excluded by --only filter"@))
    } else {
        match classify_spec(debt.class) {
            PolicyDecision::Clean => receipt_view(debt, DrainAction::Clean, ActionResult::Success, 0, None),
            PolicyDecision::NoRemote => receipt_view(
                debt,
                DrainAction::NoRemote,
                ActionResult::Success,
                0,
                Some("no remote configured; use consign-publish to create remote"@),
            ),
            PolicyDecision::ManualOnly => receipt_view(
                debt,
                DrainAction::Skip,
                ActionResult::Success,
                0,
                Some(diverged_detail(debt.class)),
            ),
            PolicyDecision::AutoOk => if policy_spec(debt, cfg, probe) == PolicyClass::PrivateHold {
                receipt_view(debt, DrainAction::Skip, ActionResult::Success, 0, Some("private-hold — never auto-pushed"@))
            } else if policy_spec(debt, cfg, probe) == PolicyClass::ManualOnly {
                receipt_view(debt, DrainAction::Skip, ActionResult::Success, 0, Some(manual_detail(debt)))
            } else if dry_run {
                receipt_view(debt, planned_action(debt.class), ActionResult::DryRun, 0, None)
            } else {
                push_receipt_spec(debt, o)
            },
        }
    }
}

/// A push of this repo would not hand git a force flag.
pub open spec fn push_is_safe(debt: RepoDebt, dry_run: bool) -> bool {
    (debt.class is NoUpstream && !dry_run) ==> !is_force_flag(debt.branch@)
}

fn receipt(
    name: String,
    debt: &RepoDebt,
    action: DrainAction,
    result: ActionResult,
    commits_pushed: u32,
    error_detail: Option<String>,
) -> (r: DrainReceipt)
    requires
        name@ == display_name(debt.path@),
    ensures
        r@ == receipt_view(
            *debt,
            action,
            result,
            commits_pushed,
            match error_detail {
                Some(d) => Some(d@),
                None => None,
            },
        ),
{
    DrainReceipt {
        name,
        path: debt.path.clone(),
        branch: debt.branch.clone(),
        action,
        result,
        commits_pushed,
        error_detail,
    }
}

/// The receipt for a push of `debt` that git answered with `outcome`.
pub fn push_receipt(debt: &RepoDebt, outcome: PushOutcome) -> (r: DrainReceipt)
    ensures
        r@ == push_receipt_spec(*debt, outcome@),
{
    let name = display_name_exec(debt.path.as_str());
    let action = match &debt.class {
        DebtClass::NoUpstream { .. } => DrainAction::SetUpstream,
        _ => DrainAction::Push,
    };
    if outcome.success {
        let commits = match &debt.class {
            DebtClass::Ahead { n } => *n,
            DebtClass::NoUpstream { n } => *n,
            _ => 0,
        };
        receipt(name, debt, action, ActionResult::Success, commits, None)
    } else {
        receipt(name, debt, action, ActionResult::Error, 0, Some(outcome.stderr))
    }
}

fn diverged_detail_exec(c: &DebtClass) -> (r: String)
    ensures
        r@ == diverged_detail(*c),
{
    let (a, b) = match c {
        DebtClass::Diverged { a, b } => (*a, *b),
        _ => (0u32, 0u32),
    };
    let mut out = String::new();
    push_str(&mut out, "diverged (ahead ");
    push_dec(&mut out, a as u64);
    push_str(&mut out, " behind ");
    push_dec(&mut out, b as u64);
    push_str(&mut out, ") — needs human review");
    proof {
        assert(out@ =~= diverged_detail(*c));
    }
    out
}

fn manual_detail_exec(debt: &RepoDebt) -> (r: String)
    ensures
        r@ == manual_detail(*debt),
{
    let mut out = String::new();
    push_str(&mut out, "manual-only (branch ");
    push_str(&mut out, debt.branch.as_str());
    push_str(&mut out, ") — needs human review");
    proof {
        assert(out@ =~= manual_detail(*debt));
    }
    out
}

/// True when one of `only` is `name`.
fn only_contains(only: &[String], name: &String) -> (r: bool)
    ensures
        r == string_views(only@).contains(name@),
{
    let mut i: usize = 0;
    while i < only.len()
        invariant
            0 <= i <= only.len(),
            forall|j: int| 0 <= j < i ==> only@[j]@ != name@,
        decreases only.len() - i,
    {
        if only[i] == *name {
            proof {
                assert(string_views(only@)[i as int] == name@);
            }
            return true;
        }
        i = i + 1;
    }
    proof {
        if string_views(only@).contains(name@) {
            let j = choose|j: int| 0 <= j < only@.len() && string_views(only@)[j] == name@;
            assert(only@[j]@ == name@);
        }
    }
    false
}

/// The next step of drain for one repo: either its receipt, when drain does
/// not push it, or the one push to make.
pub enum DrainStep {
    /// No push: this is the repo's receipt.
    Done(DrainReceipt),
    /// Push the repo at `repo` with `git push <args>`.
    Push { repo: String, args: Vec<String> },
}

/// Decide what drain does to `debt`: a push exactly when `pushes` holds, of
/// the debt's own path with the arguments `push_args_spec` gives; otherwise
/// the receipt, which then does not depend on any push outcome.
pub fn drain_step(debt: &RepoDebt, probe: &RepoProbe, config: &DrainConfig<'_>) -> (s: DrainStep)
    ensures
        (s is Push) == pushes(
            *debt,
            *config.policy,
            *probe,
            config.dry_run,
            string_views(config.only@),
        ),
        s matches DrainStep::Push { repo, args } ==> repo@ == debt.path@ && string_views(args@)
            == push_args_spec(planned_action(debt.class), debt.branch@),
        s matches DrainStep::Done(r) ==> forall|o: (bool, Seq<char>)|
            #![trigger drain_spec(*debt, *config.policy, *probe, config.dry_run, string_views(config.only@), o)]
            r@ == drain_spec(
                *debt,
                *config.policy,
                *probe,
                config.dry_run,
                string_views(config.only@),
                o,
            ),
{
    let ghost only = string_views(config.only@);
    let ghost cfg = *config.policy;
    let name = display_name_exec(debt.path.as_str());

    // --only filter
    if config.only.len() > 0 && !only_contains(config.only, &name) {
        let r = receipt(
            name,
            debt,
            DrainAction::Skip,
            ActionResult::Success,
            0,
            Some(String::from_str("excluded by --only filter")),
        );
        return DrainStep::Done(r);
    }
    match classify(debt) {
        PolicyDecision::Clean => {
            DrainStep::Done(receipt(name, debt, DrainAction::Clean, ActionResult::Success, 0, None))
        },
        PolicyDecision::NoRemote => {
            let r = receipt(
                name,
                debt,
                DrainAction::NoRemote,
                ActionResult::Success,
                0,
                Some(String::from_str("no remote configured; use consign-publish to create remote")),
            );
            DrainStep::Done(r)
        },
        PolicyDecision::ManualOnly => {
            let detail = diverged_detail_exec(&debt.class);
            DrainStep::Done(receipt(name, debt, DrainAction::Skip, ActionResult::Success, 0, Some(detail)))
        },
        PolicyDecision::AutoOk => {
            // the policy gate: only for a repo with commits to push
            match crate::policy::classify(debt, config.policy, probe) {
                PolicyClass::PrivateHold => {
                    let r = receipt(
                        name,
                        debt,
                        DrainAction::Skip,
                        ActionResult::Success,
                        0,
                        Some(String::from_str("private-hold — never auto-pushed")),
                    );
                    return DrainStep::Done(r);
                },
                PolicyClass::ManualOnly => {
                    let detail = manual_detail_exec(debt);
                    let r = receipt(name, debt, DrainAction::Skip, ActionResult::Success, 0, Some(detail));
                    return DrainStep::Done(r);
                },
                PolicyClass::AutoOk => {},
            }
            let action = match &debt.class {
                DebtClass::NoUpstream { .. } => DrainAction::SetUpstream,
                _ => DrainAction::Push,
            };
            if config.dry_run {
                return DrainStep::Done(receipt(name, debt, action, ActionResult::DryRun, 0, None));
            }
            let mut args: Vec<String> = Vec::new();
            if action == DrainAction::SetUpstream {
                args.push(String::from_str("--set-upstream"));
                args.push(String::from_str("origin"));
                args.push(debt.branch.clone());
            }
            proof {
                assert(string_views(args@) =~= push_args_spec(action, debt.branch@));
            }
            DrainStep::Push { repo: debt.path.clone(), args }
        },
    }
}

/// Drain a single repo according to its policy verdict and class.
///
/// Takes the step `drain_step` gives: when it is a push, makes that one push
/// through the runner and records git's answer with `push_receipt`, so that
/// the receipt is the one for an answer of the runner to a push of the repo's
/// own path with the planned arguments; otherwise returns the step's receipt,
/// which no push outcome changes, without calling the runner.
pub fn drain_one(debt: &RepoDebt, probe: &RepoProbe, config: &DrainConfig<'_>) -> (r: DrainReceipt)
    requires
        push_is_safe(*debt, config.dry_run),
    ensures
        exists|o: (bool, Seq<char>)|
            r@ == drain_spec(
                *debt,
                *config.policy,
                *probe,
                config.dry_run,
                string_views(config.only@),
                o,
            ),
        pushes(*debt, *config.policy, *probe, config.dry_run, string_views(config.only@))
            ==> exists|o: (bool, Seq<char>)|
            #![trigger push_receipt_spec(*debt, o)]
            config.runner.answers(
                debt.path@,
                push_args_spec(planned_action(debt.class), debt.branch@),
                o,
            ) && r@ == push_receipt_spec(*debt, o),
        !pushes(*debt, *config.policy, *probe, config.dry_run, string_views(config.only@))
            ==> forall|o: (bool, Seq<char>)|
            #![trigger drain_spec(*debt, *config.policy, *probe, config.dry_run, string_views(config.only@), o)]
            r@ == drain_spec(
                *debt,
                *config.policy,
                *probe,
                config.dry_run,
                string_views(config.only@),
                o,
            ),
{
    let ghost only = string_views(config.only@);
    match drain_step(debt, probe, config) {
        DrainStep::Done(r) => {
            proof {
                assert(r@ == drain_spec(
                    *debt,
                    *config.policy,
                    *probe,
                    config.dry_run,
                    only,
                    (true, Seq::empty()),
                ));
            }
            r
        },
        DrainStep::Push { repo, args } => {
            let ghost want = push_args_spec(planned_action(debt.class), debt.branch@);
            proof {
                lemma_push_args_never_force(planned_action(debt.class), debt.branch@);
            }
            let mut argv: Vec<&str> = Vec::new();
            let mut i: usize = 0;
            while i < args.len()
                invariant
                    0 <= i <= args.len(),
                    argv@.len() == i,
                    string_views(args@) == want,
                    no_force_flags(want),
                    forall|j: int| 0 <= j < i ==> (#[trigger] argv@[j])@ == want[j],
                decreases args.len() - i,
            {
                argv.push(args[i].as_str());
                proof {
                    assert(string_views(args@)[i as int] == args@[i as int]@);
                }
                i = i + 1;
            }
            proof {
                assert forall|j: int| 0 <= j < argv@.len() implies !is_force_flag(
                    #[trigger] argv@[j]@,
                ) by {
                    assert(argv@[j]@ == want[j]);
                }
            }
            proof {
                assert(str_views(argv@) =~= want);
            }
            let outcome = config.runner.run_push(repo.as_str(), argv.as_slice());
            let ghost o = outcome@;
            let r = push_receipt(debt, outcome);
            proof {
                assert(r@ == drain_spec(*debt, *config.policy, *probe, config.dry_run, only, o));
                assert(r@ == push_receipt_spec(*debt, o));
            }
            r
        },
    }
}

// ---------------------------------------------------------------------------
// Drain over a fleet
// ---------------------------------------------------------------------------

/// A skipped receipt whose detail says it needs a human review.
pub open spec fn needs_human(r: ReceiptView) -> bool {
    &&& r.action == DrainAction::Skip
    &&& r.error_detail is Some
    &&& contains_seq(r.error_detail->0, "needs human review"@)
}

/// The receipts that drain writes for the surveyed repos, in order, when git
/// answers the pushes with `os`.
pub open spec fn drain_all_spec(
    surveyed: Seq<(RepoDebt, RepoProbe)>,
    cfg: PolicyCfg,
    dry_run: bool,
    only: Seq<Seq<char>>,
    os: Seq<(bool, Seq<char>)>,
) -> Seq<ReceiptView> {
    Seq::new(
        surveyed.len(),
        |i: int| drain_spec(surveyed[i].0, cfg, surveyed[i].1, dry_run, only, os[i]),
    )
}

pub proof fn lemma_filter_partition<A>(s: Seq<A>, p: spec_fn(A) -> bool)
    ensures
        s.filter(p).len() + s.filter(|x: A| !p(x)).len() == s.len(),
    decreases s.len(),
{
    reveal(Seq::filter);
    if s.len() > 0 {
        lemma_filter_partition(s.drop_last(), p);
    }
}

fn is_needs_human(r: &DrainReceipt) -> (b: bool)
    ensures
        b == needs_human(r@),
{
    if r.action != DrainAction::Skip {
        return false;
    }
    match &r.error_detail {
        Some(d) => contains_exec(&to_chars(d.as_str()), &to_chars("needs human review")),
        None => false,
    }
}

/// Run drain over surveyed repos, one `drain_one` each, in order.
/// Returns (receipts, needs_human) where needs_human lists, in survey order,
/// the receipts of exactly the repos left to a human (the diverged ones, and
/// those the policy leaves to a human); receipts holds the others, in order.
/// Every repo gets exactly one receipt, in one of the two lists, and each
/// pushed repo's receipt records an answer of the runner to its own push.
pub fn drain_all(surveyed: &[(RepoDebt, RepoProbe)], config: &DrainConfig<'_>) -> (r: (
    Vec<DrainReceipt>,
    Vec<DrainReceipt>,
))
    requires
        forall|i: int|
            0 <= i < surveyed@.len() ==> push_is_safe(#[trigger] surveyed@[i].0, config.dry_run),
    ensures
        exists|os: Seq<(bool, Seq<char>)>|
            #![trigger drain_all_spec(surveyed@, *config.policy, config.dry_run, string_views(config.only@), os)]
            {
                &&& os.len() == surveyed@.len()
                &&& forall|k: int|
                    0 <= k < surveyed@.len() && pushes(
                        surveyed@[k].0,
                        *config.policy,
                        surveyed@[k].1,
                        config.dry_run,
                        string_views(config.only@),
                    ) ==> config.runner.answers(
                        surveyed@[k].0.path@,
                        push_args_spec(planned_action(surveyed@[k].0.class), surveyed@[k].0.branch@),
                        #[trigger] os[k],
                    )
                &&& receipt_views(r.0@) == drain_all_spec(
                    surveyed@,
                    *config.policy,
                    config.dry_run,
                    string_views(config.only@),
                    os,
                ).filter(|x: ReceiptView| !needs_human(x))
                &&& receipt_views(r.1@) == drain_all_spec(
                    surveyed@,
                    *config.policy,
                    config.dry_run,
                    string_views(config.only@),
                    os,
                ).filter(|x: ReceiptView| needs_human(x))
            },
        receipt_views(r.1@) == human_entries(surveyed@, *config.policy, string_views(config.only@))
            .map_values(
            |e: (RepoDebt, RepoProbe)|
                unpushed_receipt(e, *config.policy, config.dry_run, string_views(config.only@)),
        ),
        r.0@.len() + r.1@.len() == surveyed@.len(),
{
    let ghost only = string_views(config.only@);
    let ghost cfg = *config.policy;
    let ghost dry_run = config.dry_run;
    let ghost nh = |x: ReceiptView| needs_human(x);
    let ghost not_nh = |x: ReceiptView| !needs_human(x);
    let mut receipts: Vec<DrainReceipt> = Vec::new();
    let mut needs: Vec<DrainReceipt> = Vec::new();
    let ghost mut os: Seq<(bool, Seq<char>)> = Seq::empty();
    let mut i: usize = 0;
    proof {
        reveal(Seq::filter);
        assert(drain_all_spec(surveyed@.take(0), cfg, dry_run, only, os) =~= Seq::<ReceiptView>::empty());
    }
    while i < surveyed.len()
        invariant
            0 <= i <= surveyed.len(),
            os.len() == i,
            only == string_views(config.only@),
            cfg == *config.policy,
            dry_run == config.dry_run,
            nh == (|x: ReceiptView| needs_human(x)),
            not_nh == (|x: ReceiptView| !needs_human(x)),
            forall|j: int|
                0 <= j < surveyed@.len() ==> push_is_safe(#[trigger] surveyed@[j].0, config.dry_run),
            forall|k: int|
                0 <= k < i && pushes(surveyed@[k].0, cfg, surveyed@[k].1, dry_run, only)
                    ==> config.runner.answers(
                    surveyed@[k].0.path@,
                    push_args_spec(planned_action(surveyed@[k].0.class), surveyed@[k].0.branch@),
                    #[trigger] os[k],
                ),
            receipt_views(receipts@) == drain_all_spec(surveyed@.take(i as int), cfg, dry_run, only, os).filter(not_nh),
            receipt_views(needs@) == drain_all_spec(surveyed@.take(i as int), cfg, dry_run, only, os).filter(nh),
        decreases surveyed.len() - i,
    {
        let receipt = drain_one(&surveyed[i].0, &surveyed[i].1, config);
        let ghost e = surveyed@[i as int];
        let ghost fits = |o: (bool, Seq<char>)|
            receipt@ == drain_spec(e.0, cfg, e.1, dry_run, only, o) && (pushes(
                e.0,
                cfg,
                e.1,
                dry_run,
                only,
            ) ==> config.runner.answers(
                e.0.path@,
                push_args_spec(planned_action(e.0.class), e.0.branch@),
                o,
            ));
        proof {
            if pushes(e.0, cfg, e.1, dry_run, only) {
                let w = choose|w: (bool, Seq<char>)|
                    config.runner.answers(
                        e.0.path@,
                        push_args_spec(planned_action(e.0.class), e.0.branch@),
                        w,
                    ) && receipt@ == push_receipt_spec(e.0, w);
                assert(receipt@ == drain_spec(e.0, cfg, e.1, dry_run, only, w));
                assert(fits(w));
            } else {
                assert(receipt@ == drain_spec(e.0, cfg, e.1, dry_run, only, (true, Seq::empty())));
                assert(fits((true, Seq::empty())));
            }
        }
        let ghost o = choose|o: (bool, Seq<char>)| #[trigger] fits(o);
        assert(fits(o));
        let ghost prev = drain_all_spec(surveyed@.take(i as int), cfg, dry_run, only, os);
        let ghost next = drain_all_spec(surveyed@.take(i + 1), cfg, dry_run, only, os.push(o));
        proof {
            reveal(Seq::filter);
            assert(next.drop_last() =~= prev);
            assert(next.last() == receipt@);
        }
        let ghost rv = receipt@;
        if is_needs_human(&receipt) {
            let ghost before = receipt_views(needs@);
            needs.push(receipt);
            proof {
                assert(receipt_views(needs@) =~= before.push(rv));
            }
        } else {
            let ghost before = receipt_views(receipts@);
            receipts.push(receipt);
            proof {
                assert(receipt_views(receipts@) =~= before.push(rv));
            }
        }
        proof {
            let os_old = os;
            os = os.push(o);
            assert forall|k: int|
                0 <= k < i + 1 && pushes(surveyed@[k].0, cfg, surveyed@[k].1, dry_run, only)
                    implies config.runner.answers(
                    surveyed@[k].0.path@,
                    push_args_spec(planned_action(surveyed@[k].0.class), surveyed@[k].0.branch@),
                    #[trigger] os[k],
                ) by {
                if k < i {
                    assert(os[k] == os_old[k]);
                } else {
                    assert(os[k] == o);
                }
            }
        }
        i = i + 1;
    }
    proof {
        assert(surveyed@.take(surveyed@.len() as int) =~= surveyed@);
        let all = drain_all_spec(surveyed@, cfg, dry_run, only, os);
        lemma_filter_partition(all, nh);
        lemma_needs_human_list(surveyed@, cfg, dry_run, only, os);
        assert((|x: ReceiptView| needs_human(x)) =~= nh);
        assert((|x: ReceiptView| !nh(x)) =~= not_nh);
        assert(all.filter(|x: ReceiptView| !nh(x)) == all.filter(not_nh));
    }
    (receipts, needs)
}

// ---------------------------------------------------------------------------
// Laws of drain
// ---------------------------------------------------------------------------

/// A receipt that says its repo was pushed.
pub open spec fn claims_pushed(r: ReceiptView) -> bool {
    r.result == ActionResult::Success && (r.action == DrainAction::Push || r.action
        == DrainAction::SetUpstream)
}

/// A dry run has no push step (`drain_step` gives a push exactly when `pushes`
/// holds): its receipt does not depend on any push outcome, never records an
/// error, and counts no commits as pushed.
pub proof fn lemma_dry_run_never_pushes(
    debt: RepoDebt,
    cfg: PolicyCfg,
    probe: RepoProbe,
    only: Seq<Seq<char>>,
    o1: (bool, Seq<char>),
    o2: (bool, Seq<char>),
)
    ensures
        !pushes(debt, cfg, probe, true, only),
        drain_spec(debt, cfg, probe, true, only, o1) == drain_spec(debt, cfg, probe, true, only, o2),
        drain_spec(debt, cfg, probe, true, only, o1).result != ActionResult::Error,
        drain_spec(debt, cfg, probe, true, only, o1).commits_pushed == 0,
        !claims_pushed(drain_spec(debt, cfg, probe, true, only, o1)),
{
}

/// A dry run plans exactly what the real run does: for every repo its receipt
/// names the same action as the receipt of a run that pushes, whatever git
/// answers. A repo without an upstream that passes the filter and the policy
/// is planned, and pushed, with `--set-upstream`; one that is ahead, with a
/// plain push.
pub proof fn lemma_dry_run_plans_the_push(
    debt: RepoDebt,
    cfg: PolicyCfg,
    probe: RepoProbe,
    only: Seq<Seq<char>>,
    o: (bool, Seq<char>),
)
    ensures
        drain_spec(debt, cfg, probe, true, only, o).action == drain_spec(
            debt,
            cfg,
            probe,
            false,
            only,
            o,
        ).action,
        only_allows(only, display_name(debt.path@)) && policy_spec(debt, cfg, probe)
            == PolicyClass::AutoOk && debt.class is NoUpstream ==> {
            &&& drain_spec(debt, cfg, probe, true, only, o).action == DrainAction::SetUpstream
            &&& drain_spec(debt, cfg, probe, true, only, o).result == ActionResult::DryRun
            &&& pushes(debt, cfg, probe, false, only)
            &&& push_args_spec(drain_spec(debt, cfg, probe, false, only, o).action, debt.branch@)
                == seq!["--set-upstream"@, "origin"@, debt.branch@]
        },
        only_allows(only, display_name(debt.path@)) && policy_spec(debt, cfg, probe)
            == PolicyClass::AutoOk && debt.class is Ahead ==> {
            &&& drain_spec(debt, cfg, probe, true, only, o).action == DrainAction::Push
            &&& drain_spec(debt, cfg, probe, true, only, o).result == ActionResult::DryRun
            &&& pushes(debt, cfg, probe, false, only)
            &&& push_args_spec(drain_spec(debt, cfg, probe, false, only, o).action, debt.branch@)
                == Seq::<Seq<char>>::empty()
        },
{
}

/// What git answers a push decides its receipt: on success the receipt
/// counts as pushed the commits the repo was ahead by (or had on no remote);
/// on failure it records an error with git's message and no commits.
pub proof fn lemma_push_outcome_recorded(
    debt: RepoDebt,
    cfg: PolicyCfg,
    probe: RepoProbe,
    only: Seq<Seq<char>>,
    o: (bool, Seq<char>),
)
    requires
        pushes(debt, cfg, probe, false, only),
    ensures
        o.0 ==> drain_spec(debt, cfg, probe, false, only, o).result == ActionResult::Success,
        o.0 ==> (debt.class matches DebtClass::Ahead { n } ==> drain_spec(debt, cfg, probe, false, only, o).commits_pushed == n),
        o.0 ==> (debt.class matches DebtClass::NoUpstream { n } ==> drain_spec(debt, cfg, probe, false, only, o).commits_pushed == n),
        !o.0 ==> drain_spec(debt, cfg, probe, false, only, o).result == ActionResult::Error,
        !o.0 ==> drain_spec(debt, cfg, probe, false, only, o).commits_pushed == 0,
        !o.0 ==> drain_spec(debt, cfg, probe, false, only, o).error_detail == Some(o.1),
        drain_spec(debt, cfg, probe, false, only, o).path == debt.path@,
        drain_spec(debt, cfg, probe, false, only, o).branch == debt.branch@,
{
}

/// With a non-empty `--only` list, a repo whose name is not on it is skipped
/// as excluded and never pushed; with an empty list, or when its name is on
/// it, the filter lets it through.
pub proof fn lemma_only_filter(
    debt: RepoDebt,
    cfg: PolicyCfg,
    probe: RepoProbe,
    dry_run: bool,
    only: Seq<Seq<char>>,
    o: (bool, Seq<char>),
)
    ensures
        only.len() > 0 && !only.contains(display_name(debt.path@)) ==> {
            &&& !pushes(debt, cfg, probe, dry_run, only)
            &&& drain_spec(debt, cfg, probe, dry_run, only, o).action == DrainAction::Skip
            &&& drain_spec(debt, cfg, probe, dry_run, only, o).error_detail == Some(
                "excluded by --only filter"@,
            )
        },
        only.len() == 0 || only.contains(display_name(debt.path@)) ==> drain_spec(
            debt,
            cfg,
            probe,
            dry_run,
            only,
            o,
        ) == drain_spec(debt, cfg, probe, dry_run, Seq::empty(), o),
{
}

/// The arguments drain hands to `git push` never hold `--force` or
/// `--force-with-lease` (for a branch that is not itself named like one, where
/// the branch is handed over at all).
pub proof fn lemma_push_args_never_force(action: DrainAction, branch: Seq<char>)
    requires
        action == DrainAction::SetUpstream ==> !is_force_flag(branch),
    ensures
        no_force_flags(push_args_spec(action, branch)),
{
    reveal_strlit("--set-upstream");
    reveal_strlit("origin");
    reveal_strlit("--force");
    reveal_strlit("--force-with-lease");
    if action == DrainAction::SetUpstream {
        let args = push_args_spec(action, branch);
        assert(args[0] == "--set-upstream"@);
        assert(args[1] == "origin"@);
        assert(!is_force_flag(args[0]));
        assert(!is_force_flag(args[1]));
    }
}

/// Only auto-ok repos are pushed: a repo that the policy holds private or
/// leaves to a human gets no push and no receipt of a push, done or planned.
pub proof fn lemma_only_auto_ok_pushed(
    debt: RepoDebt,
    cfg: PolicyCfg,
    probe: RepoProbe,
    dry_run: bool,
    only: Seq<Seq<char>>,
    o: (bool, Seq<char>),
)
    requires
        policy_spec(debt, cfg, probe) != PolicyClass::AutoOk,
    ensures
        !pushes(debt, cfg, probe, dry_run, only),
        !claims_pushed(drain_spec(debt, cfg, probe, dry_run, only, o)),
        !is_actionable(drain_spec(debt, cfg, probe, dry_run, only, o)),
        drain_spec(debt, cfg, probe, dry_run, only, o).commits_pushed == 0,
{
}

/// A diverged repo is never pushed.
pub proof fn lemma_diverged_never_pushed(
    debt: RepoDebt,
    cfg: PolicyCfg,
    probe: RepoProbe,
    dry_run: bool,
    only: Seq<Seq<char>>,
    o: (bool, Seq<char>),
)
    requires
        debt.class is Diverged,
    ensures
        !pushes(debt, cfg, probe, dry_run, only),
        drain_spec(debt, cfg, probe, dry_run, only, o).action == DrainAction::Skip,
        drain_spec(debt, cfg, probe, dry_run, only, o).commits_pushed == 0,
{
}

/// A diverged repo that passes the filter gets the diverged receipt, whatever
/// the policy says of it (held private or not).
pub proof fn lemma_diverged_receipt(
    debt: RepoDebt,
    cfg: PolicyCfg,
    probe: RepoProbe,
    dry_run: bool,
    only: Seq<Seq<char>>,
    o: (bool, Seq<char>),
)
    requires
        debt.class is Diverged,
        only_allows(only, display_name(debt.path@)),
    ensures
        drain_spec(debt, cfg, probe, dry_run, only, o) == receipt_view(
            debt,
            DrainAction::Skip,
            ActionResult::Success,
            0,
            Some(diverged_detail(debt.class)),
        ),
        needs_human(drain_spec(debt, cfg, probe, dry_run, only, o)),
{
    lemma_needs_human_iff(debt, cfg, probe, dry_run, only, o);
}

/// The details drain records for the repos it leaves to a human: a diverged
/// repo's counts, ahead first and behind second, and a manual-only repo's
/// branch; both end with "needs human review".
pub proof fn lemma_human_detail_text(debt: RepoDebt)
    ensures
        debt.class matches DebtClass::Diverged { a, b } ==> diverged_detail(debt.class) == "diverged (ahead "@
            + dec(a as nat) + " behind "@ + dec(b as nat) + ") — needs human review"@,
        manual_detail(debt) == "manual-only (branch "@ + debt.branch@ + ") — needs human review"@,
{
}

/// Drain leaves this repo to a human: it passes the filter, and it has
/// diverged, or it has commits to push and the policy leaves it to a human.
pub open spec fn goes_to_human(
    debt: RepoDebt,
    cfg: PolicyCfg,
    probe: RepoProbe,
    only: Seq<Seq<char>>,
) -> bool {
    &&& only_allows(only, display_name(debt.path@))
    &&& (debt.class is Diverged || (classify_spec(debt.class) == PolicyDecision::AutoOk
        && policy_spec(debt, cfg, probe) == PolicyClass::ManualOnly))
}

proof fn lemma_tail_needs_human(head: Seq<char>)
    ensures
        contains_seq(head + ") — needs human review"@, "needs human review"@),
{
    reveal_strlit("needs human review");
    reveal_strlit(") — needs human review");
    let d = head + ") — needs human review"@;
    let tail = ") — needs human review"@;
    assert(tail.subrange(4, 22) =~= "needs human review"@);
    assert(d.subrange(d.len() - 22, d.len() as int) =~= tail);
    assert(d.subrange(d.len() - 18, d.len() as int) =~= "needs human review"@);
    assert(occurs_at(d, "needs human review"@, d.len() - 18));
}

proof fn lemma_no_w_no_needs_human(d: Seq<char>)
    requires
        forall|i: int| 0 <= i < d.len() ==> d[i] != 'w',
    ensures
        !contains_seq(d, "needs human review"@),
{
    reveal_strlit("needs human review");
    let p = "needs human review"@;
    assert(p[17] == 'w');
    assert forall|i: int| !occurs_at(d, p, i) by {
        if occurs_at(d, p, i) {
            assert(d.subrange(i, i + 18)[17] == 'w');
            assert(d[i + 17] == 'w');
        }
    }
}

/// A receipt is listed under "needs human" exactly when drain leaves its repo
/// to a human; such a repo is not pushed, and its receipt does not depend on
/// any push outcome.
pub proof fn lemma_needs_human_iff(
    debt: RepoDebt,
    cfg: PolicyCfg,
    probe: RepoProbe,
    dry_run: bool,
    only: Seq<Seq<char>>,
    o: (bool, Seq<char>),
)
    ensures
        needs_human(drain_spec(debt, cfg, probe, dry_run, only, o)) == goes_to_human(
            debt,
            cfg,
            probe,
            only,
        ),
        goes_to_human(debt, cfg, probe, only) ==> !pushes(debt, cfg, probe, dry_run, only),
        goes_to_human(debt, cfg, probe, only) ==> drain_spec(debt, cfg, probe, dry_run, only, o)
            == drain_spec(debt, cfg, probe, dry_run, only, (true, Seq::empty())),
{
    let r = drain_spec(debt, cfg, probe, dry_run, only, o);
    if !only_allows(only, display_name(debt.path@)) {
        reveal_strlit("excluded by --only filter");
        lemma_no_w_no_needs_human("excluded by --only filter"@);
    } else if debt.class is Diverged {
        let (a, b) = match debt.class {
            DebtClass::Diverged { a, b } => (a, b),
            _ => (0u32, 0u32),
        };
        let head = "diverged (ahead "@ + dec(a as nat) + " behind "@ + dec(b as nat);
        lemma_tail_needs_human(head);
        assert(diverged_detail(debt.class) =~= head + ") — needs human review"@);
    } else if classify_spec(debt.class) == PolicyDecision::AutoOk {
        if policy_spec(debt, cfg, probe) == PolicyClass::PrivateHold {
            reveal_strlit("private-hold — never auto-pushed");
            lemma_no_w_no_needs_human("private-hold — never auto-pushed"@);
        } else if policy_spec(debt, cfg, probe) == PolicyClass::ManualOnly {
            let head = "manual-only (branch "@ + debt.branch@;
            lemma_tail_needs_human(head);
            assert(manual_detail(debt) =~= head + ") — needs human review"@);
        }
    }
}

/// The surveyed repos that drain leaves to a human, in survey order.
pub open spec fn human_entries(
    surveyed: Seq<(RepoDebt, RepoProbe)>,
    cfg: PolicyCfg,
    only: Seq<Seq<char>>,
) -> Seq<(RepoDebt, RepoProbe)> {
    surveyed.filter(|e: (RepoDebt, RepoProbe)| goes_to_human(e.0, cfg, e.1, only))
}

/// The receipt drain writes for a repo it does not push.
pub open spec fn unpushed_receipt(
    e: (RepoDebt, RepoProbe),
    cfg: PolicyCfg,
    dry_run: bool,
    only: Seq<Seq<char>>,
) -> ReceiptView {
    drain_spec(e.0, cfg, e.1, dry_run, only, (true, Seq::empty()))
}

/// The "needs human" receipts of a drain are those of exactly the repos that
/// drain leaves to a human (the diverged ones and those the policy leaves to
/// a human), one each, in survey order, whatever git answered the pushes.
pub proof fn lemma_needs_human_list(
    surveyed: Seq<(RepoDebt, RepoProbe)>,
    cfg: PolicyCfg,
    dry_run: bool,
    only: Seq<Seq<char>>,
    os: Seq<(bool, Seq<char>)>,
)
    requires
        os.len() == surveyed.len(),
    ensures
        drain_all_spec(surveyed, cfg, dry_run, only, os).filter(|x: ReceiptView| needs_human(x))
            == human_entries(surveyed, cfg, only).map_values(
            |e: (RepoDebt, RepoProbe)| unpushed_receipt(e, cfg, dry_run, only),
        ),
    decreases surveyed.len(),
{
    reveal(Seq::filter);
    let f = |e: (RepoDebt, RepoProbe)| unpushed_receipt(e, cfg, dry_run, only);
    let all = drain_all_spec(surveyed, cfg, dry_run, only, os);
    if surveyed.len() == 0 {
        assert(all =~= Seq::<ReceiptView>::empty());
        assert(human_entries(surveyed, cfg, only) =~= Seq::<(RepoDebt, RepoProbe)>::empty());
        assert(all.filter(|x: ReceiptView| needs_human(x)) =~= Seq::<ReceiptView>::empty());
        assert(human_entries(surveyed, cfg, only).map_values(f) =~= Seq::<ReceiptView>::empty());
    } else {
        let s2 = surveyed.drop_last();
        let os2 = os.drop_last();
        lemma_needs_human_list(s2, cfg, dry_run, only, os2);
        let prev = drain_all_spec(s2, cfg, dry_run, only, os2);
        assert(all.drop_last() =~= prev);
        let e = surveyed.last();
        lemma_needs_human_iff(e.0, cfg, e.1, dry_run, only, os.last());
        assert(all.last() == drain_spec(e.0, cfg, e.1, dry_run, only, os.last()));
        let h2 = human_entries(s2, cfg, only);
        assert(surveyed.drop_last() == s2);
        if goes_to_human(e.0, cfg, e.1, only) {
            assert(human_entries(surveyed, cfg, only) == h2.push(e));
            assert(h2.push(e).map_values(f) =~= h2.map_values(f).push(f(e)));
        } else {
            assert(human_entries(surveyed, cfg, only) == h2);
        }
    }
}

/// A receipt claims a push only when drain did push and git reported success.
pub proof fn lemma_claim_means_pushed(
    debt: RepoDebt,
    cfg: PolicyCfg,
    probe: RepoProbe,
    dry_run: bool,
    only: Seq<Seq<char>>,
    o: (bool, Seq<char>),
)
    requires
        claims_pushed(drain_spec(debt, cfg, probe, dry_run, only, o)),
    ensures
        pushes(debt, cfg, probe, dry_run, only),
        o.0,
        debt.class is Ahead || debt.class is NoUpstream,
{
}

// ---------------------------------------------------------------------------
// Text rendering
// ---------------------------------------------------------------------------

/// A receipt for a push (done or planned).
pub open spec fn is_actionable(r: ReceiptView) -> bool {
    r.action == DrainAction::Push || r.action == DrainAction::SetUpstream
}

pub open spec fn action_word(a: DrainAction) -> Seq<char> {
    match a {
        DrainAction::Push => "push"@,
        DrainAction::SetUpstream => "push --set-upstream"@,
        _ => "skip"@,
    }
}

/// The detail, or `fallback` when there is none.
pub open spec fn detail_or(d: Option<Seq<char>>, fallback: Seq<char>) -> Seq<char> {
    match d {
        Some(x) => x,
        None => fallback,
    }
}

pub open spec fn status_text(r: ReceiptView) -> Seq<char> {
    match r.result {
        ActionResult::DryRun => "[dry-run]"@,
        ActionResult::Success => "ok (+"@ + dec(r.commits_pushed as nat) + ")"@,
        ActionResult::Error => "error: "@ + detail_or(r.error_detail, "unknown"@),
    }
}

/// One line of the push plan.
pub open spec fn plan_line(r: ReceiptView) -> Seq<char> {
    "  "@ + action_word(r.action) + " "@ + r.name + " ("@ + r.branch + ") — "@ + status_text(r)
        + "\n"@
}

pub open spec fn plan_lines(rs: Seq<ReceiptView>) -> Seq<char>
    decreases rs.len(),
{
    if rs.len() == 0 {
        Seq::empty()
    } else {
        plan_lines(rs.drop_last()) + plan_line(rs.last())
    }
}

/// One line of the "needs human" section.
pub open spec fn human_line(r: ReceiptView) -> Seq<char> {
    "  "@ + r.name + " ("@ + r.branch + ") — "@ + detail_or(r.error_detail, "manual review required"@)
        + "\n"@
}

pub open spec fn human_lines(rs: Seq<ReceiptView>) -> Seq<char>
    decreases rs.len(),
{
    if rs.len() == 0 {
        Seq::empty()
    } else {
        human_lines(rs.drop_last()) + human_line(rs.last())
    }
}

/// The drain report: the push plan, then the repos that need a human, or
/// "nothing to do" when there is neither.
pub open spec fn drain_table_spec(receipts: Seq<ReceiptView>, needs: Seq<ReceiptView>) -> Seq<char> {
    let act = receipts.filter(|r: ReceiptView| is_actionable(r));
    if act.len() == 0 && needs.len() == 0 {
        "nothing to do\n"@
    } else {
        (if act.len() > 0 {
            "Push plan:\n"@ + plan_lines(act)
        } else {
            Seq::empty()
        }) + (if needs.len() > 0 {
            "\nNeeds human:\n"@ + human_lines(needs)
        } else {
            Seq::empty()
        })
    }
}

/// The push plan's line for a receipt: `push` or `push --set-upstream`, the
/// repo's name and branch, then `[dry-run]`, `ok (+n)` with the commits
/// pushed, or `error: ` and git's message (`unknown` when there is none).
pub proof fn lemma_plan_line_text(r: ReceiptView)
    requires
        is_actionable(r),
    ensures
        plan_line(r) == "  "@ + (if r.action == DrainAction::SetUpstream {
            "push --set-upstream"@
        } else {
            "push"@
        }) + " "@ + r.name + " ("@ + r.branch + ") — "@ + (if r.result == ActionResult::DryRun {
            "[dry-run]"@
        } else if r.result == ActionResult::Success {
            "ok (+"@ + dec(r.commits_pushed as nat) + ")"@
        } else {
            "error: "@ + (if r.error_detail is Some {
                r.error_detail->0
            } else {
                "unknown"@
            })
        }) + "\n"@,
{
}

/// The receipts of pushes, done or planned, in order.
pub open spec fn actionable_receipts(rs: Seq<ReceiptView>) -> Seq<ReceiptView> {
    rs.filter(|r: ReceiptView| is_actionable(r))
}

proof fn lemma_plan_lines_lines(rs: Seq<ReceiptView>)
    ensures
        plan_lines(rs) == lines_of(rs, |r: ReceiptView| plan_line(r)),
    decreases rs.len(),
{
    if rs.len() > 0 {
        lemma_plan_lines_lines(rs.drop_last());
    }
}

proof fn lemma_human_lines_lines(rs: Seq<ReceiptView>)
    ensures
        human_lines(rs) == lines_of(rs, |r: ReceiptView| human_line(r)),
    decreases rs.len(),
{
    if rs.len() > 0 {
        lemma_human_lines_lines(rs.drop_last());
    }
}

/// The drain report's push plan has one line for each receipt of a push,
/// done or planned, in order (the line of push `i` after those of the pushes
/// before it and before those after it), and none for any other receipt; its
/// "needs human" section has one line for each receipt left to a human, in
/// order. With neither, the report says there is nothing to do.
pub proof fn lemma_drain_table_layout(
    receipts: Seq<ReceiptView>,
    needs: Seq<ReceiptView>,
    i: int,
    j: int,
)
    ensures
        drain_table_spec(receipts, needs) == if actionable_receipts(receipts).len() == 0
            && needs.len() == 0 {
            "nothing to do\n"@
        } else {
            (if actionable_receipts(receipts).len() > 0 {
                "Push plan:\n"@ + plan_lines(actionable_receipts(receipts))
            } else {
                Seq::empty()
            }) + (if needs.len() > 0 {
                "\nNeeds human:\n"@ + human_lines(needs)
            } else {
                Seq::empty()
            })
        },
        forall|k: int|
            0 <= k < actionable_receipts(receipts).len() ==> is_actionable(
                #[trigger] actionable_receipts(receipts)[k],
            ),
        forall|k: int|
            0 <= k < receipts.len() && is_actionable(receipts[k]) ==> #[trigger] actionable_receipts(
                receipts,
            ).contains(receipts[k]),
        0 <= i < actionable_receipts(receipts).len() ==> plan_lines(actionable_receipts(receipts))
            == plan_lines(actionable_receipts(receipts).take(i)) + plan_line(
            actionable_receipts(receipts)[i],
        ) + plan_lines(actionable_receipts(receipts).skip(i + 1)),
        0 <= j < needs.len() ==> human_lines(needs) == human_lines(needs.take(j)) + human_line(needs[j])
            + human_lines(needs.skip(j + 1)),
{
    let act = actionable_receipts(receipts);
    let p = |r: ReceiptView| is_actionable(r);
    assert forall|k: int| 0 <= k < act.len() implies is_actionable(#[trigger] act[k]) by {
        receipts.lemma_filter_pred(p, k);
    }
    assert forall|k: int| 0 <= k < receipts.len() && is_actionable(receipts[k]) implies #[trigger] act.contains(
        receipts[k],
    ) by {
        receipts.lemma_filter_contains(p, k);
    }
    if 0 <= i < act.len() {
        let f = |r: ReceiptView| plan_line(r);
        lemma_plan_lines_lines(act);
        lemma_plan_lines_lines(act.take(i));
        lemma_plan_lines_lines(act.skip(i + 1));
        lemma_lines_of_split(act, f, i);
    }
    if 0 <= j < needs.len() {
        let f = |r: ReceiptView| human_line(r);
        lemma_human_lines_lines(needs);
        lemma_human_lines_lines(needs.take(j));
        lemma_human_lines_lines(needs.skip(j + 1));
        lemma_lines_of_split(needs, f, j);
    }
}

fn push_detail_or(out: &mut String, d: &Option<String>, fallback: &str)
    ensures
        final(out)@ == old(out)@ + detail_or(
            match d {
                Some(x) => Some(x@),
                None => None,
            },
            fallback@,
        ),
{
    match d {
        Some(x) => push_str(out, x.as_str()),
        None => push_str(out, fallback),
    }
}

fn push_plan_line(out: &mut String, r: &DrainReceipt)
    ensures
        final(out)@ == old(out)@ + plan_line(r@),
{
    let mut line = String::new();
    push_str(&mut line, "  ");
    match r.action {
        DrainAction::Push => push_str(&mut line, "push"),
        DrainAction::SetUpstream => push_str(&mut line, "push --set-upstream"),
        _ => push_str(&mut line, "skip"),
    }
    push_str(&mut line, " ");
    push_str(&mut line, r.name.as_str());
    push_str(&mut line, " (");
    push_str(&mut line, r.branch.as_str());
    push_str(&mut line, ") — ");
    match r.result {
        ActionResult::DryRun => push_str(&mut line, "[dry-run]"),
        ActionResult::Success => {
            push_str(&mut line, "ok (+");
            push_dec(&mut line, r.commits_pushed as u64);
            push_str(&mut line, ")");
        },
        ActionResult::Error => {
            push_str(&mut line, "error: ");
            push_detail_or(&mut line, &r.error_detail, "unknown");
        },
    }
    push_str(&mut line, "\n");
    proof {
        assert(line@ =~= plan_line(r@));
    }
    push_str(out, line.as_str());
}

fn push_human_line(out: &mut String, r: &DrainReceipt)
    ensures
        final(out)@ == old(out)@ + human_line(r@),
{
    let mut line = String::new();
    push_str(&mut line, "  ");
    push_str(&mut line, r.name.as_str());
    push_str(&mut line, " (");
    push_str(&mut line, r.branch.as_str());
    push_str(&mut line, ") — ");
    push_detail_or(&mut line, &r.error_detail, "manual review required");
    push_str(&mut line, "\n");
    proof {
        assert(line@ =~= human_line(r@));
    }
    push_str(out, line.as_str());
}

fn is_actionable_exec(r: &DrainReceipt) -> (b: bool)
    ensures
        b == is_actionable(r@),
{
    r.action == DrainAction::Push || r.action == DrainAction::SetUpstream
}

/// Render drain receipts as human-readable table output.
pub fn render_drain_table(receipts: &[DrainReceipt], needs_human: &[DrainReceipt]) -> (out: String)
    ensures
        out@ == drain_table_spec(receipt_views(receipts@), receipt_views(needs_human@)),
{
    let ghost rv = receipt_views(receipts@);
    let ghost nv = receipt_views(needs_human@);
    let ghost act_p = |r: ReceiptView| is_actionable(r);
    let mut n_act: usize = 0;
    let mut i: usize = 0;
    proof {
        reveal(Seq::filter);
        assert(rv.take(0).filter(act_p) =~= Seq::<ReceiptView>::empty());
    }
    while i < receipts.len()
        invariant
            0 <= i <= receipts.len(),
            rv == receipt_views(receipts@),
            act_p == (|r: ReceiptView| is_actionable(r)),
            n_act == rv.take(i as int).filter(act_p).len(),
            n_act <= i,
        decreases receipts.len() - i,
    {
        proof {
            reveal(Seq::filter);
            assert(rv.take(i + 1).drop_last() =~= rv.take(i as int));
            assert(rv.take(i + 1).last() == receipts@[i as int]@);
        }
        if is_actionable_exec(&receipts[i]) {
            n_act = n_act + 1;
        }
        i = i + 1;
    }
    proof {
        assert(rv.take(receipts.len() as int) =~= rv);
    }
    let mut out = String::new();
    if n_act == 0 && needs_human.len() == 0 {
        push_str(&mut out, "nothing to do\n");
        proof {
            assert(out@ =~= drain_table_spec(rv, nv));
        }
        return out;
    }
    if n_act > 0 {
        push_str(&mut out, "Push plan:\n");
        let ghost head = out@;
        let mut k: usize = 0;
        proof {
            reveal(Seq::filter);
            assert(rv.take(0).filter(act_p) =~= Seq::<ReceiptView>::empty());
            assert(out@ =~= head + plan_lines(rv.take(0).filter(act_p)));
        }
        while k < receipts.len()
            invariant
                0 <= k <= receipts.len(),
                rv == receipt_views(receipts@),
                act_p == (|r: ReceiptView| is_actionable(r)),
                out@ == head + plan_lines(rv.take(k as int).filter(act_p)),
            decreases receipts.len() - k,
        {
            let ghost before = rv.take(k as int).filter(act_p);
            proof {
                reveal(Seq::filter);
                assert(rv.take(k + 1).drop_last() =~= rv.take(k as int));
                assert(rv.take(k + 1).last() == receipts@[k as int]@);
            }
            if is_actionable_exec(&receipts[k]) {
                push_plan_line(&mut out, &receipts[k]);
                proof {
                    let after = before.push(receipts@[k as int]@);
                    assert(after.drop_last() =~= before);
                    assert(plan_lines(after) == plan_lines(before) + plan_line(receipts@[k as int]@));
                    assert(out@ =~= head + plan_lines(after));
                }
            }
            k = k + 1;
        }
        proof {
            assert(rv.take(receipts.len() as int) =~= rv);
        }
    }
    let ghost mid = out@;
    if needs_human.len() > 0 {
        push_str(&mut out, "\nNeeds human:\n");
        let ghost head = out@;
        let mut k: usize = 0;
        proof {
            assert(out@ =~= head + human_lines(nv.take(0)));
        }
        while k < needs_human.len()
            invariant
                0 <= k <= needs_human.len(),
                nv == receipt_views(needs_human@),
                out@ == head + human_lines(nv.take(k as int)),
            decreases needs_human.len() - k,
        {
            push_human_line(&mut out, &needs_human[k]);
            proof {
                assert(nv.take(k + 1).drop_last() =~= nv.take(k as int));
                assert(nv.take(k + 1).last() == needs_human@[k as int]@);
                assert(out@ =~= head + human_lines(nv.take(k + 1)));
            }
            k = k + 1;
        }
        proof {
            assert(nv.take(needs_human.len() as int) =~= nv);
        }
    }
    proof {
        assert(out@ =~= drain_table_spec(rv, nv));
    }
    out
}

} // verus!

