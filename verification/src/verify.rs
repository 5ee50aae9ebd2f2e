//! consign verify — convergence check after a drain run.
//!
//! Cross-checks a fresh survey against a drain receipt to prove push-debt
//! actually reached zero for every repo drain claimed to have pushed.

use vstd::prelude::*;

use crate::drain::{
    classify, classify_spec, claims_pushed, drain_spec, receipt_views, DrainAction, DrainReceipt,
    ActionResult, PolicyDecision, ReceiptView,
};
use crate::text::{
    byte_len, byte_len_exec, display_name, display_name_exec, max_width, lemma_max_width_step, pad,
    push_padded, push_repeat, push_str, repeat,
};
use crate::text::{lines_of, lemma_lines_of_split};
use crate::policy::{policy_spec, PolicyCfg, PolicyClass, RepoProbe};
use crate::{string_views, DebtClass, RepoDebt};

verus! {

// ---------------------------------------------------------------------------
// Verdict types
// ---------------------------------------------------------------------------

/// Per-repo verdict after cross-checking against a drain receipt.
#[derive(Debug, Clone, Copy, PartialEq, Eq, Structural)]
pub enum RepoVerdict {
    /// Repo is clean (no push-debt).
    Clean,
    /// Repo was claimed pushed in drain receipt but is still ahead/no-upstream.
    Contradicted,
    /// Repo has auto-ok debt but was not in the drain receipt (or no receipt provided).
    Residual,
    /// Repo is out of scope (manual-only/diverged/no-remote/clean).
    OutOfScope,
}

/// Per-repo verification result.
#[derive(Debug, Clone)]
pub struct RepoVerification {
    /// Repo name (last path component).
    pub name: String,
    /// Absolute path to the repo.
    pub path: String,
    /// Current branch.
    pub branch: String,
    /// Current debt class from fresh survey.
    pub current_class: String,
    /// Verdict for this repo.
    pub verdict: RepoVerdict,
    /// Human-readable detail.
    pub detail: Option<String>,
}

/// A per-repo result's content as values.
pub struct VerificationView {
    pub name: Seq<char>,
    pub path: Seq<char>,
    pub branch: Seq<char>,
    pub current_class: Seq<char>,
    pub verdict: RepoVerdict,
    pub detail: Option<Seq<char>>,
}

impl View for RepoVerification {
    type V = VerificationView;

    open spec fn view(&self) -> VerificationView {
        VerificationView {
            name: self.name@,
            path: self.path@,
            branch: self.branch@,
            current_class: self.current_class@,
            verdict: self.verdict,
            detail: match self.detail {
                Some(d) => Some(d@),
                None => None,
            },
        }
    }
}

pub open spec fn verification_views(rs: Seq<RepoVerification>) -> Seq<VerificationView> {
    rs.map_values(|r: RepoVerification| r@)
}

/// Overall fleet verdict.
#[derive(Debug, Clone, Copy, PartialEq, Eq, Structural)]
pub enum OverallVerdict {
    /// All auto-ok push-debt is gone (exit 0).
    Converged,
    /// A repo drain claimed pushed is still ahead/no-upstream (exit 1).
    Contradicted,
    /// Auto-ok debt remains but no drain receipt was provided to contradict it (exit 0 + warning).
    Residual,
}

impl OverallVerdict {
    pub open spec fn description_spec(self) -> Seq<char> {
        match self {
            OverallVerdict::Converged => "converged — fleet is clean (exit 0)"@,
            OverallVerdict::Contradicted => "contradicted — drain claimed repos pushed but debt remains (exit 1)"@,
            OverallVerdict::Residual => "residual — auto-ok debt remains; no drain receipt to contradict (exit 0, warning)"@,
        }
    }

    /// Human-readable description of the verdict and its exit code.
    pub fn description(&self) -> (r: &'static str)
        ensures
            r@ == self.description_spec(),
    {
        match self {
            OverallVerdict::Converged => "converged — fleet is clean (exit 0)",
            OverallVerdict::Contradicted => {
                "contradicted — drain claimed repos pushed but debt remains (exit 1)"
            },
            OverallVerdict::Residual => {
                "residual — auto-ok debt remains; no drain receipt to contradict (exit 0, warning)"
            },
        }
    }

    /// The process exit code for this verdict (1 for a contradiction, else 0).
    pub fn exit_code(&self) -> (r: i32)
        ensures
            r == (if *self == OverallVerdict::Contradicted {
                1i32
            } else {
                0i32
            }),
    {
        match self {
            OverallVerdict::Converged => 0,
            OverallVerdict::Contradicted => 1,
            OverallVerdict::Residual => 0,
        }
    }
}

/// Receipt produced by `verify()`.
#[derive(Debug, Clone)]
pub struct VerifyReceipt {
    /// Overall fleet verdict.
    pub overall: OverallVerdict,
    /// Per-repo verification results.
    pub repos: Vec<RepoVerification>,
    /// Repos whose verdict is `Contradicted`.
    pub contradictions: Vec<String>,
    /// Repos with residual auto-ok debt.
    pub residuals: Vec<String>,
    /// Whether the survey was run (always true for a real verify).
    pub survey_ran: bool,
}

/// Configuration for a verify run.
pub struct VerifyConfig {
    /// Root directories to scan. `verify` itself does not read them: it takes
    /// the fresh survey of these roots as its argument, made by the program.
    pub roots: Vec<String>,
    /// Drain receipt to cross-check against, if any.
    pub drain_receipt: Option<Vec<DrainReceipt>>,
    /// The policy configuration that decides which debt is in scope.
    pub policy: PolicyCfg,
}

// ---------------------------------------------------------------------------
// Per-repo verdicts
// ---------------------------------------------------------------------------

/// The name of the repo at `path` (last path component).
fn repo_name_from_path(path: &String) -> (r: String)
    ensures
        r@ == display_name(path@),
{
    display_name_exec(path.as_str())
}

/// A class that is still ahead in push terms.
pub open spec fn still_ahead(c: DebtClass) -> bool {
    c is Ahead || c is NoUpstream
}

/// Returns true if a `DebtClass` indicates the repo is still "ahead" in push terms.
fn is_still_ahead(class: &DebtClass) -> (r: bool)
    ensures
        r == still_ahead(*class),
{
    matches!(class, DebtClass::Ahead { .. } | DebtClass::NoUpstream { .. })
}

/// Decisions out of convergence scope: manual-only (diverged), no-remote, clean.
pub open spec fn out_of_scope(p: PolicyDecision) -> bool {
    p == PolicyDecision::ManualOnly || p == PolicyDecision::NoRemote || p == PolicyDecision::Clean
}

fn is_out_of_scope(policy: &PolicyDecision) -> (r: bool)
    ensures
        r == out_of_scope(*policy),
{
    matches!(policy, PolicyDecision::ManualOnly | PolicyDecision::NoRemote | PolicyDecision::Clean)
}

/// The drain receipt claims it pushed the repo named `name`.
pub open spec fn claimed(receipts: Option<Seq<ReceiptView>>, name: Seq<char>) -> bool {
    match receipts {
        Some(rs) => exists|j: int| 0 <= j < rs.len() && claims_pushed(#[trigger] rs[j]) && rs[j].name == name,
        None => false,
    }
}

/// Debt in convergence scope: the policy finds the repo auto-ok, and its class
/// is one that drain pushes.
pub open spec fn in_scope(debt: RepoDebt, cfg: PolicyCfg, probe: RepoProbe) -> bool {
    policy_spec(debt, cfg, probe) == PolicyClass::AutoOk && !out_of_scope(classify_spec(debt.class))
}

pub open spec fn repo_verdict_spec(
    debt: RepoDebt,
    cfg: PolicyCfg,
    probe: RepoProbe,
    receipts: Option<Seq<ReceiptView>>,
) -> RepoVerdict {
    if !in_scope(debt, cfg, probe) {
        RepoVerdict::OutOfScope
    } else if still_ahead(debt.class) {
        if claimed(receipts, display_name(debt.path@)) {
            RepoVerdict::Contradicted
        } else {
            RepoVerdict::Residual
        }
    } else {
        RepoVerdict::Clean
    }
}

pub open spec fn verdict_detail(v: RepoVerdict, class_name: Seq<char>) -> Option<Seq<char>> {
    match v {
        RepoVerdict::Contradicted => Some("drain claimed pushed but still "@ + class_name),
        RepoVerdict::Residual => Some(class_name + " (auto-ok debt, no drain receipt)"@),
        RepoVerdict::OutOfScope => Some(class_name + " — out of convergence scope"@),
        RepoVerdict::Clean => None,
    }
}

/// What verify reports for one repo of the fresh survey.
pub open spec fn verification_spec(
    debt: RepoDebt,
    cfg: PolicyCfg,
    probe: RepoProbe,
    receipts: Option<Seq<ReceiptView>>,
) -> VerificationView {
    let v = repo_verdict_spec(debt, cfg, probe, receipts);
    VerificationView {
        name: display_name(debt.path@),
        path: debt.path@,
        branch: debt.branch@,
        current_class: debt.class.name_spec(),
        verdict: v,
        detail: verdict_detail(v, debt.class.name_spec()),
    }
}

pub open spec fn receipt_option_view(o: Option<Vec<DrainReceipt>>) -> Option<Seq<ReceiptView>> {
    match o {
        Some(v) => Some(receipt_views(v@)),
        None => None,
    }
}

/// The overall verdict over per-repo verdicts.
pub open spec fn overall_spec(vs: Seq<VerificationView>) -> OverallVerdict {
    if exists|i: int| 0 <= i < vs.len() && (#[trigger] vs[i]).verdict == RepoVerdict::Contradicted {
        OverallVerdict::Contradicted
    } else if exists|i: int| 0 <= i < vs.len() && (#[trigger] vs[i]).verdict == RepoVerdict::Residual {
        OverallVerdict::Residual
    } else {
        OverallVerdict::Converged
    }
}

/// The names of the repos with verdict `v`, in survey order.
pub open spec fn names_with(vs: Seq<VerificationView>, v: RepoVerdict) -> Seq<Seq<char>>
    decreases vs.len(),
{
    if vs.len() == 0 {
        Seq::empty()
    } else if vs.last().verdict == v {
        names_with(vs.drop_last(), v).push(vs.last().name)
    } else {
        names_with(vs.drop_last(), v)
    }
}

fn claimed_exec(receipts: &Option<Vec<DrainReceipt>>, name: &String) -> (r: bool)
    ensures
        r == claimed(receipt_option_view(*receipts), name@),
{
    match receipts {
        None => false,
        Some(rs) => {
            let ghost rv = receipt_views(rs@);
            let mut j: usize = 0;
            while j < rs.len()
                invariant
                    0 <= j <= rs.len(),
                    rv == receipt_views(rs@),
                    receipt_option_view(*receipts) == Some(rv),
                    forall|k: int| 0 <= k < j ==> !(claims_pushed(#[trigger] rv[k]) && rv[k].name == name@),
                decreases rs.len() - j,
            {
                let r = &rs[j];
                proof {
                    assert(rv[j as int] == r@);
                }
                if r.result == ActionResult::Success && (r.action == DrainAction::Push || r.action
                    == DrainAction::SetUpstream) && r.name == *name {
                    proof {
                        assert(receipt_option_view(*receipts) == Some(rv));
                        assert(claims_pushed(rv[j as int]) && rv[j as int].name == name@);
                        assert(claimed(Some(rv), name@));
                    }
                    return true;
                }
                j = j + 1;
            }
            false
        },
    }
}

fn verify_one(
    debt: &RepoDebt,
    probe: &RepoProbe,
    cfg: &PolicyCfg,
    receipts: &Option<Vec<DrainReceipt>>,
) -> (r: RepoVerification)
    ensures
        r@ == verification_spec(*debt, *cfg, *probe, receipt_option_view(*receipts)),
{
    let name = repo_name_from_path(&debt.path);
    let verdict_by_policy = crate::policy::classify(debt, cfg, probe);
    let policy = classify(debt);
    let verdict = if verdict_by_policy != PolicyClass::AutoOk || is_out_of_scope(&policy) {
        RepoVerdict::OutOfScope
    } else {
        if is_still_ahead(&debt.class) {
            if claimed_exec(receipts, &name) {
                RepoVerdict::Contradicted
            } else {
                RepoVerdict::Residual
            }
        } else {
            RepoVerdict::Clean
        }
    };
    let class_name = debt.class.name();
    let detail = match verdict {
        RepoVerdict::Contradicted => {
            let mut d = String::new();
            push_str(&mut d, "drain claimed pushed but still ");
            push_str(&mut d, class_name);
            Some(d)
        },
        RepoVerdict::Residual => {
            let mut d = String::new();
            push_str(&mut d, class_name);
            push_str(&mut d, " (auto-ok debt, no drain receipt)");
            Some(d)
        },
        RepoVerdict::OutOfScope => {
            let mut d = String::new();
            push_str(&mut d, class_name);
            push_str(&mut d, " — out of convergence scope");
            Some(d)
        },
        RepoVerdict::Clean => None,
    };
    let r = RepoVerification {
        name,
        path: debt.path.clone(),
        branch: debt.branch.clone(),
        current_class: String::from_str(class_name),
        verdict,
        detail,
    };
    proof {
        assert(r@.detail == verdict_detail(verdict, debt.class.name_spec())) by {
            match verdict {
                RepoVerdict::Clean => {},
                _ => {
                    assert(r@.detail->0 =~= verdict_detail(verdict, debt.class.name_spec())->0);
                },
            }
        }
    }
    r
}

// ---------------------------------------------------------------------------
// Main verify logic
// ---------------------------------------------------------------------------

/// Cross-check a fresh survey (each repo with what the disk says of it for the
/// policy) against the drain receipt in `config`.
///
/// Returns a `VerifyReceipt` describing the convergence state. The caller is
/// responsible for using `receipt.overall.exit_code()` to set the process exit
/// code.
pub fn verify(config: &VerifyConfig, surveyed: &[(RepoDebt, RepoProbe)]) -> (r: VerifyReceipt)
    ensures
        verification_views(r.repos@) == Seq::new(
            surveyed@.len(),
            |i: int|
                verification_spec(
                    surveyed@[i].0,
                    config.policy,
                    surveyed@[i].1,
                    receipt_option_view(config.drain_receipt),
                ),
        ),
        r.overall == overall_spec(verification_views(r.repos@)),
        string_views(r.contradictions@) == names_with(
            verification_views(r.repos@),
            RepoVerdict::Contradicted,
        ),
        string_views(r.residuals@) == names_with(verification_views(r.repos@), RepoVerdict::Residual),
        r.survey_ran,
{
    let ghost rv = receipt_option_view(config.drain_receipt);
    let ghost want = Seq::new(
        surveyed@.len(),
        |i: int| verification_spec(surveyed@[i].0, config.policy, surveyed@[i].1, rv),
    );
    let mut repos: Vec<RepoVerification> = Vec::new();
    let mut contradictions: Vec<String> = Vec::new();
    let mut residuals: Vec<String> = Vec::new();
    let mut any_contradicted = false;
    let mut any_residual = false;
    let mut i: usize = 0;
    proof {
        assert(verification_views(repos@) =~= want.take(0));
    }
    while i < surveyed.len()
        invariant
            0 <= i <= surveyed.len(),
            rv == receipt_option_view(config.drain_receipt),
            want == Seq::new(
                surveyed@.len(),
                |i: int| verification_spec(surveyed@[i].0, config.policy, surveyed@[i].1, rv),
            ),
            verification_views(repos@) == want.take(i as int),
            string_views(contradictions@) == names_with(want.take(i as int), RepoVerdict::Contradicted),
            string_views(residuals@) == names_with(want.take(i as int), RepoVerdict::Residual),
            any_contradicted == exists|j: int|
                0 <= j < i && (#[trigger] want[j]).verdict == RepoVerdict::Contradicted,
            any_residual == exists|j: int|
                0 <= j < i && (#[trigger] want[j]).verdict == RepoVerdict::Residual,
        decreases surveyed.len() - i,
    {
        let one = verify_one(&surveyed[i].0, &surveyed[i].1, &config.policy, &config.drain_receipt);
        let ghost ov = one@;
        proof {
            assert(ov == want[i as int]);
            assert(want.take(i + 1).drop_last() =~= want.take(i as int));
            assert(want.take(i + 1).last() == ov);
        }
        if one.verdict == RepoVerdict::Contradicted {
            any_contradicted = true;
            let ghost before = string_views(contradictions@);
            contradictions.push(one.name.clone());
            proof {
                assert(string_views(contradictions@) =~= before.push(ov.name));
            }
        }
        if one.verdict == RepoVerdict::Residual {
            any_residual = true;
            let ghost before = string_views(residuals@);
            residuals.push(one.name.clone());
            proof {
                assert(string_views(residuals@) =~= before.push(ov.name));
            }
        }
        let ghost before = verification_views(repos@);
        repos.push(one);
        proof {
            assert(verification_views(repos@) =~= before.push(ov));
            assert(verification_views(repos@) =~= want.take(i + 1));
        }
        i = i + 1;
    }
    proof {
        assert(want.take(surveyed@.len() as int) =~= want);
    }
    let overall = if any_contradicted {
        OverallVerdict::Contradicted
    } else if any_residual {
        OverallVerdict::Residual
    } else {
        OverallVerdict::Converged
    };
    VerifyReceipt { overall, repos, contradictions, residuals, survey_ran: true }
}

// ---------------------------------------------------------------------------
// Laws of verify
// ---------------------------------------------------------------------------

proof fn lemma_names_with_nonempty(vs: Seq<VerificationView>, v: RepoVerdict)
    ensures
        names_with(vs, v).len() > 0 <==> exists|i: int|
            0 <= i < vs.len() && (#[trigger] vs[i]).verdict == v,
    decreases vs.len(),
{
    if vs.len() > 0 {
        lemma_names_with_nonempty(vs.drop_last(), v);
        if exists|i: int| 0 <= i < vs.drop_last().len() && (#[trigger] vs.drop_last()[i]).verdict == v {
            let i = choose|i: int| 0 <= i < vs.drop_last().len() && (#[trigger] vs.drop_last()[i]).verdict == v;
            assert(vs[i] == vs.drop_last()[i]);
        }
        if exists|i: int| 0 <= i < vs.len() && (#[trigger] vs[i]).verdict == v {
            let i = choose|i: int| 0 <= i < vs.len() && (#[trigger] vs[i]).verdict == v;
            if i < vs.len() - 1 {
                assert(vs.drop_last()[i] == vs[i]);
            }
        }
    }
}

/// The overall verdict agrees with the lists: contradicted exactly when some
/// repo is contradicted; residual exactly when none is but some repo has
/// residual debt; converged otherwise.
pub proof fn lemma_overall_matches_lists(vs: Seq<VerificationView>)
    ensures
        (overall_spec(vs) == OverallVerdict::Contradicted) == (names_with(vs, RepoVerdict::Contradicted).len() > 0),
        (overall_spec(vs) == OverallVerdict::Residual) == (names_with(vs, RepoVerdict::Contradicted).len() == 0
            && names_with(vs, RepoVerdict::Residual).len() > 0),
        (overall_spec(vs) == OverallVerdict::Converged) == (names_with(vs, RepoVerdict::Contradicted).len() == 0
            && names_with(vs, RepoVerdict::Residual).len() == 0),
{
    lemma_names_with_nonempty(vs, RepoVerdict::Contradicted);
    lemma_names_with_nonempty(vs, RepoVerdict::Residual);
}

/// Without a drain receipt nothing is ever contradicted.
pub proof fn lemma_no_receipt_no_contradiction(debt: RepoDebt, cfg: PolicyCfg, probe: RepoProbe)
    ensures
        repo_verdict_spec(debt, cfg, probe, None) != RepoVerdict::Contradicted,
{
}

/// Diverged, no-remote and clean repos, and every repo that the policy holds
/// private or leaves to a human, are out of convergence scope: they are never
/// contradicted and never residual, whatever the receipt says.
pub proof fn lemma_out_of_scope(
    debt: RepoDebt,
    cfg: PolicyCfg,
    probe: RepoProbe,
    receipts: Option<Seq<ReceiptView>>,
)
    requires
        debt.class is Diverged || debt.class is NoRemote || debt.class is Clean || policy_spec(
            debt,
            cfg,
            probe,
        ) != PolicyClass::AutoOk,
    ensures
        repo_verdict_spec(debt, cfg, probe, receipts) == RepoVerdict::OutOfScope,
{
}

/// A repo that drain claims to have pushed, and that the fresh survey still
/// finds ahead (or without upstream), is contradicted.
pub proof fn lemma_drain_claim_then_still_ahead(
    pushed: RepoDebt,
    pushed_probe: RepoProbe,
    cfg: PolicyCfg,
    dry_run: bool,
    only: Seq<Seq<char>>,
    o: (bool, Seq<char>),
    now: RepoDebt,
    now_probe: RepoProbe,
    receipts: Seq<ReceiptView>,
    j: int,
)
    requires
        0 <= j < receipts.len(),
        receipts[j] == drain_spec(pushed, cfg, pushed_probe, dry_run, only, o),
        claims_pushed(receipts[j]),
        now.path@ == pushed.path@,
        still_ahead(now.class),
        policy_spec(now, cfg, now_probe) == PolicyClass::AutoOk,
    ensures
        repo_verdict_spec(now, cfg, now_probe, Some(receipts)) == RepoVerdict::Contradicted,
{
    assert(receipts[j].name == display_name(pushed.path@));
    assert(claimed(Some(receipts), display_name(now.path@)));
}

/// Verify's verdict for one repo: debt that is not auto-ok, or whose class
/// drain does not push (clean, no remote, diverged), is out of scope. An
/// auto-ok repo still ahead or without upstream is contradicted exactly when
/// the receipt holds a successful push or set-upstream of a repo of its name,
/// and residual otherwise (always, when there is no receipt).
pub proof fn lemma_verdict_by_class(
    debt: RepoDebt,
    cfg: PolicyCfg,
    probe: RepoProbe,
    receipts: Option<Seq<ReceiptView>>,
)
    ensures
        policy_spec(debt, cfg, probe) != PolicyClass::AutoOk || debt.class is Clean || debt.class is NoRemote
            || debt.class is Diverged ==> repo_verdict_spec(debt, cfg, probe, receipts)
            == RepoVerdict::OutOfScope,
        policy_spec(debt, cfg, probe) == PolicyClass::AutoOk && (debt.class is Ahead || debt.class is NoUpstream)
            ==> {
            &&& (repo_verdict_spec(debt, cfg, probe, receipts) == RepoVerdict::Contradicted) == (
            receipts is Some && exists|j: int|
                0 <= j < receipts->0.len() && (#[trigger] receipts->0[j]).name == display_name(debt.path@)
                    && receipts->0[j].result == ActionResult::Success && (receipts->0[j].action
                    == DrainAction::Push || receipts->0[j].action == DrainAction::SetUpstream))
            &&& repo_verdict_spec(debt, cfg, probe, receipts) != RepoVerdict::Contradicted
                ==> repo_verdict_spec(debt, cfg, probe, receipts) == RepoVerdict::Residual
        },
{
}

/// The detail verify gives with each verdict, naming the repo's current class.
pub proof fn lemma_verdict_detail_text(v: RepoVerdict, class_name: Seq<char>)
    ensures
        v == RepoVerdict::Contradicted ==> verdict_detail(v, class_name) == Some(
            "drain claimed pushed but still "@ + class_name,
        ),
        v == RepoVerdict::Residual ==> verdict_detail(v, class_name) == Some(
            class_name + " (auto-ok debt, no drain receipt)"@,
        ),
        v == RepoVerdict::OutOfScope ==> verdict_detail(v, class_name) == Some(
            class_name + " — out of convergence scope"@,
        ),
        v == RepoVerdict::Clean ==> verdict_detail(v, class_name) is None,
{
}

/// A fleet whose fresh survey shows a contradicted repo is contradicted
/// overall, and verify exits with 1.
pub proof fn lemma_contradiction_is_overall(vs: Seq<VerificationView>, i: int)
    requires
        0 <= i < vs.len(),
        vs[i].verdict == RepoVerdict::Contradicted,
    ensures
        overall_spec(vs) == OverallVerdict::Contradicted,
{
}

/// A push-eligible repo that is still ahead is residual when no receipt
/// claims it.
pub proof fn lemma_unclaimed_debt_is_residual(
    debt: RepoDebt,
    cfg: PolicyCfg,
    probe: RepoProbe,
    receipts: Option<Seq<ReceiptView>>,
)
    requires
        still_ahead(debt.class),
        policy_spec(debt, cfg, probe) == PolicyClass::AutoOk,
        !claimed(receipts, display_name(debt.path@)),
    ensures
        repo_verdict_spec(debt, cfg, probe, receipts) == RepoVerdict::Residual,
{
}

// ---------------------------------------------------------------------------
// Text rendering
// ---------------------------------------------------------------------------

pub open spec fn verdict_word(v: RepoVerdict) -> Seq<char> {
    match v {
        RepoVerdict::Clean => "clean"@,
        RepoVerdict::Contradicted => "contradicted"@,
        RepoVerdict::Residual => "residual"@,
        RepoVerdict::OutOfScope => "out-of-scope"@,
    }
}

/// The width of the name column: the longest name in bytes, at least 4.
pub open spec fn name_width(vs: Seq<VerificationView>) -> usize {
    max_width(vs.map_values(|r: VerificationView| byte_len(r.name)), 4)
}

/// The width of the verdict column.
pub open spec fn verdict_width() -> usize {
    byte_len("contradicted"@)
}

pub open spec fn verify_separator(nw: usize) -> Seq<char> {
    repeat('-', nw as nat) + "  "@ + repeat('-', verdict_width() as nat) + "  "@ + "------"@
}

pub open spec fn verify_row(r: VerificationView, nw: usize) -> Seq<char> {
    pad(r.name, nw as nat) + "  "@ + pad(verdict_word(r.verdict), verdict_width() as nat) + "  "@
        + match r.detail {
        Some(d) => d,
        None => Seq::empty(),
    } + "\n"@
}

pub open spec fn verify_rows(vs: Seq<VerificationView>, nw: usize) -> Seq<char>
    decreases vs.len(),
{
    if vs.len() == 0 {
        Seq::empty()
    } else {
        verify_rows(vs.drop_last(), nw) + verify_row(vs.last(), nw)
    }
}

/// A bulleted list of names, one per line.
pub open spec fn bullets(names: Seq<Seq<char>>) -> Seq<char>
    decreases names.len(),
{
    if names.len() == 0 {
        Seq::empty()
    } else {
        bullets(names.drop_last()) + "  - "@ + names.last() + "\n"@
    }
}

/// The verify report: a table of per-repo verdicts, the overall verdict, then
/// the contradicted and the residual repos.
pub open spec fn verify_table_spec(
    vs: Seq<VerificationView>,
    overall: OverallVerdict,
    contradictions: Seq<Seq<char>>,
    residuals: Seq<Seq<char>>,
) -> Seq<char> {
    let nw = name_width(vs);
    pad("REPO"@, nw as nat) + "  "@ + pad("VERDICT"@, verdict_width() as nat) + "  detail"@ + "\n"@
        + verify_separator(nw) + "\n"@ + verify_rows(vs, nw) + verify_separator(nw) + "\n"@
        + "Overall: "@ + overall.description_spec() + "\n"@ + (if contradictions.len() > 0 {
        "\nContradictions:\n"@ + bullets(contradictions)
    } else {
        Seq::empty()
    }) + (if residuals.len() > 0 {
        "\nWarning: residual auto-ok debt (run consign drain to clear):\n"@ + bullets(residuals)
    } else {
        Seq::empty()
    })
}

/// The first two lines of the verify report: the column titles and a separator.
pub open spec fn verify_header(nw: usize) -> Seq<char> {
    pad("REPO"@, nw as nat) + "  "@ + pad("VERDICT"@, verdict_width() as nat) + "  detail"@ + "\n"@
        + verify_separator(nw) + "\n"@
}

/// The line that gives the overall verdict.
pub open spec fn overall_line(overall: OverallVerdict) -> Seq<char> {
    "Overall: "@ + overall.description_spec() + "\n"@
}

/// One bullet of a list of names.
pub open spec fn bullet(name: Seq<char>) -> Seq<char> {
    "  - "@ + name + "\n"@
}

proof fn lemma_verify_rows_lines(vs: Seq<VerificationView>, nw: usize)
    ensures
        verify_rows(vs, nw) == lines_of(vs, |v: VerificationView| verify_row(v, nw)),
    decreases vs.len(),
{
    if vs.len() > 0 {
        lemma_verify_rows_lines(vs.drop_last(), nw);
    }
}

proof fn lemma_bullets_lines(names: Seq<Seq<char>>)
    ensures
        bullets(names) == lines_of(names, |n: Seq<char>| bullet(n)),
    decreases names.len(),
{
    if names.len() > 0 {
        lemma_bullets_lines(names.drop_last());
        assert(bullets(names) =~= bullets(names.drop_last()) + bullet(names.last()));
    }
}

/// A bulleted list holds bullet `j` after those before it and before those
/// after it.
pub proof fn lemma_bullets_split(names: Seq<Seq<char>>, j: int)
    requires
        0 <= j < names.len(),
    ensures
        bullets(names) == bullets(names.take(j)) + bullet(names[j]) + bullets(names.skip(j + 1)),
{
    let f = |n: Seq<char>| bullet(n);
    lemma_bullets_lines(names);
    lemma_bullets_lines(names.take(j));
    lemma_bullets_lines(names.skip(j + 1));
    lemma_lines_of_split(names, f, j);
}

/// The verify report is its header, one row per repo in order (the row of
/// repo `i` after the rows of the repos before it and before those of the
/// repos after it), a separator, the line with the overall verdict, then the
/// contradicted repos and the residual ones, each section present only when
/// its list is not empty, with one bullet per name in order.
pub proof fn lemma_verify_table_layout(
    vs: Seq<VerificationView>,
    overall: OverallVerdict,
    contradictions: Seq<Seq<char>>,
    residuals: Seq<Seq<char>>,
    i: int,
)
    ensures
        verify_table_spec(vs, overall, contradictions, residuals) == verify_header(name_width(vs))
            + verify_rows(vs, name_width(vs)) + verify_separator(name_width(vs)) + "\n"@
            + overall_line(overall) + (if contradictions.len() > 0 {
            "\nContradictions:\n"@ + bullets(contradictions)
        } else {
            Seq::empty()
        }) + (if residuals.len() > 0 {
            "\nWarning: residual auto-ok debt (run consign drain to clear):\n"@ + bullets(residuals)
        } else {
            Seq::empty()
        }),
        0 <= i < vs.len() ==> verify_rows(vs, name_width(vs)) == verify_rows(vs.take(i), name_width(vs))
            + verify_row(vs[i], name_width(vs)) + verify_rows(vs.skip(i + 1), name_width(vs)),
{
    let nw = name_width(vs);
    assert(verify_table_spec(vs, overall, contradictions, residuals) =~= verify_header(nw)
        + verify_rows(vs, nw) + verify_separator(nw) + "\n"@ + overall_line(overall) + (if contradictions.len() > 0 {
        "\nContradictions:\n"@ + bullets(contradictions)
    } else {
        Seq::empty()
    }) + (if residuals.len() > 0 {
        "\nWarning: residual auto-ok debt (run consign drain to clear):\n"@ + bullets(residuals)
    } else {
        Seq::empty()
    }));
    if 0 <= i < vs.len() {
        let f = |v: VerificationView| verify_row(v, nw);
        lemma_verify_rows_lines(vs, nw);
        lemma_verify_rows_lines(vs.take(i), nw);
        lemma_verify_rows_lines(vs.skip(i + 1), nw);
        lemma_lines_of_split(vs, f, i);
    }
}

fn push_verify_row(out: &mut String, r: &RepoVerification, name_w: usize, verdict_w: usize)
    requires
        verdict_w == verdict_width(),
    ensures
        final(out)@ == old(out)@ + verify_row(r@, name_w),
{
    let ghost before = out@;
    push_padded(out, r.name.as_str(), name_w);
    push_str(out, "  ");
    push_padded(out, verdict_word_exec(r.verdict), verdict_w);
    push_str(out, "  ");
    match &r.detail {
        Some(d) => push_str(out, d.as_str()),
        None => {},
    }
    push_str(out, "\n");
    proof {
        assert(out@ =~= before + verify_row(r@, name_w));
    }
}

fn push_bullets(out: &mut String, names: &Vec<String>)
    ensures
        final(out)@ == old(out)@ + bullets(string_views(names@)),
{
    let ghost ns = string_views(names@);
    let mut k: usize = 0;
    proof {
        assert(ns.take(0) =~= Seq::<Seq<char>>::empty());
        assert(out@ =~= old(out)@ + bullets(ns.take(0)));
    }
    while k < names.len()
        invariant
            0 <= k <= names.len(),
            ns == string_views(names@),
            out@ == old(out)@ + bullets(ns.take(k as int)),
        decreases names.len() - k,
    {
        push_str(out, "  - ");
        push_str(out, names[k].as_str());
        push_str(out, "\n");
        proof {
            assert(ns.take(k + 1).drop_last() =~= ns.take(k as int));
            assert(ns.take(k + 1).last() == names@[k as int]@);
            assert(out@ =~= old(out)@ + bullets(ns.take(k + 1)));
        }
        k = k + 1;
    }
    proof {
        assert(ns.take(names.len() as int) =~= ns);
    }
}

fn push_separator(out: &mut String, nw: usize, vw: usize)
    requires
        vw == verdict_width(),
    ensures
        final(out)@ == old(out)@ + verify_separator(nw) + "\n"@,
{
    push_repeat(out, '-', nw);
    push_str(out, "  ");
    push_repeat(out, '-', vw);
    push_str(out, "  ");
    push_str(out, "------");
    push_str(out, "\n");
    proof {
        assert(out@ =~= old(out)@ + verify_separator(nw) + "\n"@);
    }
}

fn verdict_word_exec(v: RepoVerdict) -> (r: &'static str)
    ensures
        r@ == verdict_word(v),
{
    match v {
        RepoVerdict::Clean => "clean",
        RepoVerdict::Contradicted => "contradicted",
        RepoVerdict::Residual => "residual",
        RepoVerdict::OutOfScope => "out-of-scope",
    }
}

/// Render a `VerifyReceipt` as a human-readable table.
pub fn render_verify_table(receipt: &VerifyReceipt) -> (out: String)
    ensures
        out@ == verify_table_spec(
            verification_views(receipt.repos@),
            receipt.overall,
            string_views(receipt.contradictions@),
            string_views(receipt.residuals@),
        ),
{
    let ghost vs = verification_views(receipt.repos@);
    let ghost lens = vs.map_values(|r: VerificationView| byte_len(r.name));
    let mut name_w: usize = 4;
    let mut i: usize = 0;
    proof {
        assert(lens.take(0) =~= Seq::<usize>::empty());
    }
    while i < receipt.repos.len()
        invariant
            0 <= i <= receipt.repos.len(),
            vs == verification_views(receipt.repos@),
            lens == vs.map_values(|r: VerificationView| byte_len(r.name)),
            name_w == max_width(lens.take(i as int), 4),
        decreases receipt.repos.len() - i,
    {
        let l = byte_len_exec(receipt.repos[i].name.as_str());
        proof {
            lemma_max_width_step(lens, 4, i as int);
            assert(lens[i as int] == l);
        }
        if l > name_w {
            name_w = l;
        }
        i = i + 1;
    }
    proof {
        assert(lens.take(receipt.repos.len() as int) =~= lens);
    }
    let verdict_w = byte_len_exec("contradicted");
    let mut out = String::new();
    push_padded(&mut out, "REPO", name_w);
    push_str(&mut out, "  ");
    push_padded(&mut out, "VERDICT", verdict_w);
    push_str(&mut out, "  detail");
    push_str(&mut out, "\n");
    push_separator(&mut out, name_w, verdict_w);
    let ghost head = out@;
    let mut k: usize = 0;
    proof {
        assert(vs.take(0) =~= Seq::<VerificationView>::empty());
        assert(out@ =~= head + verify_rows(vs.take(0), name_w));
    }
    while k < receipt.repos.len()
        invariant
            0 <= k <= receipt.repos.len(),
            vs == verification_views(receipt.repos@),
            verdict_w == verdict_width(),
            out@ == head + verify_rows(vs.take(k as int), name_w),
        decreases receipt.repos.len() - k,
    {
        let r = &receipt.repos[k];
        push_verify_row(&mut out, r, name_w, verdict_w);
        proof {
            assert(vs[k as int] == r@);
            assert(vs.take(k + 1).drop_last() =~= vs.take(k as int));
            assert(out@ =~= head + verify_rows(vs.take(k + 1), name_w));
        }
        k = k + 1;
    }
    proof {
        assert(vs.take(receipt.repos.len() as int) =~= vs);
    }
    push_separator(&mut out, name_w, verdict_w);
    push_str(&mut out, "Overall: ");
    push_str(&mut out, receipt.overall.description());
    push_str(&mut out, "\n");
    if receipt.contradictions.len() > 0 {
        push_str(&mut out, "\nContradictions:\n");
        push_bullets(&mut out, &receipt.contradictions);
    }
    let ghost mid = out@;
    if receipt.residuals.len() > 0 {
        push_str(&mut out, "\nWarning: residual auto-ok debt (run consign drain to clear):\n");
        push_bullets(&mut out, &receipt.residuals);
    }
    proof {
        assert(out@ =~= verify_table_spec(
            vs,
            receipt.overall,
            string_views(receipt.contradictions@),
            string_views(receipt.residuals@),
        ));
    }
    out
}

/// The fleet converges exactly when no repo of the fresh survey still has
/// push-eligible debt: auto-ok by policy, and ahead or without upstream.
pub proof fn lemma_converged_iff_no_eligible_debt(
    surveyed: Seq<(RepoDebt, RepoProbe)>,
    cfg: PolicyCfg,
    receipts: Option<Seq<ReceiptView>>,
)
    ensures
        (overall_spec(
            Seq::new(
                surveyed.len(),
                |i: int| verification_spec(surveyed[i].0, cfg, surveyed[i].1, receipts),
            ),
        ) == OverallVerdict::Converged) == (forall|i: int|
            0 <= i < surveyed.len() ==> !eligible_debt(#[trigger] surveyed[i], cfg)),
{
    let vs = Seq::new(
        surveyed.len(),
        |i: int| verification_spec(surveyed[i].0, cfg, surveyed[i].1, receipts),
    );
    if exists|i: int| 0 <= i < surveyed.len() && eligible_debt(#[trigger] surveyed[i], cfg) {
        let i = choose|i: int| 0 <= i < surveyed.len() && eligible_debt(#[trigger] surveyed[i], cfg);
        assert(vs[i].verdict == RepoVerdict::Contradicted || vs[i].verdict == RepoVerdict::Residual);
    } else {
        assert forall|i: int| 0 <= i < vs.len() implies (#[trigger] vs[i]).verdict
            != RepoVerdict::Contradicted && vs[i].verdict != RepoVerdict::Residual by {
            assert(!eligible_debt(surveyed[i], cfg));
        }
    }
}

/// A surveyed repo with push-eligible debt: auto-ok by policy, and ahead or
/// without upstream.
pub open spec fn eligible_debt(sp: (RepoDebt, RepoProbe), cfg: PolicyCfg) -> bool {
    policy_spec(sp.0, cfg, sp.1) == PolicyClass::AutoOk && still_ahead(sp.0.class)
}

} // verus!
