//! Verify: converged / contradicted / residual verdicts over a fresh survey,
//! cross-checked against a drain receipt.

use consign::drain::{ActionResult, DrainAction, DrainReceipt};
use consign::verify::{render_verify_table, verify, OverallVerdict, RepoVerdict, VerifyConfig};
use consign::policy::{PolicyCfg, RepoProbe};
use consign::{DebtClass, RepoDebt};

fn debt(path: &str, class: DebtClass) -> RepoDebt {
    RepoDebt {
        path: path.to_string(),
        branch: "main".to_string(),
        default_branch: Some("main".to_string()),
        remote_url: Some("/tmp/origin.git".to_string()),
        class,
        branch_is_default: true,
    }
}

fn make_drain_receipt(name: &str, path: &str, action: DrainAction, result: ActionResult) -> DrainReceipt {
    DrainReceipt {
        name: name.to_string(),
        path: path.to_string(),
        branch: "main".to_string(),
        action,
        result,
        commits_pushed: 1,
        error_detail: None,
    }
}

fn config(receipt: Option<Vec<DrainReceipt>>) -> VerifyConfig {
    VerifyConfig {
        roots: vec!["/tmp/fleet".to_string()],
        drain_receipt: receipt,
        policy: PolicyCfg::default(),
    }
}

fn surveyed(debts: Vec<RepoDebt>) -> Vec<(RepoDebt, RepoProbe)> {
    debts.into_iter().map(|d| (d, RepoProbe { hold_marker: false, tracked_files: None })).collect()
}

#[test]
fn test_converged_all_clean() {
    let debts = vec![debt("/tmp/fleet/myrepo", DebtClass::Clean)];
    let receipt = verify(&config(None), &surveyed(debts));
    assert_eq!(receipt.overall, OverallVerdict::Converged, "all-clean fleet must converge");
    assert!(receipt.contradictions.is_empty());
    assert!(receipt.residuals.is_empty());
    assert!(receipt.survey_ran, "survey_ran must be true (AC5)");
    assert_eq!(receipt.overall.exit_code(), 0);
}

#[test]
fn test_contradicted_still_ahead() {
    let debts = vec![debt("/tmp/fleet/myrepo", DebtClass::Ahead { n: 1 })];
    let entry = make_drain_receipt("myrepo", "/tmp/fleet/myrepo", DrainAction::Push, ActionResult::Success);
    let receipt = verify(&config(Some(vec![entry])), &surveyed(debts));
    assert_eq!(
        receipt.overall,
        OverallVerdict::Contradicted,
        "still-ahead repo after drain must be contradicted"
    );
    assert!(receipt.contradictions.contains(&"myrepo".to_string()), "myrepo must be in contradictions");
    assert!(receipt.survey_ran, "survey_ran must be true (AC5)");
    assert_eq!(receipt.overall.exit_code(), 1);
    assert_eq!(receipt.repos[0].detail.as_deref(), Some("drain claimed pushed but still ahead"));
}

#[test]
fn test_residual_no_receipt() {
    let debts = vec![debt("/tmp/fleet/myrepo", DebtClass::Ahead { n: 1 })];
    let receipt = verify(&config(None), &surveyed(debts));
    assert_eq!(receipt.overall, OverallVerdict::Residual, "auto-ok debt with no receipt must be residual");
    assert!(receipt.residuals.contains(&"myrepo".to_string()), "myrepo must be in residuals");
    assert!(receipt.contradictions.is_empty(), "no receipt => no contradictions");
    assert!(receipt.survey_ran, "survey_ran must be true (AC5)");
    assert_eq!(receipt.overall.exit_code(), 0, "residual is exit 0");
    assert_eq!(receipt.repos[0].detail.as_deref(), Some("ahead (auto-ok debt, no drain receipt)"));
}

#[test]
fn test_diverged_out_of_scope() {
    let debts = vec![debt("/tmp/fleet/diverged_repo", DebtClass::Diverged { a: 1, b: 1 })];
    let entry = make_drain_receipt(
        "diverged_repo",
        "/tmp/fleet/diverged_repo",
        DrainAction::Push,
        ActionResult::Success,
    );
    let receipt = verify(&config(Some(vec![entry])), &surveyed(debts));
    assert_ne!(
        receipt.overall,
        OverallVerdict::Contradicted,
        "diverged repo must not trigger contradicted verdict"
    );
    assert!(receipt.contradictions.is_empty(), "diverged repo must never be in contradictions");
    assert_eq!(receipt.repos[0].verdict, RepoVerdict::OutOfScope);
}

#[test]
fn test_no_remote_out_of_scope() {
    let debts = vec![debt("/tmp/fleet/no_remote_repo", DebtClass::NoRemote)];
    let entry = make_drain_receipt(
        "no_remote_repo",
        "/tmp/fleet/no_remote_repo",
        DrainAction::Push,
        ActionResult::Success,
    );
    let receipt = verify(&config(Some(vec![entry])), &surveyed(debts));
    assert_ne!(
        receipt.overall,
        OverallVerdict::Contradicted,
        "no-remote repo must not trigger contradicted verdict"
    );
    assert!(receipt.contradictions.is_empty(), "no-remote repo must never be in contradictions");
}

#[test]
fn test_survey_runs_with_receipt() {
    let debts = vec![debt("/tmp/fleet/repo1", DebtClass::Clean)];
    let entry = make_drain_receipt("repo1", "/tmp/fleet/repo1", DrainAction::Push, ActionResult::Success);
    let receipt = verify(&config(Some(vec![entry])), &surveyed(debts));
    assert!(receipt.survey_ran, "survey must run even when drain_receipt is supplied");
    assert_eq!(receipt.overall, OverallVerdict::Converged);
}

#[test]
fn dry_run_and_failed_receipts_do_not_claim() {
    let debts = vec![
        debt("/tmp/fleet/a", DebtClass::Ahead { n: 1 }),
        debt("/tmp/fleet/b", DebtClass::NoUpstream { n: 2 }),
    ];
    let receipts = vec![
        make_drain_receipt("a", "/tmp/fleet/a", DrainAction::Push, ActionResult::DryRun),
        make_drain_receipt("b", "/tmp/fleet/b", DrainAction::SetUpstream, ActionResult::Error),
    ];
    let receipt = verify(&config(Some(receipts)), &surveyed(debts));
    assert_eq!(receipt.overall, OverallVerdict::Residual);
    assert_eq!(receipt.residuals, vec!["a".to_string(), "b".to_string()]);
}

#[test]
fn contradiction_beats_residual() {
    let debts = vec![
        debt("/tmp/fleet/a", DebtClass::Ahead { n: 1 }),
        debt("/tmp/fleet/b", DebtClass::NoUpstream { n: 2 }),
    ];
    let receipts = vec![make_drain_receipt("b", "/tmp/fleet/b", DrainAction::SetUpstream, ActionResult::Success)];
    let receipt = verify(&config(Some(receipts)), &surveyed(debts));
    assert_eq!(receipt.overall, OverallVerdict::Contradicted);
    assert_eq!(receipt.contradictions, vec!["b".to_string()]);
    assert_eq!(receipt.residuals, vec!["a".to_string()]);
}

#[test]
fn overall_descriptions_and_exit_codes() {
    assert_eq!(OverallVerdict::Converged.description(), "converged — fleet is clean (exit 0)");
    assert_eq!(
        OverallVerdict::Contradicted.description(),
        "contradicted — drain claimed repos pushed but debt remains (exit 1)"
    );
    assert_eq!(
        OverallVerdict::Residual.description(),
        "residual — auto-ok debt remains; no drain receipt to contradict (exit 0, warning)"
    );
    assert_eq!(OverallVerdict::Converged.exit_code(), 0);
    assert_eq!(OverallVerdict::Contradicted.exit_code(), 1);
    assert_eq!(OverallVerdict::Residual.exit_code(), 0);
}

#[test]
fn render_verify_table_exact() {
    let debts = vec![
        debt("/tmp/fleet/alpha", DebtClass::Ahead { n: 1 }),
        debt("/tmp/fleet/b", DebtClass::Clean),
        debt("/tmp/fleet/c", DebtClass::NoUpstream { n: 1 }),
    ];
    let receipts = vec![make_drain_receipt("alpha", "/tmp/fleet/alpha", DrainAction::Push, ActionResult::Success)];
    let receipt = verify(&config(Some(receipts)), &surveyed(debts));
    let table = render_verify_table(&receipt);
    let expected = "REPO   VERDICT       detail\n-----  ------------  ------\nalpha  contradicted  drain claimed pushed but still ahead\nb      out-of-scope  clean — out of convergence scope\nc      residual      no-upstream (auto-ok debt, no drain receipt)\n-----  ------------  ------\nOverall: contradicted — drain claimed repos pushed but debt remains (exit 1)\n\nContradictions:\n  - alpha\n\nWarning: residual auto-ok debt (run consign drain to clear):\n  - c\n";
    assert_eq!(table, expected);
}

#[test]
fn manual_only_and_private_hold_debt_is_out_of_scope() {
    let mut feature = debt("/tmp/fleet/feat", DebtClass::Ahead { n: 2 });
    feature.branch_is_default = false;
    let held = debt("/tmp/fleet/x-private", DebtClass::Ahead { n: 2 });
    let receipt = verify(&config(None), &surveyed(vec![feature, held]));
    assert_eq!(receipt.overall, OverallVerdict::Converged);
    assert_eq!(receipt.repos[0].verdict, RepoVerdict::OutOfScope);
    assert_eq!(receipt.repos[1].verdict, RepoVerdict::OutOfScope);
    assert!(receipt.residuals.is_empty());
    assert!(receipt.contradictions.is_empty());
    assert_eq!(receipt.repos[0].detail.as_deref(), Some("ahead — out of convergence scope"));
}
