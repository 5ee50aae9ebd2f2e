//! Drain: dry runs, pushes through an injected runner, skips, receipts and
//! the drain report.

use std::sync::Mutex;

use consign::drain::{
    classify, drain_all, drain_one, drain_step, DrainStep, push_receipt, render_drain_table, ActionResult, DrainAction,
    DrainConfig, DrainReceipt, PolicyDecision, PushOutcome, PushRunner,
};
use consign::policy::{PolicyCfg, RepoProbe};
use consign::{DebtClass, RepoDebt};

fn probe() -> RepoProbe {
    RepoProbe { hold_marker: false, tracked_files: None }
}

fn with_probes(debts: Vec<RepoDebt>) -> Vec<(RepoDebt, RepoProbe)> {
    debts.into_iter().map(|d| (d, probe())).collect()
}

fn make_debt(path: &str, branch: &str, class: DebtClass) -> RepoDebt {
    RepoDebt {
        path: path.to_string(),
        branch: branch.to_string(),
        default_branch: Some("main".to_string()),
        remote_url: None,
        class,
        branch_is_default: true,
    }
}

/// Records push invocations without running git.
struct SpyRunner {
    calls: Mutex<Vec<(String, Vec<String>)>>,
    succeed: bool,
}

impl SpyRunner {
    fn new(succeed: bool) -> Self {
        SpyRunner { calls: Mutex::new(Vec::new()), succeed }
    }

    fn calls(&self) -> Vec<(String, Vec<String>)> {
        self.calls.lock().unwrap().clone()
    }
}

impl PushRunner for SpyRunner {
    fn run_push(&self, repo: &str, args: &[&str]) -> PushOutcome {
        for arg in args {
            assert!(
                *arg != "--force" && *arg != "--force-with-lease",
                "force flag detected in push args: {:?}",
                args
            );
        }
        self.calls
            .lock()
            .unwrap()
            .push((repo.to_string(), args.iter().map(|s| s.to_string()).collect()));
        PushOutcome {
            success: self.succeed,
            stderr: if self.succeed { String::new() } else { "simulated push error".into() },
        }
    }
}

#[test]
fn test_dry_run_does_not_push() {
    let debt = make_debt("/tmp/t/myrepo", "main", DebtClass::Ahead { n: 3 });
    let cfg = PolicyCfg::default();
    let runner = SpyRunner::new(true);
    let config = DrainConfig { dry_run: true, only: &[], policy: &cfg, runner: &runner };
    let receipt = drain_one(&debt, &probe(), &config);
    assert!(runner.calls().is_empty(), "dry-run must not invoke the push runner");
    assert_eq!(receipt.result, ActionResult::DryRun);
    assert_eq!(receipt.action, DrainAction::Push);
    assert_eq!(receipt.commits_pushed, 0);
    assert_eq!(receipt.name, "myrepo");
}

#[test]
fn test_nodryrun_pushes_ahead() {
    // A repo with one commit ahead of its upstream, on its default branch.
    let debt = RepoDebt {
        path: "/tmp/t/local".to_string(),
        branch: "main".to_string(),
        default_branch: Some("main".to_string()),
        remote_url: Some("/tmp/t/origin.git".to_string()),
        class: DebtClass::Ahead { n: 1 },
        branch_is_default: true,
    };
    let cfg = PolicyCfg::default();
    let runner = SpyRunner::new(true);
    let config = DrainConfig { dry_run: false, only: &[], policy: &cfg, runner: &runner };
    let receipt = drain_one(&debt, &probe(), &config);
    assert_eq!(receipt.result, ActionResult::Success);
    assert_eq!(receipt.action, DrainAction::Push);
    assert_eq!(receipt.commits_pushed, 1);
    let calls = runner.calls();
    assert_eq!(calls.len(), 1);
    assert_eq!(calls[0].0, "/tmp/t/local");
    assert_eq!(calls[0].1, Vec::<String>::new(), "ahead push args should be empty");
}

#[test]
fn test_nodryrun_sets_upstream() {
    let debt = RepoDebt {
        path: "/tmp/t/local".to_string(),
        branch: "main".to_string(),
        default_branch: Some("main".to_string()),
        remote_url: Some("/tmp/t/origin.git".to_string()),
        class: DebtClass::NoUpstream { n: 2 },
        branch_is_default: true,
    };
    let cfg = PolicyCfg::default();
    let runner = SpyRunner::new(true);
    let config = DrainConfig { dry_run: false, only: &[], policy: &cfg, runner: &runner };
    let receipt = drain_one(&debt, &probe(), &config);
    assert_eq!(receipt.result, ActionResult::Success);
    assert_eq!(receipt.action, DrainAction::SetUpstream);
    assert_eq!(receipt.commits_pushed, 2);
    let calls = runner.calls();
    assert_eq!(calls.len(), 1);
    let args = &calls[0].1;
    assert!(
        args.contains(&"--set-upstream".to_string()),
        "no-upstream push must use --set-upstream; got {:?}",
        args
    );
    assert!(
        args.contains(&"origin".to_string()),
        "no-upstream push must specify 'origin'; got {:?}",
        args
    );
    assert!(!args.contains(&"--force".to_string()));
    assert!(!args.contains(&"--force-with-lease".to_string()));
    assert_eq!(args, &vec!["--set-upstream".to_string(), "origin".to_string(), "main".to_string()]);
}

#[test]
fn test_no_force_flags() {
    let debt_ahead = make_debt("/tmp/t/myrepo", "main", DebtClass::Ahead { n: 1 });
    let cfg = PolicyCfg::default();
    let runner = SpyRunner::new(true);
    let config = DrainConfig { dry_run: false, only: &[], policy: &cfg, runner: &runner };
    drain_one(&debt_ahead, &probe(), &config);
    let debt_nu = make_debt("/tmp/t/myrepo", "main", DebtClass::NoUpstream { n: 1 });
    drain_one(&debt_nu, &probe(), &config);
    assert_eq!(runner.calls().len(), 2);
    for (_, args) in runner.calls() {
        assert!(!args.contains(&"--force".to_string()), "--force must never appear in push args");
        assert!(
            !args.contains(&"--force-with-lease".to_string()),
            "--force-with-lease must never appear in push args"
        );
    }
}

#[test]
fn test_diverged_skipped() {
    let debt = make_debt("/tmp/t/myrepo", "main", DebtClass::Diverged { a: 2, b: 2 });
    let cfg = PolicyCfg::default();
    let runner = SpyRunner::new(true);
    let config = DrainConfig { dry_run: false, only: &[], policy: &cfg, runner: &runner };
    let (receipts, needs_human) = drain_all(&with_probes(vec![debt]), &config);
    assert!(runner.calls().is_empty(), "diverged must not be pushed");
    assert_eq!(needs_human.len(), 1, "diverged must appear in needs_human");
    assert!(
        !receipts.iter().any(|r| r.action == DrainAction::Push),
        "diverged must not be in push receipts"
    );
    assert_eq!(
        needs_human[0].error_detail.as_deref(),
        Some("diverged (ahead 2 behind 2) — needs human review")
    );
}

#[test]
fn test_push_error_continues() {
    let debts = vec![
        make_debt("/tmp/t/r1", "main", DebtClass::Ahead { n: 1 }),
        make_debt("/tmp/t/r2", "main", DebtClass::Ahead { n: 2 }),
    ];
    let cfg = PolicyCfg::default();
    let runner = SpyRunner::new(false);
    let config = DrainConfig { dry_run: false, only: &[], policy: &cfg, runner: &runner };
    let (receipts, _) = drain_all(&with_probes(debts), &config);
    let push_receipts: Vec<_> = receipts.iter().filter(|r| r.action == DrainAction::Push).collect();
    assert_eq!(push_receipts.len(), 2, "both repos should have receipts");
    for r in &push_receipts {
        assert_eq!(r.result, ActionResult::Error, "failed push should be Error");
        assert!(r.error_detail.is_some(), "error receipt must have error_detail");
        assert_eq!(r.error_detail.as_deref(), Some("simulated push error"));
        assert_eq!(r.commits_pushed, 0);
    }
}

#[test]
fn test_nothing_to_do() {
    let debts = vec![make_debt("/tmp/t/myrepo", "main", DebtClass::Clean)];
    let cfg = PolicyCfg::default();
    let runner = SpyRunner::new(true);
    let config = DrainConfig { dry_run: false, only: &[], policy: &cfg, runner: &runner };
    let (receipts, needs_human) = drain_all(&with_probes(debts), &config);
    let table = render_drain_table(&receipts, &needs_human);
    assert!(runner.calls().is_empty());
    assert!(table.contains("nothing to do"), "clean fleet must emit 'nothing to do': {}", table);
    assert_eq!(table, "nothing to do\n");
}

#[test]
fn only_filter_excludes_other_repos() {
    let debts = vec![
        make_debt("/tmp/t/keep", "main", DebtClass::Ahead { n: 1 }),
        make_debt("/tmp/t/other", "main", DebtClass::Ahead { n: 1 }),
    ];
    let cfg = PolicyCfg::default();
    let runner = SpyRunner::new(true);
    let only = vec!["keep".to_string()];
    let config = DrainConfig { dry_run: false, only: &only, policy: &cfg, runner: &runner };
    let (receipts, needs_human) = drain_all(&with_probes(debts), &config);
    assert!(needs_human.is_empty());
    assert_eq!(receipts.len(), 2);
    assert_eq!(receipts[0].action, DrainAction::Push);
    assert_eq!(receipts[1].action, DrainAction::Skip);
    assert_eq!(receipts[1].error_detail.as_deref(), Some("excluded by --only filter"));
    let calls = runner.calls();
    assert_eq!(calls.len(), 1);
    assert_eq!(calls[0].0, "/tmp/t/keep");
}

#[test]
fn no_remote_and_clean_receipts() {
    let cfg = PolicyCfg::default();
    let runner = SpyRunner::new(true);
    let config = DrainConfig { dry_run: false, only: &[], policy: &cfg, runner: &runner };
    let r = drain_one(&make_debt("/tmp/t/solo", "main", DebtClass::NoRemote), &probe(), &config);
    assert_eq!(r.action, DrainAction::NoRemote);
    assert_eq!(r.result, ActionResult::Success);
    assert_eq!(
        r.error_detail.as_deref(),
        Some("no remote configured; use consign-publish to create remote")
    );
    let c = drain_one(&make_debt("/tmp/t/tidy", "main", DebtClass::Clean), &probe(), &config);
    assert_eq!(c.action, DrainAction::Clean);
    assert_eq!(c.error_detail, None);
    assert!(runner.calls().is_empty());
}

#[test]
fn drain_classify_cases() {
    assert_eq!(classify(&make_debt("/a", "main", DebtClass::Ahead { n: 1 })), PolicyDecision::AutoOk);
    assert_eq!(
        classify(&make_debt("/a", "main", DebtClass::NoUpstream { n: 1 })),
        PolicyDecision::AutoOk
    );
    assert_eq!(
        classify(&make_debt("/a", "main", DebtClass::Diverged { a: 1, b: 3 })),
        PolicyDecision::ManualOnly
    );
    assert_eq!(classify(&make_debt("/a", "main", DebtClass::NoRemote)), PolicyDecision::NoRemote);
    assert_eq!(classify(&make_debt("/a", "main", DebtClass::Clean)), PolicyDecision::Clean);
}

#[test]
fn push_receipt_records_outcome() {
    let debt = make_debt("/tmp/t/repo", "main", DebtClass::NoUpstream { n: 4 });
    let ok = push_receipt(&debt, PushOutcome { success: true, stderr: String::new() });
    assert_eq!(ok.result, ActionResult::Success);
    assert_eq!(ok.action, DrainAction::SetUpstream);
    assert_eq!(ok.commits_pushed, 4);
    assert_eq!(ok.name, "repo");
    let err = push_receipt(&debt, PushOutcome { success: false, stderr: "denied".to_string() });
    assert_eq!(err.result, ActionResult::Error);
    assert_eq!(err.commits_pushed, 0);
    assert_eq!(err.error_detail.as_deref(), Some("denied"));
}

fn receipt(name: &str, action: DrainAction, result: ActionResult, n: u32, detail: Option<&str>) -> DrainReceipt {
    DrainReceipt {
        name: name.to_string(),
        path: format!("/f/{}", name),
        branch: "main".to_string(),
        action,
        result,
        commits_pushed: n,
        error_detail: detail.map(|d| d.to_string()),
    }
}

#[test]
fn render_drain_table_exact() {
    let receipts = vec![
        receipt("a", DrainAction::Push, ActionResult::DryRun, 0, None),
        receipt("b", DrainAction::SetUpstream, ActionResult::Success, 3, None),
        receipt("c", DrainAction::Push, ActionResult::Error, 0, Some("rejected")),
        receipt("d", DrainAction::Push, ActionResult::Error, 0, None),
        receipt("e", DrainAction::Clean, ActionResult::Success, 0, None),
    ];
    let needs = vec![
        receipt("f", DrainAction::Skip, ActionResult::Success, 0, Some("diverged (ahead 1 behind 1) — needs human review")),
        receipt("g", DrainAction::Skip, ActionResult::Success, 0, None),
    ];
    let table = render_drain_table(&receipts, &needs);
    let expected = "Push plan:\n  push a (main) — [dry-run]\n  push --set-upstream b (main) — ok (+3)\n  push c (main) — error: rejected\n  push d (main) — error: unknown\n\nNeeds human:\n  f (main) — diverged (ahead 1 behind 1) — needs human review\n  g (main) — manual review required\n";
    assert_eq!(table, expected);
    let only_human = render_drain_table(&[], &needs[..1]);
    assert_eq!(
        only_human,
        "\nNeeds human:\n  f (main) — diverged (ahead 1 behind 1) — needs human review\n"
    );
}

#[test]
fn feature_branch_repo_is_not_pushed_and_needs_human() {
    let mut debt = make_debt("/w/myrepo", "feature-x", DebtClass::Ahead { n: 1 });
    debt.branch_is_default = false;
    let cfg = PolicyCfg::default();
    let runner = SpyRunner::new(true);
    let config = DrainConfig { dry_run: false, only: &[], policy: &cfg, runner: &runner };
    let (receipts, needs_human) = drain_all(&with_probes(vec![debt]), &config);
    assert!(runner.calls().is_empty(), "manual-only repos are never pushed");
    assert!(receipts.is_empty());
    assert_eq!(needs_human.len(), 1);
    assert_eq!(needs_human[0].action, DrainAction::Skip);
    assert_eq!(
        needs_human[0].error_detail.as_deref(),
        Some("manual-only (branch feature-x) — needs human review")
    );
}

#[test]
fn private_hold_repo_is_not_pushed() {
    let cfg = PolicyCfg::default();
    let runner = SpyRunner::new(true);
    let config = DrainConfig { dry_run: false, only: &[], policy: &cfg, runner: &runner };
    let held = make_debt("/w/autobuilder-private", "main", DebtClass::Ahead { n: 1 });
    let r = drain_one(&held, &probe(), &config);
    assert!(runner.calls().is_empty(), "private-hold repos are never pushed");
    assert_eq!(r.action, DrainAction::Skip);
    assert_eq!(r.commits_pushed, 0);
    assert_eq!(r.error_detail.as_deref(), Some("private-hold — never auto-pushed"));
    let marked = make_debt("/w/myrepo", "main", DebtClass::NoUpstream { n: 1 });
    let marker = RepoProbe { hold_marker: true, tracked_files: None };
    let (receipts, needs_human) = drain_all(&[(marked, marker)], &config);
    assert!(runner.calls().is_empty());
    assert!(needs_human.is_empty());
    assert_eq!(receipts[0].action, DrainAction::Skip);
}

#[test]
fn drain_step_names_the_push() {
    let cfg = PolicyCfg::default();
    let runner = SpyRunner::new(true);
    let config = DrainConfig { dry_run: false, only: &[], policy: &cfg, runner: &runner };
    match drain_step(&make_debt("/w/myrepo", "main", DebtClass::NoUpstream { n: 1 }), &probe(), &config) {
        DrainStep::Push { repo, args } => {
            assert_eq!(repo, "/w/myrepo");
            assert_eq!(args, vec!["--set-upstream".to_string(), "origin".to_string(), "main".to_string()]);
        }
        DrainStep::Done(r) => panic!("expected a push, got {:?}", r),
    }
    match drain_step(&make_debt("/w/myrepo", "main", DebtClass::Ahead { n: 1 }), &probe(), &config) {
        DrainStep::Push { repo, args } => {
            assert_eq!(repo, "/w/myrepo");
            assert!(args.is_empty());
        }
        DrainStep::Done(r) => panic!("expected a push, got {:?}", r),
    }
    let dry = DrainConfig { dry_run: true, only: &[], policy: &cfg, runner: &runner };
    assert!(matches!(
        drain_step(&make_debt("/w/myrepo", "main", DebtClass::Ahead { n: 1 }), &probe(), &dry),
        DrainStep::Done(_)
    ));
    assert!(runner.calls().is_empty());
}

#[test]
fn held_diverged_repo_still_needs_human() {
    let cfg = PolicyCfg::default();
    let runner = SpyRunner::new(true);
    let config = DrainConfig { dry_run: false, only: &[], policy: &cfg, runner: &runner };
    let marker = RepoProbe { hold_marker: true, tracked_files: None };
    let marked = make_debt("/w/myrepo", "main", DebtClass::Diverged { a: 2, b: 5 });
    let r = drain_one(&marked, &marker, &config);
    assert_eq!(r.action, DrainAction::Skip);
    assert_eq!(r.result, ActionResult::Success);
    assert_eq!(r.commits_pushed, 0);
    assert_eq!(r.error_detail.as_deref(), Some("diverged (ahead 2 behind 5) — needs human review"));
    let named = make_debt("/w/tools-private", "main", DebtClass::Diverged { a: 1, b: 1 });
    let (receipts, needs_human) = drain_all(&[(marked, marker), (named, probe())], &config);
    assert!(runner.calls().is_empty());
    assert!(receipts.is_empty());
    assert_eq!(needs_human.len(), 2);
    assert_eq!(needs_human[0].name, "myrepo");
    assert_eq!(needs_human[1].name, "tools-private");
    assert_eq!(
        needs_human[1].error_detail.as_deref(),
        Some("diverged (ahead 1 behind 1) — needs human review")
    );
}

#[test]
fn held_clean_and_no_remote_keep_their_receipts() {
    let cfg = PolicyCfg::default();
    let runner = SpyRunner::new(true);
    let config = DrainConfig { dry_run: false, only: &[], policy: &cfg, runner: &runner };
    let marker = RepoProbe { hold_marker: true, tracked_files: None };
    let clean = drain_one(&make_debt("/w/a-private", "main", DebtClass::Clean), &probe(), &config);
    assert_eq!(clean.action, DrainAction::Clean);
    assert_eq!(clean.error_detail, None);
    let none = drain_one(&make_debt("/w/b", "main", DebtClass::NoRemote), &marker, &config);
    assert_eq!(none.action, DrainAction::NoRemote);
    assert_eq!(
        none.error_detail.as_deref(),
        Some("no remote configured; use consign-publish to create remote")
    );
    assert!(runner.calls().is_empty());
}

#[test]
fn needs_human_list_keeps_survey_order() {
    let cfg = PolicyCfg::default();
    let runner = SpyRunner::new(true);
    let config = DrainConfig { dry_run: true, only: &[], policy: &cfg, runner: &runner };
    let mut feature = make_debt("/w/b", "feature-x", DebtClass::Ahead { n: 1 });
    feature.branch_is_default = false;
    let debts = vec![
        make_debt("/w/a", "main", DebtClass::Diverged { a: 1, b: 2 }),
        make_debt("/w/ok", "main", DebtClass::Ahead { n: 1 }),
        feature,
        make_debt("/w/c", "main", DebtClass::Diverged { a: 3, b: 4 }),
    ];
    let (receipts, needs_human) = drain_all(&with_probes(debts), &config);
    let names: Vec<&str> = needs_human.iter().map(|r| r.name.as_str()).collect();
    assert_eq!(names, vec!["a", "b", "c"]);
    assert_eq!(receipts.len(), 1);
    assert_eq!(receipts[0].name, "ok");
    assert_eq!(receipts[0].result, ActionResult::DryRun);
}
