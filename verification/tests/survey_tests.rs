//! Survey: classifying a repo from what git printed, guessing the default
//! branch, and the survey table.

use consign::{
    classify_repo, guess_default_branch, remote_names, render_table, DebtClass,
    DefaultBranchProbe, RepoDebt, RepoObservation, SurveyError,
};

fn no_default() -> DefaultBranchProbe {
    DefaultBranchProbe {
        origin_head: None,
        main_exists: true,
        master_exists: false,
        trunk_exists: false,
        branch_list: Some("main\n".to_string()),
    }
}

fn obs(path: &str) -> RepoObservation {
    RepoObservation {
        path: path.to_string(),
        head_ref: Some("main\n".to_string()),
        remotes: String::new(),
        first_remote_url: None,
        default_branch: no_default(),
        upstream: None,
        ahead: String::new(),
        behind: String::new(),
        unpushed_log: String::new(),
    }
}

fn with_upstream(path: &str, ahead: &str, behind: &str) -> RepoObservation {
    let mut o = obs(path);
    o.remotes = "origin\n".to_string();
    o.first_remote_url = Some("/tmp/origin.git\n".to_string());
    o.upstream = Some("origin/main\n".to_string());
    o.ahead = ahead.to_string();
    o.behind = behind.to_string();
    o
}

#[test]
fn test_no_remote() {
    let debt = classify_repo(&obs("/tmp/t/repo"));
    assert_eq!(debt.class, DebtClass::NoRemote, "no remote => NoRemote");
    assert_eq!(debt.remote_url, None);
}

#[test]
fn ac3_no_remote() {
    let debt = classify_repo(&obs("/tmp/t/local"));
    assert_eq!(debt.class, DebtClass::NoRemote);
}

#[test]
fn ahead_behind_classification() {
    assert_eq!(classify_repo(&with_upstream("/r", "2\n", "0\n")).class, DebtClass::Ahead { n: 2 });
    assert_eq!(classify_repo(&with_upstream("/r", "3", "0")).class, DebtClass::Ahead { n: 3 });
    assert_eq!(
        classify_repo(&with_upstream("/r", "1\n", "1\n")).class,
        DebtClass::Diverged { a: 1, b: 1 }
    );
    assert_eq!(classify_repo(&with_upstream("/r", "0\n", "0\n")).class, DebtClass::Clean);
    assert_eq!(classify_repo(&with_upstream("/r", "0\n", "5\n")).class, DebtClass::Clean);
    assert_eq!(classify_repo(&with_upstream("/r", "garbage", "0")).class, DebtClass::Clean);
    assert_eq!(classify_repo(&with_upstream("/r", "+7", "")).class, DebtClass::Ahead { n: 7 });
    assert_eq!(
        classify_repo(&with_upstream("/r", "99999999999", "0")).class,
        DebtClass::Clean
    );
}

#[test]
fn no_upstream_counts_unpushed_commits() {
    let mut o = obs("/tmp/t/local");
    o.remotes = "origin\n".to_string();
    o.first_remote_url = Some("/tmp/t/origin.git\n".to_string());
    o.unpushed_log = "abc123 add unpushed.txt\n\ndef456 init\n".to_string();
    let debt = classify_repo(&o);
    assert_eq!(debt.class, DebtClass::NoUpstream { n: 2 });
    assert_eq!(debt.remote_url.as_deref(), Some("/tmp/t/origin.git"));
    assert_eq!(debt.branch, "main");
    assert!(debt.branch_is_default);
}

#[test]
fn detached_head_when_branch_unknown() {
    let mut o = obs("/tmp/t/local");
    o.head_ref = None;
    let debt = classify_repo(&o);
    assert_eq!(debt.branch, "HEAD");
    assert!(!debt.branch_is_default);
}

#[test]
fn remote_names_skip_blank_lines() {
    assert_eq!(
        remote_names("  origin \n\n upstream\n"),
        vec!["origin".to_string(), "upstream".to_string()]
    );
    assert!(remote_names("\n \n").is_empty());
}

#[test]
fn default_branch_guesses() {
    let origin = DefaultBranchProbe {
        origin_head: Some("refs/remotes/origin/develop\n".to_string()),
        main_exists: true,
        master_exists: true,
        trunk_exists: false,
        branch_list: None,
    };
    assert_eq!(guess_default_branch(&origin).as_deref(), Some("develop"));
    let master = DefaultBranchProbe {
        origin_head: Some("something/else".to_string()),
        main_exists: false,
        master_exists: true,
        trunk_exists: true,
        branch_list: None,
    };
    assert_eq!(guess_default_branch(&master).as_deref(), Some("master"));
    let trunk = DefaultBranchProbe {
        origin_head: None,
        main_exists: false,
        master_exists: false,
        trunk_exists: true,
        branch_list: Some("x".to_string()),
    };
    assert_eq!(guess_default_branch(&trunk).as_deref(), Some("trunk"));
    let listed = DefaultBranchProbe {
        origin_head: None,
        main_exists: false,
        master_exists: false,
        trunk_exists: false,
        branch_list: Some("\n  feature-x  \nold\n".to_string()),
    };
    assert_eq!(guess_default_branch(&listed).as_deref(), Some("feature-x"));
    let none = DefaultBranchProbe {
        origin_head: None,
        main_exists: false,
        master_exists: false,
        trunk_exists: false,
        branch_list: Some("   ".to_string()),
    };
    assert_eq!(guess_default_branch(&none), None);
}

#[test]
fn test_table_totals() {
    let debts: Vec<RepoDebt> = vec![classify_repo(&obs("/tmp/t/r1")), classify_repo(&obs("/tmp/t/r2"))];
    let table = render_table(&debts);
    assert!(table.contains("2 repos"), "table footer: {}", table);
}

#[test]
fn render_table_exact() {
    let ahead = classify_repo(&with_upstream("/fleet/alpha", "2", "0"));
    let diverged = classify_repo(&with_upstream("/fleet/b", "1", "4"));
    let mut nu = obs("/fleet/c");
    nu.remotes = "origin".to_string();
    nu.unpushed_log = "a\nb\nc\n".to_string();
    let no_upstream = classify_repo(&nu);
    let table = render_table(&[ahead, diverged, no_upstream]);
    let expected = "PATH          BRANCH  CLASS        detail\n------------  ------  -----------  ------\n/fleet/alpha  main    ahead        +2\n/fleet/b      main    diverged     +1 -4\n/fleet/c      main    no-upstream  ~3 no-remote-commits\n------------  ------  -----------  ------\n3 repos: 0 clean, 1 ahead, 1 no-upstream, 0 no-remote, 1 diverged\n";
    assert_eq!(table, expected);
}

#[test]
fn render_table_empty() {
    let table = render_table(&[]);
    assert_eq!(
        table,
        "PATH  BRANCH  CLASS  detail\n----  ------  -----  ------\n----  ------  -----  ------\n0 repos: 0 clean, 0 ahead, 0 no-upstream, 0 no-remote, 0 diverged\n"
    );
}

#[test]
fn survey_error_messages() {
    let e = SurveyError::UnreadableRoot("/nope".to_string(), "No such file or directory".to_string());
    assert_eq!(e.message(), "cannot read root directory /nope: No such file or directory");
    let g = SurveyError::Git("boom".to_string());
    assert_eq!(g.message(), "git error: boom");
}

#[test]
fn debt_class_names() {
    assert_eq!(DebtClass::Clean.name(), "clean");
    assert_eq!(DebtClass::Ahead { n: 1 }.name(), "ahead");
    assert_eq!(DebtClass::NoUpstream { n: 1 }.name(), "no-upstream");
    assert_eq!(DebtClass::NoRemote.name(), "no-remote");
    assert_eq!(DebtClass::Diverged { a: 1, b: 1 }.name(), "diverged");
}

// What git prints for the fixture repos of the original acceptance tests.

#[test]
fn test_ahead() {
    // Pushed with -u, then two more commits.
    let debt = classify_repo(&with_upstream("/tmp/t/local", "2\n", "0\n"));
    assert_eq!(debt.class, DebtClass::Ahead { n: 2 }, "2 commits ahead => Ahead(2)");
}

#[test]
fn ac3_ahead_n() {
    let debt = classify_repo(&with_upstream("/tmp/t/local", "3\n", "0\n"));
    assert_eq!(debt.class, DebtClass::Ahead { n: 3 });
}

#[test]
fn test_diverged() {
    // One local commit, one remote commit fetched.
    let debt = classify_repo(&with_upstream("/tmp/t/local", "1\n", "1\n"));
    assert!(matches!(debt.class, DebtClass::Diverged { a: 1, b: 1 }), "diverged: got {:?}", debt.class);
}

#[test]
fn ac3_diverged() {
    let debt = classify_repo(&with_upstream("/tmp/t/local", "1\n", "1\n"));
    assert!(
        matches!(debt.class, DebtClass::Diverged { a: 1, b: 1 }),
        "expected Diverged(1,1), got {:?}",
        debt.class
    );
}

#[test]
fn test_no_upstream() {
    let mut o = obs("/tmp/t/local");
    o.remotes = "origin\n".to_string();
    o.unpushed_log = "1111111 add unpushed.txt\n2222222 init\n".to_string();
    let debt = classify_repo(&o);
    assert!(matches!(debt.class, DebtClass::NoUpstream { .. }), "no upstream => NoUpstream; got {:?}", debt.class);
    if let DebtClass::NoUpstream { n } = debt.class {
        assert!(n > 0, "should have unpushed commits, got n=0");
    }
}

#[test]
fn ac2_no_upstream_not_clean() {
    let names = ["constellation-burst-builder", "doxa", "homeward", "mqo-chart-caption", "wm-skills"];
    for name in &names {
        let mut o = obs(&format!("/tmp/fleet/{}", name));
        o.remotes = "origin\n".to_string();
        o.first_remote_url = Some(format!("/tmp/fleet/{}.git\n", name));
        o.unpushed_log = "3333333 init\n".to_string();
        let debt = classify_repo(&o);
        assert!(
            matches!(debt.class, DebtClass::NoUpstream { .. }),
            "{}: expected NoUpstream, got {:?}",
            name,
            debt.class
        );
        if let DebtClass::NoUpstream { n } = debt.class {
            assert!(n > 0, "{}: unpushed count should be >0, got {}", name, n);
        }
    }
}

#[test]
fn ac4_table_totals_sum_to_repo_count() {
    let debts: Vec<RepoDebt> =
        ["r1", "r2", "r3"].iter().map(|n| classify_repo(&obs(&format!("/tmp/t/{}", n)))).collect();
    let table = render_table(&debts);
    assert!(table.contains("3 repos"), "footer should say '3 repos'; got:\n{}", table);
    let footer_line = table.lines().last().unwrap_or("");
    let nums: Vec<u32> = footer_line
        .split_whitespace()
        .filter_map(|tok| tok.trim_end_matches(',').parse::<u32>().ok())
        .collect();
    assert!(!nums.is_empty(), "no numbers in footer: {}", footer_line);
    let total = nums[0];
    let sum: u32 = nums[1..].iter().sum();
    assert_eq!(total, sum, "totals must sum to repo count");
    assert_eq!(total, 3);
}

#[test]
fn survey_table_has_one_line_per_repo_and_four_more() {
    let debts: Vec<RepoDebt> =
        ["r1", "r2", "r3", "r4"].iter().map(|n| classify_repo(&obs(&format!("/tmp/t/{}", n)))).collect();
    let table = render_table(&debts);
    assert_eq!(table.matches('\n').count(), debts.len() + 4);
    assert!(table.ends_with('\n'));
    let rows: Vec<&str> = table.lines().skip(2).take(4).collect();
    for (row, d) in rows.iter().zip(debts.iter()) {
        assert!(row.starts_with(&d.path));
    }
}
