//! Policy classification: glob matching, hold names and markers, secret
//! files, branch state, configuration parsing and the policy table.

use consign::policy::{
    classify, glob_match, render_policy_table, survey_with_policy, PolicyCfg, PolicyClass,
    PolicyEntry, RepoProbe,
};
use consign::{DebtClass, RepoDebt};

fn cfg() -> PolicyCfg {
    PolicyCfg::default()
}

fn no_probe() -> RepoProbe {
    RepoProbe { hold_marker: false, tracked_files: None }
}

fn make_debt(
    path: &str,
    branch: &str,
    class: DebtClass,
    branch_is_default: bool,
    remote_url: Option<String>,
) -> RepoDebt {
    RepoDebt {
        path: path.to_string(),
        branch: branch.to_string(),
        default_branch: Some("main".to_string()),
        remote_url,
        class,
        branch_is_default,
    }
}

#[test]
fn test_glob_exact() {
    assert!(glob_match("foo", "foo"));
    assert!(!glob_match("foo", "bar"));
}

#[test]
fn test_glob_suffix_star() {
    assert!(glob_match("foo*", "foobar"));
    assert!(glob_match("foo*", "foo"));
    assert!(!glob_match("foo*", "barfoo"));
}

#[test]
fn test_glob_prefix_star() {
    assert!(glob_match("*-private", "autobuilder-private"));
    assert!(glob_match("*-private", "my-repo-private"));
    assert!(!glob_match("*-private", "autobuilder"));
}

#[test]
fn test_glob_autobuilder() {
    assert!(glob_match("autobuilder*", "autobuilder"));
    assert!(glob_match("autobuilder*", "autobuilder-private"));
    assert!(!glob_match("autobuilder*", "not-autobuilder"));
}

#[test]
fn glob_middle_parts_and_edges() {
    assert!(glob_match("*credential*", "aws_credentials"));
    assert!(glob_match("a*b*c", "aXbYc"));
    assert!(glob_match("a*b*c", "abcbc"));
    assert!(!glob_match("a*b*c", "acb"));
    assert!(glob_match("*", ""));
    assert!(glob_match("**", "anything"));
    assert!(!glob_match("a*a", "a"));
    assert!(glob_match("a*a", "aa"));
    assert!(!glob_match("ab*ba", "aba"));
    assert!(glob_match("", ""));
    assert!(!glob_match("", "x"));
    assert!(!glob_match("*.pem", "server.pem.bak"));
    assert!(glob_match("*.pem", "server.pem"));
}

#[test]
fn test_private_name_suffix_hold() {
    let debt = make_debt("/tmp/x/autobuilder-private", "main", DebtClass::Ahead { n: 2 }, true, None);
    assert_eq!(classify(&debt, &cfg(), &no_probe()), PolicyClass::PrivateHold);
}

#[test]
fn test_autobuilder_prefix_hold() {
    let debt = make_debt("/tmp/x/autobuilder", "main", DebtClass::Ahead { n: 1 }, true, None);
    assert_eq!(classify(&debt, &cfg(), &no_probe()), PolicyClass::PrivateHold);
}

#[test]
fn test_consign_hold_file() {
    let debt = make_debt("/tmp/x/myrepo", "main", DebtClass::Ahead { n: 1 }, true, None);
    let probe = RepoProbe { hold_marker: true, tracked_files: None };
    assert_eq!(classify(&debt, &cfg(), &probe), PolicyClass::PrivateHold);
}

#[test]
fn test_diverged_is_manual_only() {
    let debt = make_debt(
        "/tmp/x/mqo-narrative-compose",
        "main",
        DebtClass::Diverged { a: 2, b: 2 },
        true,
        None,
    );
    assert_eq!(classify(&debt, &cfg(), &no_probe()), PolicyClass::ManualOnly);
}

#[test]
fn test_non_default_branch_is_manual_only() {
    let debt = make_debt(
        "/tmp/x/homeward",
        "autobuilder/homeward-found-geocode",
        DebtClass::Ahead { n: 2 },
        false,
        None,
    );
    assert_eq!(classify(&debt, &cfg(), &no_probe()), PolicyClass::ManualOnly);
}

#[test]
fn test_ahead_on_default_is_auto_ok() {
    let debt = make_debt("/tmp/x/myrepo", "main", DebtClass::Ahead { n: 3 }, true, None);
    assert_eq!(classify(&debt, &cfg(), &no_probe()), PolicyClass::AutoOk);
}

#[test]
fn test_no_upstream_on_default_is_auto_ok() {
    let debt = make_debt("/tmp/x/myrepo", "main", DebtClass::NoUpstream { n: 1 }, true, None);
    assert_eq!(classify(&debt, &cfg(), &no_probe()), PolicyClass::AutoOk);
}

#[test]
fn test_no_remote_on_default_is_auto_ok() {
    let debt = make_debt("/tmp/x/myrepo", "main", DebtClass::NoRemote, true, None);
    assert_eq!(classify(&debt, &cfg(), &no_probe()), PolicyClass::AutoOk);
}

#[test]
fn clean_on_default_is_auto_ok() {
    let debt = make_debt("/tmp/x/myrepo", "main", DebtClass::Clean, true, None);
    assert_eq!(classify(&debt, &cfg(), &no_probe()), PolicyClass::AutoOk);
}

fn listing_probe(listing: &str) -> RepoProbe {
    RepoProbe { hold_marker: false, tracked_files: Some(listing.to_string()) }
}

#[test]
fn test_tracked_env_file_is_private_hold() {
    let debt = make_debt("/tmp/x/myrepo", "main", DebtClass::NoRemote, true, None);
    assert_eq!(
        classify(&debt, &cfg(), &listing_probe(".env\nREADME.md\n")),
        PolicyClass::PrivateHold,
        "repo with tracked .env must be private-hold"
    );
}

#[test]
fn test_tracked_pem_file_is_private_hold() {
    let debt = make_debt("/tmp/x/myrepo", "main", DebtClass::NoRemote, true, None);
    assert_eq!(
        classify(&debt, &cfg(), &listing_probe("README.md\nserver.pem\n")),
        PolicyClass::PrivateHold
    );
}

#[test]
fn test_tracked_id_rsa_is_private_hold() {
    let debt = make_debt("/tmp/x/myrepo", "main", DebtClass::NoRemote, true, None);
    assert_eq!(
        classify(&debt, &cfg(), &listing_probe("README.md\nid_rsa\n")),
        PolicyClass::PrivateHold
    );
}

#[test]
fn test_tracked_credential_file_is_private_hold() {
    let debt = make_debt("/tmp/x/myrepo", "main", DebtClass::NoRemote, true, None);
    assert_eq!(
        classify(&debt, &cfg(), &listing_probe("README.md\naws_credentials\n")),
        PolicyClass::PrivateHold
    );
}

#[test]
fn secret_in_subdirectory_is_found_by_base_name() {
    let debt = make_debt("/tmp/x/myrepo", "main", DebtClass::Ahead { n: 1 }, true, None);
    assert_eq!(
        classify(&debt, &cfg(), &listing_probe("src/main.rs\nconfig/keys/id_ed25519\n")),
        PolicyClass::PrivateHold
    );
    assert_eq!(
        classify(&debt, &cfg(), &listing_probe("src/main.rs\nREADME.md\n")),
        PolicyClass::AutoOk
    );
}

#[test]
fn test_detached_head_is_manual_only() {
    let debt = make_debt("/tmp/x/myrepo", "HEAD", DebtClass::Ahead { n: 1 }, false, None);
    assert_eq!(classify(&debt, &cfg(), &no_probe()), PolicyClass::ManualOnly);
}

#[test]
fn detached_head_marked_default_is_still_manual_only() {
    let debt = make_debt("/tmp/x/myrepo", "HEAD", DebtClass::Ahead { n: 1 }, true, None);
    assert_eq!(classify(&debt, &cfg(), &no_probe()), PolicyClass::ManualOnly);
}

#[test]
fn test_user_supplied_hold_glob() {
    let debt = make_debt("/tmp/x/secret-corp", "main", DebtClass::Ahead { n: 1 }, true, None);
    let cfg = PolicyCfg {
        extra_hold_globs: vec!["secret-*".to_string()],
        extra_hold_paths: vec![],
    };
    assert_eq!(classify(&debt, &cfg, &no_probe()), PolicyClass::PrivateHold);
}

#[test]
fn user_supplied_hold_path_matches_repo_path() {
    let debt = make_debt("/vault/tool", "main", DebtClass::Ahead { n: 1 }, true, None);
    let cfg = PolicyCfg {
        extra_hold_globs: vec![],
        extra_hold_paths: vec!["/vault/".to_string()],
    };
    assert_eq!(classify(&debt, &cfg, &no_probe()), PolicyClass::PrivateHold);
    let other = PolicyCfg {
        extra_hold_globs: vec![],
        extra_hold_paths: vec!["/elsewhere/".to_string()],
    };
    assert_eq!(classify(&debt, &other, &no_probe()), PolicyClass::AutoOk);
}

#[test]
fn tracked_id_star_file_is_private_hold() {
    let debt = make_debt("/tmp/x/myrepo", "main", DebtClass::NoRemote, true, None);
    assert_eq!(
        classify(&debt, &cfg(), &listing_probe("README.md\nid_github\n")),
        PolicyClass::PrivateHold
    );
}

#[test]
fn hold_beats_manual_only() {
    let debt = make_debt(
        "/tmp/x/work-private",
        "feature",
        DebtClass::Diverged { a: 1, b: 1 },
        false,
        None,
    );
    assert_eq!(classify(&debt, &cfg(), &no_probe()), PolicyClass::PrivateHold);
}

#[test]
fn parse_simple_toml_reads_both_arrays() {
    let cfg = PolicyCfg::parse_simple_toml(
        "# consign policy\nextra_hold_globs = [\"secret-*\", 'corp*' ]\n  extra_hold_paths = [\"acme\",]\nother = 1\n",
    );
    assert_eq!(cfg.extra_hold_globs, vec!["secret-*".to_string(), "corp*".to_string()]);
    assert_eq!(cfg.extra_hold_paths, vec!["acme".to_string()]);
}

#[test]
fn parse_simple_toml_later_line_wins_and_non_arrays_are_empty() {
    let cfg = PolicyCfg::parse_simple_toml(
        "extra_hold_globs = [\"a\"]\nextra_hold_globs = [\"b\", \"c\"]\nextra_hold_paths = \"x\"\n",
    );
    assert_eq!(cfg.extra_hold_globs, vec!["b".to_string(), "c".to_string()]);
    assert!(cfg.extra_hold_paths.is_empty());
    let empty = PolicyCfg::parse_simple_toml("");
    assert!(empty.extra_hold_globs.is_empty());
    assert!(empty.extra_hold_paths.is_empty());
}

#[test]
fn extract_string_array_edges() {
    assert_eq!(
        PolicyCfg::extract_string_array("extra_hold_globs=[ \"x\" , , \"\" ,'y']"),
        vec!["x".to_string(), "y".to_string()]
    );
    assert!(PolicyCfg::extract_string_array("extra_hold_globs").is_empty());
    assert!(PolicyCfg::extract_string_array("extra_hold_globs = x").is_empty());
}

#[test]
fn test_render_policy_table_smoke() {
    let entries = vec![PolicyEntry {
        debt: make_debt("/tmp/x/myrepo", "main", DebtClass::Ahead { n: 1 }, true, None),
        policy: PolicyClass::AutoOk,
    }];
    let table = render_policy_table(&entries);
    assert!(table.contains("auto-ok"), "table must show 'auto-ok': {}", table);
    assert!(table.contains("1 repos"), "table must show totals: {}", table);
}

#[test]
fn render_policy_table_exact() {
    let entries = vec![
        PolicyEntry {
            debt: make_debt("/r/a", "main", DebtClass::Ahead { n: 1 }, true, None),
            policy: PolicyClass::AutoOk,
        },
        PolicyEntry {
            debt: make_debt("/r/b-private", "main", DebtClass::Clean, true, None),
            policy: PolicyClass::PrivateHold,
        },
    ];
    let table = render_policy_table(&entries);
    let expected = "\
PATH          BRANCH  CLASS  POLICY     \n\
------------  ------  -----  -----------\n\
/r/a          main    ahead  auto-ok    \n\
/r/b-private  main    clean  private-hold\n\
------------  ------  -----  -----------\n\
2 repos: 1 auto-ok, 1 private-hold, 0 manual-only\n";
    assert_eq!(table, expected);
}

#[test]
fn survey_with_policy_keeps_order() {
    let surveyed = vec![
        (make_debt("/r/a", "main", DebtClass::Ahead { n: 1 }, true, None), no_probe()),
        (make_debt("/r/b", "dev", DebtClass::Ahead { n: 1 }, false, None), no_probe()),
        (
            make_debt("/r/c", "main", DebtClass::Clean, true, None),
            RepoProbe { hold_marker: true, tracked_files: None },
        ),
    ];
    let entries = survey_with_policy(&surveyed, &cfg());
    let got: Vec<PolicyClass> = entries.iter().map(|e| e.policy).collect();
    assert_eq!(got, vec![PolicyClass::AutoOk, PolicyClass::ManualOnly, PolicyClass::PrivateHold]);
    assert_eq!(entries[1].debt.path, "/r/b");
}

#[test]
fn policy_class_names() {
    assert_eq!(PolicyClass::AutoOk.as_str(), "auto-ok");
    assert_eq!(PolicyClass::PrivateHold.as_str(), "private-hold");
    assert_eq!(PolicyClass::ManualOnly.as_str(), "manual-only");
}

#[test]
fn secret_shapes_and_near_misses() {
    let debt = make_debt("/tmp/x/myrepo", "main", DebtClass::Ahead { n: 1 }, true, None);
    for listing in ["docs/my_secret.txt\n", "keys/id_dsa\n", "deploy/CREDENTIALS_credential\n", "a/b/.env\n"] {
        assert_eq!(
            classify(&debt, &cfg(), &listing_probe(listing)),
            PolicyClass::PrivateHold,
            "{:?} must be caught",
            listing
        );
    }
    for listing in ["pid_file\n", "server.pem.bak\n", ".envrc\n", "Secret.md\n", "identity\n"] {
        assert_eq!(
            classify(&debt, &cfg(), &listing_probe(listing)),
            PolicyClass::AutoOk,
            "{:?} must not be caught",
            listing
        );
    }
}

#[test]
fn policy_table_has_one_line_per_entry_and_four_more() {
    let entries = vec![
        PolicyEntry {
            debt: make_debt("/tmp/x/a", "main", DebtClass::Ahead { n: 1 }, true, None),
            policy: PolicyClass::AutoOk,
        },
        PolicyEntry {
            debt: make_debt("/tmp/x/b-private", "main", DebtClass::Clean, true, None),
            policy: PolicyClass::PrivateHold,
        },
        PolicyEntry {
            debt: make_debt("/tmp/x/c", "dev", DebtClass::Ahead { n: 2 }, false, None),
            policy: PolicyClass::ManualOnly,
        },
    ];
    let table = render_policy_table(&entries);
    assert_eq!(table.matches('\n').count(), entries.len() + 4);
    assert_eq!(table.lines().count(), entries.len() + 4);
    assert!(table.ends_with("3 repos: 1 auto-ok, 1 private-hold, 1 manual-only\n"));
    let rows: Vec<&str> = table.lines().skip(2).take(3).collect();
    assert!(rows[0].starts_with("/tmp/x/a "));
    assert!(rows[1].starts_with("/tmp/x/b-private"));
    assert!(rows[2].starts_with("/tmp/x/c "));
    assert!(rows[2].ends_with("manual-only"));
}
