//! consign — accurate fleet push-debt enumerator
//!
//! Classifies the push-debt of git repos into named buckets: clean, ahead,
//! no-upstream, no-remote, diverged. The library holds the decisions; the
//! program around it runs git and walks the directories, and hands the library
//! what git printed.

use vstd::prelude::*;

pub mod drain;
pub mod policy;
pub mod text;
pub mod verify;

pub use verify::{OverallVerdict, VerifyReceipt};



use crate::text::{
    byte_len, byte_len_exec, dec, lemma_max_width_step, max_width, pad, push_dec, push_padded,
    push_repeat, push_str, repeat, from_chars, lines, lines_exec, parse_u32, parse_u32_exec, starts_with_exec, slice_chars,
    to_chars, trim, trim_chars, views, lines_of, lemma_lines_of_split,
};
use crate::text::{group_newlines, lemma_newlines_add, lemma_newlines_none, newlines, no_newline};

verus! {

/// Classification of a repo's push-debt.
#[derive(Debug, Clone, Copy, PartialEq, Eq, Structural)]
pub enum DebtClass {
    /// HEAD is on a remote, nothing ahead.
    Clean,
    /// Upstream set, n commits ahead.
    Ahead { n: u32 },
    /// Has a remote but no upstream branch; n commits on no remote.
    NoUpstream { n: u32 },
    /// No remote configured.
    NoRemote,
    /// Upstream set, ahead a and behind b > 0.
    Diverged { a: u32, b: u32 },
}

impl DebtClass {
    /// The kebab-case name of the class.
    pub open spec fn name_spec(self) -> Seq<char> {
        match self {
            DebtClass::Clean => "clean"@,
            DebtClass::Ahead { .. } => "ahead"@,
            DebtClass::NoUpstream { .. } => "no-upstream"@,
            DebtClass::NoRemote => "no-remote"@,
            DebtClass::Diverged { .. } => "diverged"@,
        }
    }

    pub fn name(&self) -> (r: &'static str)
        ensures
            r@ == self.name_spec(),
    {
        match self {
            DebtClass::Clean => "clean",
            DebtClass::Ahead { .. } => "ahead",
            DebtClass::NoUpstream { .. } => "no-upstream",
            DebtClass::NoRemote => "no-remote",
            DebtClass::Diverged { .. } => "diverged",
        }
    }
}

/// Push-debt information for a single repository.
#[derive(Debug, Clone)]
pub struct RepoDebt {
    /// Absolute path to the repo root.
    pub path: String,
    /// Current branch name (or `HEAD` when detached).
    pub branch: String,
    /// Best-guess default branch (main/master/trunk, or first branch found).
    pub default_branch: Option<String>,
    /// Remote URL (first remote), if any.
    pub remote_url: Option<String>,
    /// Push-debt classification.
    pub class: DebtClass,
    /// True if `branch` matches the guessed `default_branch`.
    pub branch_is_default: bool,
}

/// Error type for survey operations.
#[derive(Debug)]
pub enum SurveyError {
    /// A root directory could not be listed: its path and the reason.
    UnreadableRoot(String, String),
    /// A git invocation failed.
    Git(String),
}

impl SurveyError {
    pub open spec fn message_spec(&self) -> Seq<char> {
        match self {
            SurveyError::UnreadableRoot(p, e) => "cannot read root directory "@ + p@ + ": "@ + e@,
            SurveyError::Git(msg) => "git error: "@ + msg@,
        }
    }

    /// The human-readable description of the error.
    pub fn message(&self) -> (r: String)
        ensures
            r@ == self.message_spec(),
    {
        let mut out = String::new();
        match self {
            SurveyError::UnreadableRoot(p, e) => {
                out.append("cannot read root directory ");
                out.append(p.as_str());
                out.append(": ");
                out.append(e.as_str());
            },
            SurveyError::Git(msg) => {
                out.append("git error: ");
                out.append(msg.as_str());
            },
        }
        proof {
            assert(out@ =~= self.message_spec());
        }
        out
    }
}

/// The views of a sequence of strings.
pub open spec fn string_views(ss: Seq<String>) -> Seq<Seq<char>> {
    ss.map_values(|s: String| s@)
}

/// The view of an optional string.
pub open spec fn opt_view(o: Option<String>) -> Option<Seq<char>> {
    match o {
        Some(s) => Some(s@),
        None => None,
    }
}

pub fn clone_opt_string(o: &Option<String>) -> (r: Option<String>)
    ensures
        r == *o,
{
    match o {
        Some(s) => Some(s.clone()),
        None => None,
    }
}

/// A copy of a repo's debt record.
pub fn clone_debt(d: &RepoDebt) -> (r: RepoDebt)
    ensures
        r == *d,
{
    RepoDebt {
        path: d.path.clone(),
        branch: d.branch.clone(),
        default_branch: clone_opt_string(&d.default_branch),
        remote_url: clone_opt_string(&d.remote_url),
        class: d.class,
        branch_is_default: d.branch_is_default,
    }
}

// ---------------------------------------------------------------------------
// What git printed, and what it says about a repo
// ---------------------------------------------------------------------------

/// What git answered to the questions asked to guess a repo's default branch.
pub struct DefaultBranchProbe {
    /// `git symbolic-ref refs/remotes/origin/HEAD`: its output when it succeeded.
    pub origin_head: Option<String>,
    /// Whether `git rev-parse --verify main` succeeded.
    pub main_exists: bool,
    /// Whether `git rev-parse --verify master` succeeded.
    pub master_exists: bool,
    /// Whether `git rev-parse --verify trunk` succeeded.
    pub trunk_exists: bool,
    /// `git branch --format=%(refname:short) --sort=-committerdate`: its output when it succeeded.
    pub branch_list: Option<String>,
}

/// The prefix that `origin/HEAD` points through.
pub open spec fn origin_prefix() -> Seq<char> {
    "refs/remotes/origin/"@
}

/// The first line of the (trimmed) branch list, trimmed, if not blank.
pub open spec fn first_listed_branch(list: Seq<char>) -> Option<Seq<char>> {
    let ls = lines(trim(list));
    if ls.len() > 0 && trim(ls[0]).len() > 0 {
        Some(trim(ls[0]))
    } else {
        None
    }
}

/// The default branch: where `origin/HEAD` points, else the first of main,
/// master, trunk that exists, else the most recently committed branch.
pub open spec fn default_branch_spec(p: DefaultBranchProbe) -> Option<Seq<char>> {
    if p.origin_head is Some && origin_prefix().is_prefix_of(trim(p.origin_head->0@)) {
        Some(trim(p.origin_head->0@).skip(origin_prefix().len() as int))
    } else if p.main_exists {
        Some("main"@)
    } else if p.master_exists {
        Some("master"@)
    } else if p.trunk_exists {
        Some("trunk"@)
    } else if p.branch_list is Some {
        first_listed_branch(p.branch_list->0@)
    } else {
        None
    }
}

/// Guess the default branch for a repo (origin's HEAD > main > master > trunk > first branch).
pub fn guess_default_branch(probe: &DefaultBranchProbe) -> (r: Option<String>)
    ensures
        opt_view(r) == default_branch_spec(*probe),
{
    if let Some(out) = &probe.origin_head {
        let t = trim_chars(&to_chars(out.as_str()));
        let prefix = to_chars("refs/remotes/origin/");
        if starts_with_exec(&t, &prefix) {
            let rest = slice_chars(&t, prefix.len(), t.len());
            proof {
                assert(t@.skip(prefix@.len() as int) =~= rest@);
            }
            return Some(from_chars(&rest));
        }
    }
    if probe.main_exists {
        return Some(String::from_str("main"));
    }
    if probe.master_exists {
        return Some(String::from_str("master"));
    }
    if probe.trunk_exists {
        return Some(String::from_str("trunk"));
    }
    match &probe.branch_list {
        Some(list) => {
            let ls = lines_exec(&trim_chars(&to_chars(list.as_str())));
            if ls.len() > 0 {
                proof {
                    assert(views(ls@)[0] == ls@[0]@);
                }
                let first = trim_chars(&ls[0]);
                if first.len() > 0 {
                    return Some(from_chars(&first));
                }
            }
            None
        },
        None => None,
    }
}

/// The default-branch guess goes by precedence. When `origin/HEAD` names a
/// branch of origin, that branch. Otherwise `main` when it exists, whatever
/// `master` and `trunk` say; else `master` when it exists, whatever `trunk`
/// says; else `trunk` when it exists; else nothing when there is no branch list.
pub proof fn lemma_default_branch_precedence(p: DefaultBranchProbe)
    ensures
        p.origin_head is Some && "refs/remotes/origin/"@.is_prefix_of(trim(p.origin_head->0@))
            ==> default_branch_spec(p) == Some(trim(p.origin_head->0@).skip(20)),
        !(p.origin_head is Some && "refs/remotes/origin/"@.is_prefix_of(trim(p.origin_head->0@)))
            ==> {
            &&& p.main_exists ==> default_branch_spec(p) == Some("main"@)
            &&& !p.main_exists && p.master_exists ==> default_branch_spec(p) == Some("master"@)
            &&& !p.main_exists && !p.master_exists && p.trunk_exists ==> default_branch_spec(p) == Some(
                "trunk"@,
            )
            &&& !p.main_exists && !p.master_exists && !p.trunk_exists && p.branch_list is None
                ==> default_branch_spec(p) is None
            &&& !p.main_exists && !p.master_exists && !p.trunk_exists && p.branch_list is Some ==> {
                let ls = lines(trim(p.branch_list->0@));
                default_branch_spec(p) == if ls.len() > 0 && trim(ls[0]).len() > 0 {
                    Some(trim(ls[0]))
                } else {
                    None
                }
            }
        },
{
    reveal_strlit("refs/remotes/origin/");
    assert(origin_prefix().len() == 20);
}

/// The remote names that `git remote` printed: non-blank lines, trimmed.
pub open spec fn remote_names_spec(raw: Seq<char>) -> Seq<Seq<char>> {
    lines(trim(raw)).map_values(|l: Seq<char>| trim(l)).filter(|l: Seq<char>| l.len() > 0)
}

/// The remote names listed in the output of `git remote`.
pub fn remote_names(raw: &str) -> (r: Vec<String>)
    ensures
        string_views(r@) == remote_names_spec(raw@),
{
    let ls = lines_exec(&trim_chars(&to_chars(raw)));
    let ghost trimmed = views(ls@).map_values(|l: Seq<char>| trim(l));
    let mut r: Vec<String> = Vec::new();
    let mut i: usize = 0;
    proof {
        assert(trimmed.take(0).filter(|l: Seq<char>| l.len() > 0) =~= Seq::<Seq<char>>::empty()) by {
            reveal(Seq::filter);
        }
    }
    while i < ls.len()
        invariant
            0 <= i <= ls.len(),
            trimmed == views(ls@).map_values(|l: Seq<char>| trim(l)),
            string_views(r@) == trimmed.take(i as int).filter(|l: Seq<char>| l.len() > 0),
        decreases ls.len() - i,
    {
        let t = trim_chars(&ls[i]);
        proof {
            reveal(Seq::filter);
            assert(views(ls@)[i as int] == ls@[i as int]@);
            assert(trimmed.take(i + 1).drop_last() =~= trimmed.take(i as int));
            assert(trimmed.take(i + 1).last() == t@);
        }
        if t.len() > 0 {
            let ghost before = string_views(r@);
            r.push(from_chars(&t));
            proof {
                assert(string_views(r@) =~= before.push(t@));
            }
        }
        i = i + 1;
    }
    proof {
        assert(trimmed.take(ls.len() as int) =~= trimmed);
    }
    r
}

/// The number of non-blank lines in what git printed.
pub open spec fn nonblank_count(raw: Seq<char>) -> nat {
    lines(trim(raw)).filter(|l: Seq<char>| trim(l).len() > 0).len()
}

fn count_nonblank_lines(raw: &str) -> (n: usize)
    ensures
        n == nonblank_count(raw@),
{
    let ls = lines_exec(&trim_chars(&to_chars(raw)));
    let ghost vs = views(ls@);
    let mut n: usize = 0;
    let mut i: usize = 0;
    proof {
        assert(vs.take(0).filter(|l: Seq<char>| trim(l).len() > 0) =~= Seq::<Seq<char>>::empty()) by {
            reveal(Seq::filter);
        }
    }
    while i < ls.len()
        invariant
            0 <= i <= ls.len(),
            vs == views(ls@),
            n == vs.take(i as int).filter(|l: Seq<char>| trim(l).len() > 0).len(),
            n <= i,
        decreases ls.len() - i,
    {
        let t = trim_chars(&ls[i]);
        proof {
            reveal(Seq::filter);
            assert(vs[i as int] == ls@[i as int]@);
            assert(vs.take(i + 1).drop_last() =~= vs.take(i as int));
            assert(vs.take(i + 1).last() == vs[i as int]);
        }
        if t.len() > 0 {
            n = n + 1;
        }
        i = i + 1;
    }
    proof {
        assert(vs.take(ls.len() as int) =~= vs);
    }
    n
}

/// A count that git printed; anything unreadable counts as 0.
pub open spec fn count_spec(raw: Seq<char>) -> u32 {
    match parse_u32(trim(raw)) {
        Some(v) => v,
        None => 0,
    }
}

fn parse_count(raw: &str) -> (r: u32)
    ensures
        r == count_spec(raw@),
{
    match parse_u32_exec(&trim_chars(&to_chars(raw))) {
        Some(v) => v,
        None => 0,
    }
}

/// Everything git answered about one repo.
pub struct RepoObservation {
    /// Absolute path to the repo root.
    pub path: String,
    /// `git rev-parse --abbrev-ref HEAD`: its output when it succeeded.
    pub head_ref: Option<String>,
    /// `git remote`: its output (empty when git could not run).
    pub remotes: String,
    /// `git remote get-url <first remote>`: its output when it succeeded.
    pub first_remote_url: Option<String>,
    /// The answers used to guess the default branch.
    pub default_branch: DefaultBranchProbe,
    /// `git rev-parse --abbrev-ref @{u}`: its output when it succeeded.
    pub upstream: Option<String>,
    /// `git rev-list --count @{u}..HEAD`: its output.
    pub ahead: String,
    /// `git rev-list --count HEAD..@{u}`: its output.
    pub behind: String,
    /// `git log --branches --not --remotes --oneline --`: its output.
    pub unpushed_log: String,
}

/// The current branch: what git printed, or `HEAD` when it could not say.
pub open spec fn observed_branch(obs: RepoObservation) -> Seq<char> {
    match obs.head_ref {
        Some(o) => trim(o@),
        None => "HEAD"@,
    }
}

/// The push-debt class that the observations show.
pub open spec fn observed_class(obs: RepoObservation) -> DebtClass {
    if remote_names_spec(obs.remotes@).len() == 0 {
        DebtClass::NoRemote
    } else if obs.upstream is Some {
        let a = count_spec(obs.ahead@);
        let b = count_spec(obs.behind@);
        if a == 0 {
            DebtClass::Clean
        } else if b == 0 {
            DebtClass::Ahead { n: a }
        } else {
            DebtClass::Diverged { a, b }
        }
    } else {
        DebtClass::NoUpstream { n: nonblank_count(obs.unpushed_log@) as u32 }
    }
}

/// A repo that has a remote but no upstream is never counted clean: its
/// unpushed work is reported as no-upstream debt.
pub proof fn lemma_no_upstream_never_clean(obs: RepoObservation)
    requires
        remote_names_spec(obs.remotes@).len() > 0,
        obs.upstream is None,
    ensures
        observed_class(obs) is NoUpstream,
{
}

/// The counts in the classes mean what their names say: `ahead(n)` has an
/// upstream and `n > 0`; `diverged(a/b)` has an upstream, `a > 0` and `b > 0`;
/// `clean` has a remote and an upstream.
pub proof fn lemma_class_counts(obs: RepoObservation)
    ensures
        observed_class(obs) matches DebtClass::Ahead { n } ==> n > 0 && obs.upstream is Some,
        observed_class(obs) matches DebtClass::Diverged { a, b } ==> a > 0 && b > 0
            && obs.upstream is Some,
        observed_class(obs) is Clean ==> obs.upstream is Some && remote_names_spec(obs.remotes@).len()
            > 0,
{
}

/// The current branch is what `git rev-parse --abbrev-ref HEAD` printed,
/// trimmed, or `HEAD` when git could not say.
pub proof fn lemma_observed_branch(obs: RepoObservation)
    ensures
        obs.head_ref is None ==> observed_branch(obs) == "HEAD"@,
        obs.head_ref is Some ==> observed_branch(obs) == trim(obs.head_ref->0@),
{
}

/// A count that git prints as a decimal number and a newline is read as that
/// number.
pub proof fn lemma_count_reads_git_output(n: u32)
    ensures
        count_spec(dec(n as nat) + "\n"@) == n,
{
    crate::text::lemma_parse_reads_dec(n);
}

/// A count that git printed unreadably (not an optional `+` and digits, or
/// too large) counts as 0.
pub proof fn lemma_unreadable_count_is_zero(raw: Seq<char>)
    requires
        parse_u32(trim(raw)) is None,
    ensures
        count_spec(raw) == 0,
{
}

/// With a remote and an upstream, the class follows git's two counts: nothing
/// ahead is clean (even when behind); ahead and not behind is `ahead` with the
/// ahead count; ahead and behind is `diverged` with the ahead count first and
/// the behind count second. Without an upstream, the class is `no-upstream`
/// with the number of non-blank lines of the unpushed log.
pub proof fn lemma_class_from_counts(obs: RepoObservation)
    requires
        remote_names_spec(obs.remotes@).len() > 0,
    ensures
        obs.upstream is Some && count_spec(obs.ahead@) == 0 ==> observed_class(obs) == DebtClass::Clean,
        obs.upstream is Some && count_spec(obs.ahead@) > 0 && count_spec(obs.behind@) == 0
            ==> observed_class(obs) == (DebtClass::Ahead { n: count_spec(obs.ahead@) }),
        obs.upstream is Some && count_spec(obs.ahead@) > 0 && count_spec(obs.behind@) > 0
            ==> observed_class(obs) == (DebtClass::Diverged {
            a: count_spec(obs.ahead@),
            b: count_spec(obs.behind@),
        }),
        obs.upstream is None ==> observed_class(obs) == (DebtClass::NoUpstream {
            n: lines(trim(obs.unpushed_log@)).filter(|l: Seq<char>| trim(l).len() > 0).len() as u32,
        }),
{
}

/// A repo without any remote is always classified no-remote, whatever else
/// git printed.
pub proof fn lemma_no_remote_is_no_remote(obs: RepoObservation)
    requires
        remote_names_spec(obs.remotes@).len() == 0,
    ensures
        observed_class(obs) == DebtClass::NoRemote,
        observed_remote_url(obs) is None,
{
}

/// The first remote's URL, when there is a remote and git printed it.
pub open spec fn observed_remote_url(obs: RepoObservation) -> Option<Seq<char>> {
    if remote_names_spec(obs.remotes@).len() == 0 {
        None
    } else {
        match obs.first_remote_url {
            Some(u) => Some(trim(u@)),
            None => None,
        }
    }
}

/// Classify a single git repo from what git answered about it.
pub fn classify_repo(obs: &RepoObservation) -> (r: RepoDebt)
    ensures
        r.path@ == obs.path@,
        r.branch@ == observed_branch(*obs),
        opt_view(r.default_branch) == default_branch_spec(obs.default_branch),
        opt_view(r.remote_url) == observed_remote_url(*obs),
        r.class == observed_class(*obs),
        r.branch_is_default == (default_branch_spec(obs.default_branch) == Some(
            observed_branch(*obs),
        )),
{
    let branch = match &obs.head_ref {
        Some(o) => from_chars(&trim_chars(&to_chars(o.as_str()))),
        None => String::from_str("HEAD"),
    };
    let remotes = remote_names(obs.remotes.as_str());
    let remote_url = if remotes.len() > 0 {
        match &obs.first_remote_url {
            Some(u) => Some(from_chars(&trim_chars(&to_chars(u.as_str())))),
            None => None,
        }
    } else {
        None
    };
    let default_branch = guess_default_branch(&obs.default_branch);
    let branch_is_default = match &default_branch {
        Some(d) => *d == branch,
        None => false,
    };
    let class = if remotes.len() == 0 {
        DebtClass::NoRemote
    } else if obs.upstream.is_some() {
        let ahead = parse_count(obs.ahead.as_str());
        let behind = parse_count(obs.behind.as_str());
        if ahead == 0 {
            DebtClass::Clean
        } else if behind == 0 {
            DebtClass::Ahead { n: ahead }
        } else {
            DebtClass::Diverged { a: ahead, b: behind }
        }
    } else {
        let n = count_nonblank_lines(obs.unpushed_log.as_str());
        DebtClass::NoUpstream { n: #[verifier::truncate] (n as u32) }
    };
    RepoDebt {
        path: obs.path.clone(),
        branch,
        default_branch,
        remote_url,
        class,
        branch_is_default,
    }
}

// ---------------------------------------------------------------------------
// Survey table
// ---------------------------------------------------------------------------

/// The detail column for a class.
pub open spec fn class_detail(c: DebtClass) -> Seq<char> {
    match c {
        DebtClass::Clean => Seq::empty(),
        DebtClass::Ahead { n } => "+"@ + dec(n as nat),
        DebtClass::NoUpstream { n } => "~"@ + dec(n as nat) + " no-remote-commits"@,
        DebtClass::NoRemote => Seq::empty(),
        DebtClass::Diverged { a, b } => "+"@ + dec(a as nat) + " -"@ + dec(b as nat),
    }
}

/// The widths of the path, branch and class columns: the longest cell in
/// bytes, at least the header's.
pub open spec fn survey_widths(ds: Seq<RepoDebt>) -> (usize, usize, usize) {
    (
        max_width(ds.map_values(|d: RepoDebt| byte_len(d.path@)), 4),
        max_width(ds.map_values(|d: RepoDebt| byte_len(d.branch@)), 6),
        max_width(ds.map_values(|d: RepoDebt| byte_len(d.class.name_spec())), 5),
    )
}

pub open spec fn survey_separator(w: (usize, usize, usize)) -> Seq<char> {
    repeat('-', w.0 as nat) + "  "@ + repeat('-', w.1 as nat) + "  "@ + repeat('-', w.2 as nat) + "  "@
        + "------"@
}

pub open spec fn survey_row(d: RepoDebt, w: (usize, usize, usize)) -> Seq<char> {
    pad(d.path@, w.0 as nat) + "  "@ + pad(d.branch@, w.1 as nat) + "  "@ + pad(
        d.class.name_spec(),
        w.2 as nat,
    ) + "  "@ + class_detail(d.class) + "\n"@
}

pub open spec fn survey_rows(ds: Seq<RepoDebt>, w: (usize, usize, usize)) -> Seq<char>
    decreases ds.len(),
{
    if ds.len() == 0 {
        Seq::empty()
    } else {
        survey_rows(ds.drop_last(), w) + survey_row(ds.last(), w)
    }
}

/// The number of repos whose class has the name `name`.
pub open spec fn count_class(ds: Seq<RepoDebt>, name: Seq<char>) -> nat
    decreases ds.len(),
{
    if ds.len() == 0 {
        0
    } else {
        count_class(ds.drop_last(), name) + if ds.last().class.name_spec() == name {
            1nat
        } else {
            0nat
        }
    }
}

/// The survey table: a header, one aligned row per repo, and a footer with
/// the number of repos in each class.
pub open spec fn survey_table_spec(ds: Seq<RepoDebt>) -> Seq<char> {
    let w = survey_widths(ds);
    pad("PATH"@, w.0 as nat) + "  "@ + pad("BRANCH"@, w.1 as nat) + "  "@ + pad("CLASS"@, w.2 as nat)
        + "  detail"@ + "\n"@ + survey_separator(w) + "\n"@ + survey_rows(ds, w) + survey_separator(w)
        + "\n"@ + dec(ds.len()) + " repos: "@ + dec(count_class(ds, "clean"@)) + " clean, "@ + dec(
        count_class(ds, "ahead"@),
    ) + " ahead, "@ + dec(count_class(ds, "no-upstream"@)) + " no-upstream, "@ + dec(
        count_class(ds, "no-remote"@),
    ) + " no-remote, "@ + dec(count_class(ds, "diverged"@)) + " diverged"@ + "\n"@
}

proof fn lemma_class_names_distinct()
    ensures
        "clean"@ != "ahead"@,
        "clean"@ != "no-upstream"@,
        "clean"@ != "no-remote"@,
        "clean"@ != "diverged"@,
        "ahead"@ != "no-upstream"@,
        "ahead"@ != "no-remote"@,
        "ahead"@ != "diverged"@,
        "no-upstream"@ != "no-remote"@,
        "no-upstream"@ != "diverged"@,
        "no-remote"@ != "diverged"@,
{
    reveal_strlit("clean");
    reveal_strlit("ahead");
    reveal_strlit("no-upstream");
    reveal_strlit("no-remote");
    reveal_strlit("diverged");
    assert("no-upstream"@[3] != "no-remote"@[3]);
    assert("clean"@[0] != "ahead"@[0]);
}

/// The footer's per-class counts add up to the number of repos.
pub proof fn lemma_survey_counts_sum(ds: Seq<RepoDebt>)
    ensures
        count_class(ds, "clean"@) + count_class(ds, "ahead"@) + count_class(ds, "no-upstream"@)
            + count_class(ds, "no-remote"@) + count_class(ds, "diverged"@) == ds.len(),
    decreases ds.len(),
{
    lemma_class_names_distinct();
    if ds.len() > 0 {
        lemma_survey_counts_sum(ds.drop_last());
    }
}

/// What the survey table shows of each class: its name and its counts, the
/// ahead count of `ahead(n)` as `+n`, the unpushed count of `no-upstream(n)`
/// as `~n no-remote-commits`, and `diverged(a/b)` as `+a -b`.
pub proof fn lemma_class_text(c: DebtClass)
    ensures
        c is Clean ==> c.name_spec() == "clean"@ && class_detail(c) == Seq::<char>::empty(),
        c is NoRemote ==> c.name_spec() == "no-remote"@ && class_detail(c) == Seq::<char>::empty(),
        c matches DebtClass::Ahead { n } ==> c.name_spec() == "ahead"@ && class_detail(c) == "+"@ + dec(
            n as nat,
        ),
        c matches DebtClass::NoUpstream { n } ==> c.name_spec() == "no-upstream"@ && class_detail(c)
            == "~"@ + dec(n as nat) + " no-remote-commits"@,
        c matches DebtClass::Diverged { a, b } ==> c.name_spec() == "diverged"@ && class_detail(c) == "+"@
            + dec(a as nat) + " -"@ + dec(b as nat),
{
}

/// The first two lines of the survey table: the column titles and a separator.
pub open spec fn survey_header(w: (usize, usize, usize)) -> Seq<char> {
    pad("PATH"@, w.0 as nat) + "  "@ + pad("BRANCH"@, w.1 as nat) + "  "@ + pad("CLASS"@, w.2 as nat)
        + "  detail"@ + "\n"@ + survey_separator(w) + "\n"@
}

/// The last line of the survey table: the number of repos, then of each class.
pub open spec fn survey_footer(ds: Seq<RepoDebt>) -> Seq<char> {
    dec(ds.len()) + " repos: "@ + dec(count_class(ds, "clean"@)) + " clean, "@ + dec(
        count_class(ds, "ahead"@),
    ) + " ahead, "@ + dec(count_class(ds, "no-upstream"@)) + " no-upstream, "@ + dec(
        count_class(ds, "no-remote"@),
    ) + " no-remote, "@ + dec(count_class(ds, "diverged"@)) + " diverged"@ + "\n"@
}

proof fn lemma_survey_rows_lines(ds: Seq<RepoDebt>, w: (usize, usize, usize))
    ensures
        survey_rows(ds, w) == lines_of(ds, |d: RepoDebt| survey_row(d, w)),
    decreases ds.len(),
{
    if ds.len() > 0 {
        lemma_survey_rows_lines(ds.drop_last(), w);
    }
}

/// The survey table is its header, one row per repo in survey order (the row
/// of repo `i` after the rows of the repos before it and before those of the
/// repos after it), a separator, and a last line that gives the number of
/// repos and of each class; the per-class counts add up to the number of repos.
pub proof fn lemma_survey_table_layout(ds: Seq<RepoDebt>, i: int)
    ensures
        survey_table_spec(ds) == survey_header(survey_widths(ds)) + survey_rows(ds, survey_widths(ds))
            + survey_separator(survey_widths(ds)) + "\n"@ + survey_footer(ds),
        0 <= i < ds.len() ==> survey_rows(ds, survey_widths(ds)) == survey_rows(
            ds.take(i),
            survey_widths(ds),
        ) + survey_row(ds[i], survey_widths(ds)) + survey_rows(ds.skip(i + 1), survey_widths(ds)),
        count_class(ds, "clean"@) + count_class(ds, "ahead"@) + count_class(ds, "no-upstream"@)
            + count_class(ds, "no-remote"@) + count_class(ds, "diverged"@) == ds.len(),
{
    let w = survey_widths(ds);
    assert(survey_table_spec(ds) =~= survey_header(w) + survey_rows(ds, w) + survey_separator(w)
        + "\n"@ + survey_footer(ds));
    lemma_survey_counts_sum(ds);
    if 0 <= i < ds.len() {
        let f = |d: RepoDebt| survey_row(d, w);
        lemma_survey_rows_lines(ds, w);
        lemma_survey_rows_lines(ds.take(i), w);
        lemma_survey_rows_lines(ds.skip(i + 1), w);
        lemma_lines_of_split(ds, f, i);
    }
}

/// The number of repos whose class satisfies `p`.
pub open spec fn count_where(ds: Seq<RepoDebt>, p: spec_fn(DebtClass) -> bool) -> nat {
    ds.filter(|d: RepoDebt| p(d.class)).len()
}

proof fn lemma_count_class_where(ds: Seq<RepoDebt>, c: DebtClass)
    ensures
        count_class(ds, c.name_spec()) == count_where(
            ds,
            |x: DebtClass| x.name_spec() == c.name_spec(),
        ),
    decreases ds.len(),
{
    reveal(Seq::filter);
    let f = |d: RepoDebt| (|x: DebtClass| x.name_spec() == c.name_spec())(d.class);
    if ds.len() > 0 {
        lemma_count_class_where(ds.drop_last(), c);
        assert(ds.filter(f) == if f(ds.last()) {
            ds.drop_last().filter(f).push(ds.last())
        } else {
            ds.drop_last().filter(f)
        });
    }
}

/// Two classes have the same name exactly when they are of the same kind.
proof fn lemma_class_name_kind(x: DebtClass, c: DebtClass)
    ensures
        (x.name_spec() == c.name_spec()) == ((x is Clean && c is Clean) || (x is Ahead && c is Ahead) || (
        x is NoUpstream && c is NoUpstream) || (x is NoRemote && c is NoRemote) || (x is Diverged
            && c is Diverged)),
{
    lemma_class_names_distinct();
}

/// The footer counts the repos of each kind of class.
proof fn lemma_count_kinds(ds: Seq<RepoDebt>)
    ensures
        count_class(ds, "clean"@) == count_where(ds, |x: DebtClass| x is Clean),
        count_class(ds, "ahead"@) == count_where(ds, |x: DebtClass| x is Ahead),
        count_class(ds, "no-upstream"@) == count_where(ds, |x: DebtClass| x is NoUpstream),
        count_class(ds, "no-remote"@) == count_where(ds, |x: DebtClass| x is NoRemote),
        count_class(ds, "diverged"@) == count_where(ds, |x: DebtClass| x is Diverged),
{
    let cs = seq![
        DebtClass::Clean,
        DebtClass::Ahead { n: 0 },
        DebtClass::NoUpstream { n: 0 },
        DebtClass::NoRemote,
        DebtClass::Diverged { a: 0, b: 0 },
    ];
    let ps = seq![
        |x: DebtClass| x is Clean,
        |x: DebtClass| x is Ahead,
        |x: DebtClass| x is NoUpstream,
        |x: DebtClass| x is NoRemote,
        |x: DebtClass| x is Diverged,
    ];
    assert forall|j: int| 0 <= j < 5 implies count_class(ds, #[trigger] cs[j].name_spec()) == count_where(ds, ps[j]) by {
        let c = cs[j];
        lemma_count_class_where(ds, c);
        let q = |x: DebtClass| x.name_spec() == c.name_spec();
        assert forall|x: DebtClass| #[trigger] q(x) == ps[j](x) by {
            lemma_class_name_kind(x, c);
        }
        assert(q =~= ps[j]);
    }
    assert(cs[0].name_spec() == "clean"@);
    assert(cs[1].name_spec() == "ahead"@);
    assert(cs[2].name_spec() == "no-upstream"@);
    assert(cs[3].name_spec() == "no-remote"@);
    assert(cs[4].name_spec() == "diverged"@);
}

/// The survey table ends with a line that gives the number of repos, then how
/// many are clean, ahead, without upstream, without remote and diverged, in
/// that order, each count being the number of repos of that kind.
pub proof fn lemma_survey_footer_counts(ds: Seq<RepoDebt>)
    ensures
        (dec(ds.len()) + " repos: "@ + dec(count_where(ds, |x: DebtClass| x is Clean)) + " clean, "@
            + dec(count_where(ds, |x: DebtClass| x is Ahead)) + " ahead, "@ + dec(
            count_where(ds, |x: DebtClass| x is NoUpstream),
        ) + " no-upstream, "@ + dec(count_where(ds, |x: DebtClass| x is NoRemote)) + " no-remote, "@
            + dec(count_where(ds, |x: DebtClass| x is Diverged)) + " diverged"@ + "\n"@).is_suffix_of(
            survey_table_spec(ds),
        ),
{
    let w = survey_widths(ds);
    lemma_count_kinds(ds);
    lemma_survey_table_layout(ds, 0);
    let pre = survey_header(w) + survey_rows(ds, w) + survey_separator(w) + "\n"@;
    let f = survey_footer(ds);
    assert(survey_table_spec(ds) =~= pre + f);
    assert((pre + f).subrange(pre.len() as int, (pre + f).len() as int) =~= f);
}

/// A class name holds no newline.
pub proof fn lemma_class_name_newlines(c: DebtClass)
    ensures
        newlines(c.name_spec()) == 0,
{
    reveal_strlit("clean");
    reveal_strlit("ahead");
    reveal_strlit("no-upstream");
    reveal_strlit("no-remote");
    reveal_strlit("diverged");
    lemma_newlines_none(c.name_spec());
}

proof fn lemma_survey_row_newlines(d: RepoDebt, w: (usize, usize, usize))
    requires
        no_newline(d.path@),
        no_newline(d.branch@),
    ensures
        newlines(survey_row(d, w)) == 1,
{
    broadcast use group_newlines;

    reveal_strlit("  ");
    reveal_strlit("\n");
    reveal_strlit("+");
    reveal_strlit("~");
    reveal_strlit(" no-remote-commits");
    reveal_strlit(" -");
    lemma_newlines_none("  "@);
    lemma_newlines_none("+"@);
    lemma_newlines_none("~"@);
    lemma_newlines_none(" no-remote-commits"@);
    lemma_newlines_none(" -"@);
    lemma_newlines_none(Seq::<char>::empty());
    lemma_newlines_none(d.path@);
    lemma_newlines_none(d.branch@);
    lemma_class_name_newlines(d.class);
    lemma_newline_lit();
    assert(newlines(class_detail(d.class)) == 0);
}

proof fn lemma_survey_rows_newlines(ds: Seq<RepoDebt>, w: (usize, usize, usize))
    requires
        forall|i: int| 0 <= i < ds.len() ==> no_newline(#[trigger] ds[i].path@) && no_newline(ds[i].branch@),
    ensures
        newlines(survey_rows(ds, w)) == ds.len(),
    decreases ds.len(),
{
    broadcast use group_newlines;

    if ds.len() > 0 {
        lemma_survey_rows_newlines(ds.drop_last(), w);
        assert(ds.last() == ds[ds.len() - 1]);
        assert(no_newline(ds[ds.len() - 1].path@) && no_newline(ds[ds.len() - 1].branch@));
        assert(survey_rows(ds, w) == survey_rows(ds.drop_last(), w) + survey_row(ds.last(), w));
        lemma_survey_row_newlines(ds.last(), w);
    }
}

pub(crate) proof fn lemma_newline_lit()
    ensures
        newlines("\n"@) == 1,
{
    reveal_strlit("\n");
    assert("\n"@.drop_last() =~= Seq::<char>::empty());
    assert(newlines(Seq::<char>::empty()) == 0);
    assert("\n"@.last() == '\n');
}

proof fn lemma_survey_header_newlines(w: (usize, usize, usize))
    ensures
        newlines(survey_header(w)) == 2,
        newlines(survey_separator(w) + "\n"@) == 1,
{
    broadcast use group_newlines;

    reveal_strlit("PATH");
    reveal_strlit("BRANCH");
    reveal_strlit("CLASS");
    reveal_strlit("  ");
    reveal_strlit("  detail");
    reveal_strlit("------");
    lemma_newlines_none("PATH"@);
    lemma_newlines_none("BRANCH"@);
    lemma_newlines_none("CLASS"@);
    lemma_newlines_none("  "@);
    lemma_newlines_none("  detail"@);
    lemma_newlines_none("------"@);
    lemma_newline_lit();
    assert(newlines(survey_separator(w)) == 0);
}

proof fn lemma_survey_footer_newlines(ds: Seq<RepoDebt>)
    ensures
        newlines(survey_footer(ds)) == 1,
        survey_footer(ds).last() == '\n',
{
    broadcast use group_newlines;

    reveal_strlit(" repos: ");
    reveal_strlit(" clean, ");
    reveal_strlit(" ahead, ");
    reveal_strlit(" no-upstream, ");
    reveal_strlit(" no-remote, ");
    reveal_strlit(" diverged");
    reveal_strlit("\n");
    lemma_newlines_none(" repos: "@);
    lemma_newlines_none(" clean, "@);
    lemma_newlines_none(" ahead, "@);
    lemma_newlines_none(" no-upstream, "@);
    lemma_newlines_none(" no-remote, "@);
    lemma_newlines_none(" diverged"@);
    lemma_newline_lit();
}

/// The survey table has one line per repo and four more (the column titles,
/// two separators and the footer), each ending with a newline, when no path
/// or branch holds a newline of its own.
#[verifier::spinoff_prover]
pub proof fn lemma_survey_table_lines(ds: Seq<RepoDebt>)
    requires
        forall|i: int| 0 <= i < ds.len() ==> no_newline(#[trigger] ds[i].path@) && no_newline(ds[i].branch@),
    ensures
        newlines(survey_table_spec(ds)) == ds.len() + 4,
        survey_table_spec(ds).last() == '\n',
{
    let w = survey_widths(ds);
    let h = survey_header(w);
    let r = survey_rows(ds, w);
    let sep = survey_separator(w) + "\n"@;
    let f = survey_footer(ds);
    lemma_survey_rows_newlines(ds, w);
    lemma_survey_table_layout(ds, 0);
    assert(survey_table_spec(ds) =~= h + r + sep + f);
    lemma_survey_header_newlines(w);
    lemma_survey_footer_newlines(ds);
    lemma_newlines_add(h, r);
    lemma_newlines_add(h + r, sep);
    lemma_newlines_add(h + r + sep, f);
}

fn push_survey_separator(out: &mut String, w: (usize, usize, usize))
    ensures
        final(out)@ == old(out)@ + survey_separator(w) + "\n"@,
{
    push_repeat(out, '-', w.0);
    push_str(out, "  ");
    push_repeat(out, '-', w.1);
    push_str(out, "  ");
    push_repeat(out, '-', w.2);
    push_str(out, "  ");
    push_str(out, "------");
    push_str(out, "\n");
    proof {
        assert(out@ =~= old(out)@ + survey_separator(w) + "\n"@);
    }
}

fn push_class_detail(out: &mut String, c: DebtClass)
    ensures
        final(out)@ == old(out)@ + class_detail(c),
{
    match c {
        DebtClass::Clean => {},
        DebtClass::Ahead { n } => {
            push_str(out, "+");
            push_dec(out, n as u64);
        },
        DebtClass::NoUpstream { n } => {
            push_str(out, "~");
            push_dec(out, n as u64);
            push_str(out, " no-remote-commits");
        },
        DebtClass::NoRemote => {},
        DebtClass::Diverged { a, b } => {
            push_str(out, "+");
            push_dec(out, a as u64);
            push_str(out, " -");
            push_dec(out, b as u64);
        },
    }
    proof {
        assert(out@ =~= old(out)@ + class_detail(c));
    }
}

/// Render a `&[RepoDebt]` as an aligned table with a totals footer.
pub fn render_table(debts: &[RepoDebt]) -> (out: String)
    ensures
        out@ == survey_table_spec(debts@),
{
    let ghost ds = debts@;
    let ghost lp = ds.map_values(|d: RepoDebt| byte_len(d.path@));
    let ghost lb = ds.map_values(|d: RepoDebt| byte_len(d.branch@));
    let ghost lc = ds.map_values(|d: RepoDebt| byte_len(d.class.name_spec()));
    let mut pw: usize = 4;
    let mut bw: usize = 6;
    let mut cw: usize = 5;
    let mut n_clean: usize = 0;
    let mut n_ahead: usize = 0;
    let mut n_no_upstream: usize = 0;
    let mut n_no_remote: usize = 0;
    let mut n_diverged: usize = 0;
    let mut i: usize = 0;
    proof {
        assert(lp.take(0) =~= Seq::<usize>::empty());
        assert(lb.take(0) =~= Seq::<usize>::empty());
        assert(lc.take(0) =~= Seq::<usize>::empty());
        assert(ds.take(0) =~= Seq::<RepoDebt>::empty());
        lemma_class_names_distinct();
    }
    while i < debts.len()
        invariant
            0 <= i <= debts.len(),
            ds == debts@,
            lp == ds.map_values(|d: RepoDebt| byte_len(d.path@)),
            lb == ds.map_values(|d: RepoDebt| byte_len(d.branch@)),
            lc == ds.map_values(|d: RepoDebt| byte_len(d.class.name_spec())),
            pw == max_width(lp.take(i as int), 4),
            bw == max_width(lb.take(i as int), 6),
            cw == max_width(lc.take(i as int), 5),
            n_clean == count_class(ds.take(i as int), "clean"@),
            n_ahead == count_class(ds.take(i as int), "ahead"@),
            n_no_upstream == count_class(ds.take(i as int), "no-upstream"@),
            n_no_remote == count_class(ds.take(i as int), "no-remote"@),
            n_diverged == count_class(ds.take(i as int), "diverged"@),
            n_clean + n_ahead + n_no_upstream + n_no_remote + n_diverged == i,
        decreases debts.len() - i,
    {
        let d = &debts[i];
        let l1 = byte_len_exec(d.path.as_str());
        let l2 = byte_len_exec(d.branch.as_str());
        let l3 = byte_len_exec(d.class.name());
        proof {
            lemma_max_width_step(lp, 4, i as int);
            lemma_max_width_step(lb, 6, i as int);
            lemma_max_width_step(lc, 5, i as int);
            assert(ds.take(i + 1).drop_last() =~= ds.take(i as int));
            lemma_class_names_distinct();
        }
        if l1 > pw {
            pw = l1;
        }
        if l2 > bw {
            bw = l2;
        }
        if l3 > cw {
            cw = l3;
        }
        match d.class {
            DebtClass::Clean => n_clean = n_clean + 1,
            DebtClass::Ahead { .. } => n_ahead = n_ahead + 1,
            DebtClass::NoUpstream { .. } => n_no_upstream = n_no_upstream + 1,
            DebtClass::NoRemote => n_no_remote = n_no_remote + 1,
            DebtClass::Diverged { .. } => n_diverged = n_diverged + 1,
        }
        i = i + 1;
    }
    proof {
        assert(lp.take(ds.len() as int) =~= lp);
        assert(lb.take(ds.len() as int) =~= lb);
        assert(lc.take(ds.len() as int) =~= lc);
        assert(ds.take(ds.len() as int) =~= ds);
    }
    let w = (pw, bw, cw);
    let mut out = String::new();
    push_padded(&mut out, "PATH", pw);
    push_str(&mut out, "  ");
    push_padded(&mut out, "BRANCH", bw);
    push_str(&mut out, "  ");
    push_padded(&mut out, "CLASS", cw);
    push_str(&mut out, "  detail");
    push_str(&mut out, "\n");
    push_survey_separator(&mut out, w);
    let ghost head = out@;
    let mut k: usize = 0;
    proof {
        assert(out@ =~= head + survey_rows(ds.take(0), w));
    }
    while k < debts.len()
        invariant
            0 <= k <= debts.len(),
            ds == debts@,
            out@ == head + survey_rows(ds.take(k as int), w),
        decreases debts.len() - k,
    {
        let d = &debts[k];
        let ghost before = out@;
        push_padded(&mut out, d.path.as_str(), w.0);
        push_str(&mut out, "  ");
        push_padded(&mut out, d.branch.as_str(), w.1);
        push_str(&mut out, "  ");
        push_padded(&mut out, d.class.name(), w.2);
        push_str(&mut out, "  ");
        push_class_detail(&mut out, d.class);
        push_str(&mut out, "\n");
        proof {
            assert(out@ =~= before + survey_row(ds[k as int], w));
            assert(ds.take(k + 1).drop_last() =~= ds.take(k as int));
            assert(out@ =~= head + survey_rows(ds.take(k + 1), w));
        }
        k = k + 1;
    }
    proof {
        assert(ds.take(debts.len() as int) =~= ds);
    }
    push_survey_separator(&mut out, w);
    push_dec(&mut out, debts.len() as u64);
    push_str(&mut out, " repos: ");
    push_dec(&mut out, n_clean as u64);
    push_str(&mut out, " clean, ");
    push_dec(&mut out, n_ahead as u64);
    push_str(&mut out, " ahead, ");
    push_dec(&mut out, n_no_upstream as u64);
    push_str(&mut out, " no-upstream, ");
    push_dec(&mut out, n_no_remote as u64);
    push_str(&mut out, " no-remote, ");
    push_dec(&mut out, n_diverged as u64);
    push_str(&mut out, " diverged");
    push_str(&mut out, "\n");
    proof {
        assert(out@ =~= survey_table_spec(ds));
    }
    out
}

} // verus!
