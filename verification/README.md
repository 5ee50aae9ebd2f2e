# consign

Counts the unpushed work across a fleet of git repos, decides what is safe to
push automatically, pushes it without ever force-pushing, and checks that the
debt reached zero.

The decisions are a Verus-verified library (`src/`); the command-line program
around it (`app/`) runs git, walks the directories and prints JSON.

- `src/lib.rs` — push-debt classes, classification of a repo from what git
  printed, the default-branch guess, the survey table.
- `src/policy.rs` — `*`-glob matching (proved equal to the usual recursive
  definition of glob matching), hold names and markers, secret-file detection,
  the `auto-ok | private-hold | manual-only` verdict, the policy config parser
  and table.
- `src/drain.rs` — what drain does to each repo, the push arguments (never a
  force flag), receipts, the drain report.
- `src/verify.rs` — converged / contradicted / residual verdicts against a
  drain receipt, and the verify report.
- `src/text.rs` — the string operations the above rely on (`trim`, `lines`,
  `split`, decimal numbers, padding, `Path::file_name`), each proved against a
  specification of what std computes.
