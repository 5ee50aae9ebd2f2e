//! consign policy — default-deny push-eligibility gate.
//!
//! Classifies each `RepoDebt` into one of three verdicts:
//!   - `auto-ok`      — safe to push automatically
//!   - `private-hold` — contains sensitive material; surface only, never push
//!   - `manual-only`  — diverged, non-default branch, or unknown state; needs human
//!
//! Design rule: ambiguous ⇒ `manual-only`, never `auto-ok`.

use vstd::prelude::*;

use crate::text::{
    chars_eq, find_from, from_chars, lines, lines_exec, occurs_at, occurs_at_exec, split_chars,
    split_on, starts_with_exec, strip_char, strip_char_exec, strip_end_char, strip_end_char_exec,
    strip_start_char, strip_start_char_exec, slice_chars, to_chars, trim, trim_chars, views,
};
use crate::text::{contains_exec, contains_seq, display_name, display_name_exec, file_name_or_empty, path_file_name};
use crate::text::{lines_of, lemma_lines_of_split};
use crate::text::{group_newlines, lemma_newlines_add, lemma_newlines_none, newlines, no_newline};
use crate::{lemma_class_name_newlines, lemma_newline_lit};
use crate::text::{byte_len, byte_len_exec, dec, lemma_max_width_step, max_width, pad, push_dec, push_padded, push_repeat, push_str, repeat};
use crate::{clone_debt, string_views, DebtClass, RepoDebt};

verus! {

// ---------------------------------------------------------------------------
// PolicyClass — the three verdicts
// ---------------------------------------------------------------------------

/// The push-eligibility verdict for a single repo.
#[derive(Debug, Clone, Copy, PartialEq, Eq, Structural)]
pub enum PolicyClass {
    /// Drain / publish may act automatically.
    AutoOk,
    /// Sensitive content detected; surface only, never auto-push.
    PrivateHold,
    /// Needs human review (diverged, wrong branch, unknown state).
    ManualOnly,
}

impl PolicyClass {
    pub open spec fn as_str_spec(self) -> Seq<char> {
        match self {
            PolicyClass::AutoOk => "auto-ok"@,
            PolicyClass::PrivateHold => "private-hold"@,
            PolicyClass::ManualOnly => "manual-only"@,
        }
    }

    /// Kebab-case name for display / JSON.
    pub fn as_str(&self) -> (r: &'static str)
        ensures
            r@ == self.as_str_spec(),
    {
        match self {
            PolicyClass::AutoOk => "auto-ok",
            PolicyClass::PrivateHold => "private-hold",
            PolicyClass::ManualOnly => "manual-only",
        }
    }
}

// ---------------------------------------------------------------------------
// PolicyCfg — configurable policy parameters
// ---------------------------------------------------------------------------

/// Policy configuration.  Built-in defaults apply when absent.
///
/// Read from `~/.config/consign/policy.toml` or `CONSIGN_POLICY_CONFIG`;
/// a missing or unreadable config is not an error.
#[derive(Debug, Clone)]
pub struct PolicyCfg {
    /// Additional name globs (fnmatch-style `*`) that force `private-hold`.
    /// Built-in: `*-private`, `autobuilder*`.
    pub extra_hold_globs: Vec<String>,
    /// Additional repo-root path substrings that force `private-hold`.
    pub extra_hold_paths: Vec<String>,
}

impl Default for PolicyCfg {
    fn default() -> (r: Self)
        ensures
            r.extra_hold_globs@.len() == 0,
            r.extra_hold_paths@.len() == 0,
    {
        PolicyCfg { extra_hold_globs: Vec::new(), extra_hold_paths: Vec::new() }
    }
}

/// What follows the first `c` in `s`, if `c` occurs.
pub open spec fn after_first(s: Seq<char>, c: char) -> Option<Seq<char>>
    decreases s.len(),
{
    if s.len() == 0 {
        None
    } else if s[0] == c {
        Some(s.drop_first())
    } else {
        after_first(s.drop_first(), c)
    }
}

/// One item of a TOML string array, without whitespace and quotes.
pub open spec fn array_item(s: Seq<char>) -> Seq<char> {
    strip_char(strip_char(trim(s), '"'), '\'')
}

/// The strings of a line `key = ["a", 'b', ...]`; empty when the value is not an array.
pub open spec fn string_array_spec(line: Seq<char>) -> Seq<Seq<char>> {
    let value = match after_first(line, '=') {
        Some(rest) => trim(rest),
        None => Seq::empty(),
    };
    if !seq!['['].is_prefix_of(value) {
        Seq::empty()
    } else {
        let inner = strip_end_char(strip_start_char(value, '['), ']');
        split_on(inner, ',').map_values(|x: Seq<char>| array_item(x)).filter(
            |x: Seq<char>| x.len() > 0,
        )
    }
}

/// The two settings after reading `ls` line by line; a later line for a key
/// replaces an earlier one.
pub open spec fn toml_settings(ls: Seq<Seq<char>>) -> (Seq<Seq<char>>, Seq<Seq<char>>)
    decreases ls.len(),
{
    if ls.len() == 0 {
        (Seq::empty(), Seq::empty())
    } else {
        let (g, p) = toml_settings(ls.drop_last());
        let line = trim(ls.last());
        if "extra_hold_globs"@.is_prefix_of(line) {
            (string_array_spec(line), p)
        } else if "extra_hold_paths"@.is_prefix_of(line) {
            (g, string_array_spec(line))
        } else {
            (g, p)
        }
    }
}

fn after_first_exec(v: &Vec<char>, c: char) -> (r: Option<Vec<char>>)
    ensures
        match r {
            Some(x) => after_first(v@, c) == Some(x@),
            None => after_first(v@, c) is None,
        },
{
    let mut i: usize = 0;
    proof {
        assert(v@.skip(0) =~= v@);
    }
    while i < v.len()
        invariant
            0 <= i <= v.len(),
            after_first(v@, c) == after_first(v@.skip(i as int), c),
        decreases v.len() - i,
    {
        proof {
            assert(v@.skip(i as int).drop_first() =~= v@.skip(i + 1));
        }
        if v[i] == c {
            let rest = slice_chars(v, i + 1, v.len());
            proof {
                assert(rest@ =~= v@.skip(i as int).drop_first());
            }
            return Some(rest);
        }
        i = i + 1;
    }
    None
}

impl PolicyCfg {
    /// Best-effort parse of a simple TOML array for our two fields.
    pub fn parse_simple_toml(s: &str) -> (cfg: Self)
        ensures
            (string_views(cfg.extra_hold_globs@), string_views(cfg.extra_hold_paths@))
                == toml_settings(lines(s@)),
    {
        let mut cfg = PolicyCfg::default();
        let ls = lines_exec(&to_chars(s));
        let ghost lv = views(ls@);
        let mut i: usize = 0;
        proof {
            assert(string_views(cfg.extra_hold_globs@) =~= Seq::<Seq<char>>::empty());
            assert(string_views(cfg.extra_hold_paths@) =~= Seq::<Seq<char>>::empty());
            assert(lv.take(0) =~= Seq::<Seq<char>>::empty());
        }
        while i < ls.len()
            invariant
                0 <= i <= ls.len(),
                lv == views(ls@),
                lv == lines(s@),
                (string_views(cfg.extra_hold_globs@), string_views(cfg.extra_hold_paths@))
                    == toml_settings(lv.take(i as int)),
            decreases ls.len() - i,
        {
            let line = trim_chars(&ls[i]);
            proof {
                assert(lv[i as int] == ls@[i as int]@);
                assert(lv.take(i + 1).drop_last() =~= lv.take(i as int));
                assert(lv.take(i + 1).last() == lv[i as int]);
            }
            let line_str = from_chars(&line);
            if starts_with_exec(&line, &to_chars("extra_hold_globs")) {
                cfg.extra_hold_globs = Self::extract_string_array(line_str.as_str());
            } else if starts_with_exec(&line, &to_chars("extra_hold_paths")) {
                cfg.extra_hold_paths = Self::extract_string_array(line_str.as_str());
            }
            i = i + 1;
        }
        proof {
            assert(lv.take(ls.len() as int) =~= lv);
        }
        cfg
    }

    /// The strings of a line `key = ["a", 'b', ...]`.
    pub fn extract_string_array(line: &str) -> (r: Vec<String>)
        ensures
            string_views(r@) == string_array_spec(line@),
    {
        let lv = to_chars(line);
        let value = match after_first_exec(&lv, '=') {
            Some(rest) => trim_chars(&rest),
            None => Vec::new(),
        };
        proof {
            if after_first(line@, '=') is None {
                assert(value@ =~= Seq::<char>::empty());
            }
        }
        let open = to_chars("[");
        proof {
            reveal_strlit("[");
            assert(open@ =~= seq!['[']);
        }
        if !starts_with_exec(&value, &open) {
            proof {
                assert(string_array_spec(line@) =~= Seq::<Seq<char>>::empty());
            }
            return Vec::new();
        }
        let inner = strip_end_char_exec(&strip_start_char_exec(&value, '['), ']');
        let pieces = split_chars(&inner, ',');
        let ghost items = views(pieces@).map_values(|x: Seq<char>| array_item(x));
        let mut r: Vec<String> = Vec::new();
        let mut i: usize = 0;
        proof {
            reveal(Seq::filter);
            assert(items.take(0).filter(|x: Seq<char>| x.len() > 0) =~= Seq::<Seq<char>>::empty());
        }
        while i < pieces.len()
            invariant
                0 <= i <= pieces.len(),
                items == views(pieces@).map_values(|x: Seq<char>| array_item(x)),
                string_views(r@) == items.take(i as int).filter(|x: Seq<char>| x.len() > 0),
            decreases pieces.len() - i,
        {
            let item = strip_char_exec(&strip_char_exec(&trim_chars(&pieces[i]), '"'), '\'');
            proof {
                reveal(Seq::filter);
                assert(views(pieces@)[i as int] == pieces@[i as int]@);
                assert(items.take(i + 1).drop_last() =~= items.take(i as int));
                assert(items.take(i + 1).last() == item@);
            }
            if item.len() > 0 {
                let ghost before = string_views(r@);
                r.push(from_chars(&item));
                proof {
                    assert(string_views(r@) =~= before.push(item@));
                }
            }
            i = i + 1;
        }
        proof {
            assert(items.take(pieces.len() as int) =~= items);
        }
        r
    }
}

// ---------------------------------------------------------------------------
// Glob matching (`*` wildcard only)
// ---------------------------------------------------------------------------

/// `name` matches `pattern`, where `*` in the pattern stands for any sequence
/// of characters (possibly empty) and every other character stands for itself.
pub open spec fn glob(p: Seq<char>, s: Seq<char>) -> bool
    decreases p.len(), s.len(),
{
    if p.len() == 0 {
        s.len() == 0
    } else if p[0] == '*' {
        glob(p.drop_first(), s) || (s.len() > 0 && glob(p, s.drop_first()))
    } else {
        s.len() > 0 && s[0] == p[0] && glob(p.drop_first(), s.drop_first())
    }
}

/// The pattern `*` followed by `r`.
pub open spec fn star(r: Seq<char>) -> Seq<char> {
    seq!['*'] + r
}

pub open spec fn star_free(q: Seq<char>) -> bool {
    forall|i: int| 0 <= i < q.len() ==> q[i] != '*'
}

/// A star-free literal at the front of a pattern must match the front of the name.
proof fn lemma_glob_literal_prefix(q: Seq<char>, r: Seq<char>, s: Seq<char>)
    requires
        star_free(q),
    ensures
        glob(q + r, s) == (q.is_prefix_of(s) && glob(r, s.skip(q.len() as int))),
    decreases q.len(),
{
    if q.len() == 0 {
        assert(q + r =~= r);
        assert(s.skip(0) =~= s);
    } else {
        let q1 = q.drop_first();
        assert((q + r)[0] == q[0]);
        assert((q + r).drop_first() =~= q1 + r);
        if s.len() > 0 {
            lemma_glob_literal_prefix(q1, r, s.drop_first());
            if q.len() <= s.len() {
                assert(s.drop_first().skip(q1.len() as int) =~= s.skip(q.len() as int));
            }
            if q.is_prefix_of(s) {
                assert(q1 =~= s.drop_first().subrange(0, q1.len() as int));
            }
            if s[0] == q[0] && q1.is_prefix_of(s.drop_first()) {
                assert forall|j: int| 0 <= j < q.len() implies q[j] == s[j] by {
                    if j > 0 {
                        assert(q[j] == q1[j - 1]);
                        assert(s.drop_first().subrange(0, q1.len() as int)[j - 1] == s[j]);
                    }
                }
                assert(q =~= s.subrange(0, q.len() as int));
            }
        }
    }
}

/// A star-free pattern matches exactly itself.
proof fn lemma_glob_literal(q: Seq<char>, s: Seq<char>)
    requires
        star_free(q),
    ensures
        glob(q, s) == (q == s),
{
    lemma_glob_literal_prefix(q, Seq::empty(), s);
    assert(q + Seq::<char>::empty() =~= q);
    if q.is_prefix_of(s) && s.skip(q.len() as int).len() == 0 {
        assert(q =~= s);
    }
}

/// A leading star that matches: some suffix of the name matches the rest.
proof fn lemma_glob_star_witness(r: Seq<char>, s: Seq<char>) -> (k: int)
    requires
        glob(star(r), s),
    ensures
        0 <= k <= s.len(),
        glob(r, s.skip(k)),
    decreases s.len(),
{
    assert(star(r)[0] == '*');
    assert(star(r).drop_first() =~= r);
    if glob(r, s) {
        assert(s.skip(0) =~= s);
        0
    } else {
        let k1 = lemma_glob_star_witness(r, s.drop_first());
        assert(s.drop_first().skip(k1) =~= s.skip(k1 + 1));
        k1 + 1
    }
}

/// A leading star matches whenever some suffix of the name matches the rest.
proof fn lemma_glob_star_intro(r: Seq<char>, s: Seq<char>, k: int)
    requires
        0 <= k <= s.len(),
        glob(r, s.skip(k)),
    ensures
        glob(star(r), s),
    decreases k,
{
    assert(star(r)[0] == '*');
    assert(star(r).drop_first() =~= r);
    if k == 0 {
        assert(s.skip(0) =~= s);
    } else {
        assert(s.drop_first().skip(k - 1) =~= s.skip(k));
        lemma_glob_star_intro(r, s.drop_first(), k - 1);
    }
}

/// A leading star that matches from a later position also matches from an earlier one.
proof fn lemma_glob_star_earlier(r: Seq<char>, s: Seq<char>, i: int, j: int)
    requires
        0 <= i <= j <= s.len(),
        glob(star(r), s.skip(j)),
    ensures
        glob(star(r), s.skip(i)),
{
    let k = lemma_glob_star_witness(r, s.skip(j));
    assert(s.skip(j).skip(k) =~= s.skip(i).skip(j - i + k));
    lemma_glob_star_intro(r, s.skip(i), j - i + k);
}

/// Two stars in a row match what one star matches.
proof fn lemma_glob_double_star(r: Seq<char>, s: Seq<char>)
    ensures
        glob(star(star(r)), s) == glob(star(r), s),
{
    if glob(star(star(r)), s) {
        let k = lemma_glob_star_witness(star(r), s);
        lemma_glob_star_earlier(r, s, 0, k);
        assert(s.skip(0) =~= s);
    }
    if glob(star(r), s) {
        assert(s.skip(0) =~= s);
        lemma_glob_star_intro(star(r), s, 0);
    }
}

/// The parts of a `*`-split pattern from index `i` on, joined again with `*`.
pub open spec fn join_from(parts: Seq<Seq<char>>, i: int) -> Seq<char>
    decreases parts.len() - i,
{
    if i >= parts.len() - 1 {
        if 0 <= i < parts.len() {
            parts[i]
        } else {
            Seq::empty()
        }
    } else {
        parts[i] + star(join_from(parts, i + 1))
    }
}

proof fn lemma_join_push(ps: Seq<Seq<char>>, x: Seq<char>, i: int)
    requires
        0 <= i < ps.len(),
    ensures
        join_from(ps.push(x), i) =~= join_from(ps, i) + star(x),
    decreases ps.len() - i,
{
    if i < ps.len() - 1 {
        lemma_join_push(ps, x, i + 1);
        assert(join_from(ps.push(x), i) == ps[i] + star(join_from(ps.push(x), i + 1)));
    } else {
        assert(join_from(ps.push(x), i + 1) == x);
        assert(join_from(ps.push(x), i) == ps[i] + star(join_from(ps.push(x), i + 1)));
    }
}

proof fn lemma_join_extend_last(ps: Seq<Seq<char>>, c: char, i: int)
    requires
        0 <= i < ps.len(),
    ensures
        join_from(ps.update(ps.len() - 1, ps.last().push(c)), i) =~= join_from(ps, i).push(c),
    decreases ps.len() - i,
{
    let qs = ps.update(ps.len() - 1, ps.last().push(c));
    if i < ps.len() - 1 {
        lemma_join_extend_last(ps, c, i + 1);
        assert(join_from(qs, i) == qs[i] + star(join_from(qs, i + 1)));
    }
}

/// Splitting a pattern at `*` gives star-free parts that join back to it.
proof fn lemma_split_star_join(p: Seq<char>)
    ensures
        split_on(p, '*').len() >= 1,
        join_from(split_on(p, '*'), 0) == p,
        forall|j: int| 0 <= j < split_on(p, '*').len() ==> star_free(#[trigger] split_on(p, '*')[j]),
    decreases p.len(),
{
    if p.len() == 0 {
        assert(join_from(split_on(p, '*'), 0) =~= p);
    } else {
        let prev = split_on(p.drop_last(), '*');
        lemma_split_star_join(p.drop_last());
        if p.last() == '*' {
            lemma_join_push(prev, Seq::empty(), 0);
            assert(p.drop_last() + star(Seq::empty()) =~= p);
        } else {
            lemma_join_extend_last(prev, p.last(), 0);
            assert(p.drop_last().push(p.last()) =~= p);
            let qs = prev.update(prev.len() - 1, prev.last().push(p.last()));
            assert forall|j: int| 0 <= j < qs.len() implies star_free(#[trigger] qs[j]) by {
                if j == qs.len() - 1 {
                    assert(star_free(prev[j]));
                }
            }
        }
    }
}

/// Steps through the split pattern: the rest of the pattern from part `i` on.
proof fn lemma_join_step(parts: Seq<Seq<char>>, i: int)
    requires
        0 <= i < parts.len() - 1,
    ensures
        join_from(parts, i) == parts[i] + star(join_from(parts, i + 1)),
{
}

/// `name` (its characters from `pos` on) matches `*` + the rest of the pattern
/// after the star-free part `q`, with `q` taken at its first occurrence.
proof fn lemma_glob_leftmost(q: Seq<char>, r: Seq<char>, s: Seq<char>, pos: int, f: Option<int>)
    requires
        star_free(q),
        q.len() > 0,
        0 <= pos <= s.len(),
        match f {
            Some(i) => pos <= i && occurs_at(s, q, i) && forall|j: int|
                pos <= j < i ==> !occurs_at(s, q, j),
            None => forall|j: int| pos <= j ==> !occurs_at(s, q, j),
        },
    ensures
        glob(star(q + star(r)), s.skip(pos)) == match f {
            Some(i) => glob(star(r), s.skip(i + q.len())),
            None => false,
        },
{
    let t = s.skip(pos);
    if glob(star(q + star(r)), t) {
        let k = lemma_glob_star_witness(q + star(r), t);
        lemma_glob_literal_prefix(q, star(r), t.skip(k));
        assert(t.skip(k).subrange(0, q.len() as int) =~= s.subrange(pos + k, pos + k + q.len()));
        assert(occurs_at(s, q, pos + k));
        match f {
            Some(i) => {
                assert(t.skip(k).skip(q.len() as int) =~= s.skip(pos + k + q.len()));
                lemma_glob_star_earlier(r, s, i + q.len(), pos + k + q.len());
            },
            None => {},
        }
    }
    match f {
        Some(i) => {
            if glob(star(r), s.skip(i + q.len())) {
                let k = i - pos;
                assert(t.skip(k).subrange(0, q.len() as int) =~= s.subrange(i, i + q.len()));
                assert(t.skip(k).skip(q.len() as int) =~= s.skip(i + q.len()));
                lemma_glob_literal_prefix(q, star(r), t.skip(k));
                lemma_glob_star_intro(q + star(r), t, k);
            }
        },
        None => {},
    }
}

/// `*` followed by a star-free `q` matches exactly the names that end with `q`.
proof fn lemma_glob_star_suffix(q: Seq<char>, t: Seq<char>)
    requires
        star_free(q),
    ensures
        glob(star(q), t) == q.is_suffix_of(t),
{
    if glob(star(q), t) {
        let k = lemma_glob_star_witness(q, t);
        lemma_glob_literal(q, t.skip(k));
        assert(t.subrange(t.len() - q.len(), t.len() as int) =~= t.skip(k));
    }
    if q.is_suffix_of(t) {
        let k = t.len() - q.len();
        assert(t.skip(k) =~= q);
        lemma_glob_literal(q, t.skip(k));
        lemma_glob_star_intro(q, t, k);
    }
}

/// The name that the `*`-split parts of a pattern make from part `i` on, with
/// the fill `xs[j]` in place of the star after part `j`.
pub open spec fn fill_from(parts: Seq<Seq<char>>, xs: Seq<Seq<char>>, i: int) -> Seq<char>
    decreases parts.len() - i,
{
    if i >= parts.len() - 1 {
        if 0 <= i < parts.len() {
            parts[i]
        } else {
            Seq::empty()
        }
    } else {
        parts[i] + xs[i] + fill_from(parts, xs, i + 1)
    }
}

/// The fills before part `i` play no part from part `i` on.
proof fn lemma_fill_from_update(parts: Seq<Seq<char>>, xs: Seq<Seq<char>>, j: int, y: Seq<char>, i: int)
    requires
        0 <= j < i,
        xs.len() == parts.len() - 1,
    ensures
        fill_from(parts, xs.update(j, y), i) == fill_from(parts, xs, i),
    decreases parts.len() - i,
{
    if i < parts.len() - 1 {
        lemma_fill_from_update(parts, xs, j, y, i + 1);
        assert(xs.update(j, y)[i] == xs[i]);
    }
}

/// A name that matches the pattern from part `i` on is made of those parts
/// with some fills.
proof fn lemma_glob_fill_witness(parts: Seq<Seq<char>>, s: Seq<char>, i: int) -> (xs: Seq<Seq<char>>)
    requires
        0 <= i < parts.len(),
        forall|j: int| 0 <= j < parts.len() ==> star_free(#[trigger] parts[j]),
        glob(join_from(parts, i), s),
    ensures
        xs.len() == parts.len() - 1,
        s == fill_from(parts, xs, i),
    decreases parts.len() - i,
{
    if i == parts.len() - 1 {
        lemma_glob_literal(parts[i], s);
        Seq::new((parts.len() - 1) as nat, |j: int| Seq::<char>::empty())
    } else {
        let q = parts[i];
        let rest = join_from(parts, i + 1);
        lemma_join_step(parts, i);
        lemma_glob_literal_prefix(q, star(rest), s);
        let t = s.skip(q.len() as int);
        let k = lemma_glob_star_witness(rest, t);
        let xs0 = lemma_glob_fill_witness(parts, t.skip(k), i + 1);
        let x = t.take(k);
        let xs = xs0.update(i, x);
        lemma_fill_from_update(parts, xs0, i, x, i + 1);
        assert(s =~= q + x + t.skip(k));
        xs
    }
}

/// The parts from `i` on, with any fills, make a name that matches the
/// pattern from part `i` on.
proof fn lemma_glob_fill_intro(parts: Seq<Seq<char>>, xs: Seq<Seq<char>>, i: int)
    requires
        0 <= i < parts.len(),
        xs.len() == parts.len() - 1,
        forall|j: int| 0 <= j < parts.len() ==> star_free(#[trigger] parts[j]),
    ensures
        glob(join_from(parts, i), fill_from(parts, xs, i)),
    decreases parts.len() - i,
{
    let s = fill_from(parts, xs, i);
    if i == parts.len() - 1 {
        lemma_glob_literal(parts[i], s);
    } else {
        let q = parts[i];
        let rest = join_from(parts, i + 1);
        let tail = fill_from(parts, xs, i + 1);
        lemma_join_step(parts, i);
        lemma_glob_fill_intro(parts, xs, i + 1);
        lemma_glob_literal_prefix(q, star(rest), s);
        assert(s =~= q + (xs[i] + tail));
        assert(q.is_prefix_of(s));
        let t = s.skip(q.len() as int);
        assert(t =~= xs[i] + tail);
        assert(t.skip(xs[i].len() as int) =~= tail);
        lemma_glob_star_intro(rest, t, xs[i].len() as int);
    }
}

/// A name matches a pattern exactly when it is the pattern's `*`-separated
/// parts in order, with some text (possibly empty) in place of each `*`: the
/// first part, a fill, the second part, and so on up to the last part. A
/// pattern without `*` matches only itself.
pub proof fn lemma_glob_split_fill(p: Seq<char>, s: Seq<char>)
    ensures
        glob(p, s) <==> exists|xs: Seq<Seq<char>>|
            xs.len() == split_on(p, '*').len() - 1 && s == #[trigger] fill_from(split_on(p, '*'), xs, 0),
        star_free(p) ==> (glob(p, s) <==> p == s),
{
    let parts = split_on(p, '*');
    lemma_split_star_join(p);
    if glob(p, s) {
        let xs = lemma_glob_fill_witness(parts, s, 0);
    }
    if exists|xs: Seq<Seq<char>>| xs.len() == parts.len() - 1 && s == #[trigger] fill_from(parts, xs, 0) {
        let xs = choose|xs: Seq<Seq<char>>| xs.len() == parts.len() - 1 && s == #[trigger] fill_from(parts, xs, 0);
        lemma_glob_fill_intro(parts, xs, 0);
    }
    if star_free(p) {
        lemma_glob_literal(p, s);
    }
}

/// Match `pattern` against `name`. Supports `*` wildcard only. Case-sensitive.
///
/// The pattern is split at `*`; the first part must be a prefix of the name,
/// each middle part is found at its first occurrence after what came before,
/// and the last part must be a suffix of what remains.
pub fn glob_match(pattern: &str, name: &str) -> (r: bool)
    ensures
        r == glob(pattern@, name@),
{
    let pv = to_chars(pattern);
    let nv = to_chars(name);
    let parts = split_chars(&pv, '*');
    let ghost ps = views(parts@);
    proof {
        lemma_split_star_join(pv@);
        assert(join_from(ps, 0) == pattern@);
    }
    let n = parts.len();
    if n == 1 {
        proof {
            assert(ps[0] == pattern@);
            lemma_glob_literal(pattern@, name@);
        }
        return chars_eq(&pv, &nv);
    }
    // The first part must be a prefix.

    let mut pos: usize = 0;
    proof {
        lemma_join_step(ps, 0);
        assert(ps[0] == parts@[0]@);
        lemma_glob_literal_prefix(ps[0], star(join_from(ps, 1)), name@);
        assert(ps[0] + star(join_from(ps, 1)) =~= join_from(ps, 0));
    }
    if parts[0].len() > 0 {
        if !starts_with_exec(&nv, &parts[0]) {
            return false;
        }
        pos = parts[0].len();
    } else {
        proof {
            assert(name@.skip(0) =~= name@);
        }
    }
    // Middle parts: first occurrence, left to right.
    let mut i: usize = 1;
    while i + 1 < n
        invariant
            n == parts.len(),
            n >= 2,
            1 <= i <= n - 1,
            ps == views(parts@),
            forall|j: int| 0 <= j < ps.len() ==> star_free(#[trigger] ps[j]),
            0 <= pos <= nv@.len(),
            nv@ == name@,
            glob(pattern@, name@) == glob(star(join_from(ps, i as int)), nv@.skip(pos as int)),
        decreases n - i,
    {
        let part = &parts[i];
        proof {
            assert(ps[i as int] == part@);
            lemma_join_step(ps, i as int);
        }
        if part.len() == 0 {
            proof {
                assert(join_from(ps, i as int) =~= star(join_from(ps, i + 1)));
                lemma_glob_double_star(join_from(ps, i + 1), nv@.skip(pos as int));
            }
        } else {
            let found = find_from(&nv, part, pos);
            proof {
                let f: Option<int> = match found {
                    Some(k) => Some(k as int),
                    None => None,
                };
                lemma_glob_leftmost(part@, join_from(ps, i + 1), nv@, pos as int, f);
            }
            match found {
                Some(k) => {
                    assert(occurs_at(nv@, part@, k as int));
                    assert(k + part@.len() <= nv@.len());
                    assert(part.len() == part@.len());
                    assert(nv@.len() == nv.len());
                    pos = k + part.len();
                },
                None => {
                    return false;
                },
            }
        }
        i = i + 1;
    }
    // The last part must be a suffix of what remains.
    let last = &parts[n - 1];
    proof {
        assert(ps[n - 1] == last@);
        assert(join_from(ps, n - 1) == last@);
        lemma_glob_star_suffix(last@, nv@.skip(pos as int));
    }
    if last.len() == 0 {
        return true;
    }
    let r = last.len() <= nv.len() - pos && occurs_at_exec(&nv, last, nv.len() - last.len());
    proof {
        let t = nv@.skip(pos as int);
        if last@.len() <= t.len() {
            assert(t.subrange(t.len() - last@.len(), t.len() as int) =~= nv@.subrange(
                nv@.len() - last@.len(),
                nv@.len() as int,
            ));
        }
    }
    r
}

// ---------------------------------------------------------------------------
// Built-in hold patterns
// ---------------------------------------------------------------------------

/// Built-in name patterns that force `private-hold`.
pub open spec fn builtin_hold_globs() -> Seq<Seq<char>> {
    seq!["*-private"@, "autobuilder*"@]
}

/// Secret-file patterns: a tracked file whose name matches one of these
/// makes the repo `private-hold`.
pub open spec fn secret_patterns() -> Seq<Seq<char>> {
    seq![
        ".env"@,
        "*.pem"@,
        "id_*"@,
        "*credential*"@,
        "*credentials*"@,
        "*secret*"@,
    ]
}

fn builtin_hold_globs_exec() -> (r: Vec<&'static str>)
    ensures
        r@.map_values(|x: &str| x@) == builtin_hold_globs(),
{
    let mut r: Vec<&'static str> = Vec::new();
    r.push("*-private");
    r.push("autobuilder*");
    proof {
        assert(r@.map_values(|x: &str| x@) =~= builtin_hold_globs());
    }
    r
}

fn secret_patterns_exec() -> (r: Vec<&'static str>)
    ensures
        r@.map_values(|x: &str| x@) == secret_patterns(),
{
    let mut r: Vec<&'static str> = Vec::new();
    r.push(".env");
    r.push("*.pem");
    r.push("id_*");
    r.push("*credential*");
    r.push("*credentials*");
    r.push("*secret*");
    proof {
        assert(r@.map_values(|x: &str| x@) =~= secret_patterns());
    }
    r
}

/// Some pattern of `pats` matches `name`.
pub open spec fn any_glob(pats: Seq<Seq<char>>, name: Seq<char>) -> bool {
    exists|i: int| 0 <= i < pats.len() && glob(#[trigger] pats[i], name)
}

fn any_glob_str(pats: &Vec<&str>, name: &str) -> (r: bool)
    ensures
        r == any_glob(pats@.map_values(|x: &str| x@), name@),
{
    let ghost ps = pats@.map_values(|x: &str| x@);
    let mut i: usize = 0;
    while i < pats.len()
        invariant
            0 <= i <= pats.len(),
            ps == pats@.map_values(|x: &str| x@),
            forall|j: int| 0 <= j < i ==> !glob(#[trigger] ps[j], name@),
        decreases pats.len() - i,
    {
        proof {
            assert(ps[i as int] == pats@[i as int]@);
        }
        if glob_match(pats[i], name) {
            return true;
        }
        i = i + 1;
    }
    false
}

fn any_glob_string(pats: &Vec<String>, name: &str) -> (r: bool)
    ensures
        r == any_glob(string_views(pats@), name@),
{
    let ghost ps = string_views(pats@);
    let mut i: usize = 0;
    while i < pats.len()
        invariant
            0 <= i <= pats.len(),
            ps == string_views(pats@),
            forall|j: int| 0 <= j < i ==> !glob(#[trigger] ps[j], name@),
        decreases pats.len() - i,
    {
        proof {
            assert(ps[i as int] == pats@[i as int]@);
        }
        if glob_match(pats[i].as_str(), name) {
            return true;
        }
        i = i + 1;
    }
    false
}

// ---------------------------------------------------------------------------
// Secret detection
// ---------------------------------------------------------------------------

/// A tracked file (one line of `git ls-files --full-name`) looks like a secret:
/// a secret pattern matches its base name or its full name.
pub open spec fn secret_file(line: Seq<char>) -> bool {
    let f = trim(line);
    any_glob(secret_patterns(), display_name(f)) || any_glob(secret_patterns(), f)
}

/// `git ls-files` listed a secret-shaped file. No listing (git failed) means no.
pub open spec fn tracked_secret(listing: Option<Seq<char>>) -> bool {
    &&& listing is Some
    &&& exists|i: int|
        0 <= i < lines(listing->0).len() && secret_file(#[trigger] lines(listing->0)[i])
}

/// True if the listing of tracked files holds a file matching a secret pattern.
pub fn has_tracked_secret(listing: &Option<String>) -> (r: bool)
    ensures
        r == tracked_secret(match listing {
            Some(l) => Some(l@),
            None => None,
        }),
{
    let text = match listing {
        Some(l) => l,
        None => {
            return false;
        },
    };
    let pats = secret_patterns_exec();
    let ls = lines_exec(&to_chars(text.as_str()));
    let ghost lv = views(ls@);
    let mut i: usize = 0;
    while i < ls.len()
        invariant
            0 <= i <= ls.len(),
            lv == views(ls@),
            lv == lines(text@),
            pats@.map_values(|x: &str| x@) == secret_patterns(),
            match listing {
                Some(l) => l@ == text@,
                None => false,
            },
            forall|j: int| 0 <= j < i ==> !secret_file(#[trigger] lv[j]),
        decreases ls.len() - i,
    {
        let filename = from_chars(&trim_chars(&ls[i]));
        let basename = display_name_exec(filename.as_str());
        proof {
            assert(lv[i as int] == ls@[i as int]@);
        }
        if any_glob_str(&pats, basename.as_str()) || any_glob_str(&pats, filename.as_str()) {
            proof {
                assert(secret_file(lv[i as int]));
                assert(secret_file(lines(text@)[i as int]));
                assert(lv.len() == ls@.len());
                lemma_secret_line(text@, i as int);
            }
            return true;
        }
        i = i + 1;
    }
    false
}

// ---------------------------------------------------------------------------
// Core classify function
// ---------------------------------------------------------------------------

/// What the program found on disk for a repo: the `.consign-hold` marker, and
/// the output of `git ls-files --full-name` when it succeeded.
pub struct RepoProbe {
    pub hold_marker: bool,
    pub tracked_files: Option<String>,
}

/// The name the hold globs are matched against: the repo directory's name,
/// or the empty string when the path has none.
pub open spec fn hold_name(path: Seq<char>) -> Seq<char> {
    match path_file_name(path) {
        Some(n) => n,
        None => Seq::empty(),
    }
}

/// The repo's path contains one of the configured hold substrings.
pub open spec fn path_held(path: Seq<char>, paths: Seq<Seq<char>>) -> bool {
    exists|i: int| 0 <= i < paths.len() && contains_seq(path, #[trigger] paths[i])
}

/// The reasons a repo is held private.
pub open spec fn held_private(repo: RepoDebt, cfg: PolicyCfg, probe: RepoProbe) -> bool {
    ||| probe.hold_marker
    ||| any_glob(builtin_hold_globs(), hold_name(repo.path@))
    ||| any_glob(string_views(cfg.extra_hold_globs@), hold_name(repo.path@))
    ||| path_held(repo.path@, string_views(cfg.extra_hold_paths@))
    ||| tracked_secret(match probe.tracked_files {
        Some(l) => Some(l@),
        None => None,
    })
}

/// The states that need a human: a non-default branch, a detached HEAD, or divergence.
pub open spec fn needs_manual(repo: RepoDebt) -> bool {
    ||| !repo.branch_is_default
    ||| repo.branch@ == "HEAD"@
    ||| repo.class is Diverged
}

/// The policy class: held private first, then manual review, and auto-ok
/// only for the states that are affirmed safe.
pub open spec fn policy_spec(repo: RepoDebt, cfg: PolicyCfg, probe: RepoProbe) -> PolicyClass {
    if held_private(repo, cfg, probe) {
        PolicyClass::PrivateHold
    } else if needs_manual(repo) {
        PolicyClass::ManualOnly
    } else {
        PolicyClass::AutoOk
    }
}

fn path_held_exec(path: &String, paths: &Vec<String>) -> (r: bool)
    ensures
        r == path_held(path@, string_views(paths@)),
{
    let pv = to_chars(path.as_str());
    let ghost ps = string_views(paths@);
    let mut i: usize = 0;
    while i < paths.len()
        invariant
            0 <= i <= paths.len(),
            ps == string_views(paths@),
            pv@ == path@,
            forall|j: int| 0 <= j < i ==> !contains_seq(path@, #[trigger] ps[j]),
        decreases paths.len() - i,
    {
        proof {
            assert(ps[i as int] == paths@[i as int]@);
        }
        if contains_exec(&pv, &to_chars(paths[i].as_str())) {
            return true;
        }
        i = i + 1;
    }
    false
}

/// Classify a single repo's push-eligibility.
pub fn classify(repo: &RepoDebt, cfg: &PolicyCfg, probe: &RepoProbe) -> (r: PolicyClass)
    ensures
        r == policy_spec(*repo, *cfg, *probe),
{
    // Step 1: private-hold — name / path checks
    let repo_name = file_name_or_empty(repo.path.as_str());
    if probe.hold_marker {
        return PolicyClass::PrivateHold;
    }
    if any_glob_str(&builtin_hold_globs_exec(), repo_name.as_str()) {
        return PolicyClass::PrivateHold;
    }
    if any_glob_string(&cfg.extra_hold_globs, repo_name.as_str()) {
        return PolicyClass::PrivateHold;
    }
    if path_held_exec(&repo.path, &cfg.extra_hold_paths) {
        return PolicyClass::PrivateHold;
    }
    // Step 2: private-hold — secret file detection

    if has_tracked_secret(&probe.tracked_files) {
        return PolicyClass::PrivateHold;
    }
    // Step 3: manual-only — branch / state checks

    if !repo.branch_is_default {
        return PolicyClass::ManualOnly;
    }
    let head = String::from_str("HEAD");
    if repo.branch == head {
        return PolicyClass::ManualOnly;
    }
    if matches!(repo.class, DebtClass::Diverged { .. }) {
        return PolicyClass::ManualOnly;
    }
    // Step 4: auto-ok — only explicitly affirmed states

    PolicyClass::AutoOk
}

/// Default deny: a repo is auto-ok only when nothing holds it private, it is
/// on its default branch (not detached), and it has not diverged.
pub proof fn lemma_auto_ok_is_affirmed(repo: RepoDebt, cfg: PolicyCfg, probe: RepoProbe)
    requires
        policy_spec(repo, cfg, probe) == PolicyClass::AutoOk,
    ensures
        !probe.hold_marker,
        !any_glob(builtin_hold_globs(), hold_name(repo.path@)),
        !any_glob(string_views(cfg.extra_hold_globs@), hold_name(repo.path@)),
        !path_held(repo.path@, string_views(cfg.extra_hold_paths@)),
        !tracked_secret(match probe.tracked_files {
            Some(l) => Some(l@),
            None => None,
        }),
        repo.branch_is_default,
        repo.branch@ != "HEAD"@,
        !(repo.class is Diverged),
{
}

/// The policy verdict in full: private-hold exactly when a hold marker, a
/// built-in or configured hold name, a configured hold path or a tracked
/// secret holds the repo; otherwise manual-only exactly when the repo is off
/// its default branch, detached, or diverged; otherwise auto-ok.
pub proof fn lemma_policy_verdicts(repo: RepoDebt, cfg: PolicyCfg, probe: RepoProbe)
    ensures
        (policy_spec(repo, cfg, probe) == PolicyClass::PrivateHold) == (probe.hold_marker || any_glob(
            builtin_hold_globs(),
            hold_name(repo.path@),
        ) || any_glob(string_views(cfg.extra_hold_globs@), hold_name(repo.path@)) || path_held(
            repo.path@,
            string_views(cfg.extra_hold_paths@),
        ) || tracked_secret(
            match probe.tracked_files {
                Some(l) => Some(l@),
                None => None,
            },
        )),
        policy_spec(repo, cfg, probe) != PolicyClass::PrivateHold ==> ((policy_spec(repo, cfg, probe)
            == PolicyClass::ManualOnly) == (!repo.branch_is_default || repo.branch@ == "HEAD"@
            || repo.class is Diverged)),
        policy_spec(repo, cfg, probe) != PolicyClass::PrivateHold ==> ((policy_spec(repo, cfg, probe)
            == PolicyClass::AutoOk) == (repo.branch_is_default && repo.branch@ != "HEAD"@
            && !(repo.class is Diverged))),
{
}

/// A diverged repo is never auto-ok.
pub proof fn lemma_diverged_never_auto(repo: RepoDebt, cfg: PolicyCfg, probe: RepoProbe)
    requires
        repo.class is Diverged,
    ensures
        policy_spec(repo, cfg, probe) != PolicyClass::AutoOk,
{
}

/// `*` + `q` + `*`, for a star-free `q`, matches exactly the names that hold `q`.
proof fn lemma_glob_contains(q: Seq<char>, s: Seq<char>)
    requires
        star_free(q),
    ensures
        glob(star(q + star(Seq::empty())), s) == contains_seq(s, q),
{
    let e = Seq::<char>::empty();
    if glob(star(q + star(e)), s) {
        let k = lemma_glob_star_witness(q + star(e), s);
        lemma_glob_literal_prefix(q, star(e), s.skip(k));
        assert(s.subrange(k, k + q.len()) =~= s.skip(k).subrange(0, q.len() as int));
        assert(occurs_at(s, q, k));
    }
    if contains_seq(s, q) {
        let i = choose|i: int| occurs_at(s, q, i);
        let t = s.skip(i);
        assert(t.subrange(0, q.len() as int) =~= s.subrange(i, i + q.len()));
        lemma_glob_star_suffix(e, t.skip(q.len() as int));
        assert(e.is_suffix_of(t.skip(q.len() as int)));
        lemma_glob_literal_prefix(q, star(e), t);
        lemma_glob_star_intro(q + star(e), s, i);
    }
}

/// `q` + `*`, for a star-free `q`, matches exactly the names that start with `q`.
proof fn lemma_glob_prefix(q: Seq<char>, s: Seq<char>)
    requires
        star_free(q),
    ensures
        glob(q + star(Seq::empty()), s) == q.is_prefix_of(s),
{
    let e = Seq::<char>::empty();
    lemma_glob_literal_prefix(q, star(e), s);
    if q.is_prefix_of(s) {
        lemma_glob_star_suffix(e, s.skip(q.len() as int));
        assert(e.is_suffix_of(s.skip(q.len() as int)));
    }
}

/// A file name that a secret pattern catches: `.env`, a name that ends with
/// `.pem` or starts with `id_`, or one that holds `credential` or `secret`.
pub open spec fn secret_shaped(name: Seq<char>) -> bool {
    ||| name == ".env"@
    ||| ".pem"@.is_suffix_of(name)
    ||| "id_"@.is_prefix_of(name)
    ||| contains_seq(name, "credential"@)
    ||| contains_seq(name, "secret"@)
}

/// The secret patterns catch exactly the secret-shaped names.
pub proof fn lemma_secret_patterns_shapes(name: Seq<char>)
    ensures
        any_glob(secret_patterns(), name) == secret_shaped(name),
{
    let e = Seq::<char>::empty();
    reveal_strlit(".env");
    reveal_strlit("*.pem");
    reveal_strlit("id_*");
    reveal_strlit("*credential*");
    reveal_strlit("*credentials*");
    reveal_strlit("*secret*");
    reveal_strlit(".pem");
    reveal_strlit("id_");
    reveal_strlit("credential");
    reveal_strlit("credentials");
    reveal_strlit("secret");
    let ps = secret_patterns();
    assert(star_free(".env"@));
    assert(star_free(".pem"@));
    assert(star_free("id_"@));
    assert(star_free("credential"@));
    assert(star_free("credentials"@));
    assert(star_free("secret"@));
    assert(ps[1] =~= star(".pem"@));
    assert(ps[2] =~= "id_"@ + star(e));
    assert(ps[3] =~= star("credential"@ + star(e)));
    assert(ps[4] =~= star("credentials"@ + star(e)));
    assert(ps[5] =~= star("secret"@ + star(e)));
    lemma_glob_literal(".env"@, name);
    lemma_glob_star_suffix(".pem"@, name);
    lemma_glob_prefix("id_"@, name);
    lemma_glob_contains("credential"@, name);
    lemma_glob_contains("credentials"@, name);
    lemma_glob_contains("secret"@, name);
    if glob(ps[4], name) {
        let i = choose|i: int| occurs_at(name, "credentials"@, i);
        assert(name.subrange(i, i + 10) =~= name.subrange(i, i + 11).subrange(0, 10));
        assert("credentials"@.subrange(0, 10) =~= "credential"@);
        assert(occurs_at(name, "credential"@, i));
    }
    if secret_shaped(name) {
        if name == ".env"@ {
            assert(glob(ps[0], name));
        } else if ".pem"@.is_suffix_of(name) {
            assert(glob(ps[1], name));
        } else if "id_"@.is_prefix_of(name) {
            assert(glob(ps[2], name));
        } else if contains_seq(name, "credential"@) {
            assert(glob(ps[3], name));
        } else {
            assert(glob(ps[5], name));
        }
    }
}

/// A repo whose tracked files include one with a secret-shaped base name is
/// held private, whatever its class and branch.
pub proof fn lemma_secret_file_holds(repo: RepoDebt, cfg: PolicyCfg, probe: RepoProbe, k: int)
    requires
        probe.tracked_files is Some,
        0 <= k < lines(probe.tracked_files->0@).len(),
        secret_shaped(display_name(trim(lines(probe.tracked_files->0@)[k]))),
    ensures
        policy_spec(repo, cfg, probe) == PolicyClass::PrivateHold,
{
    let l = probe.tracked_files->0@;
    lemma_secret_patterns_shapes(display_name(trim(lines(l)[k])));
    assert(secret_file(lines(l)[k]));
    lemma_secret_line(l, k);
    assert(match probe.tracked_files {
        Some(x) => Some(x@),
        None => None,
    } == Some(l));
}

/// A tracked file whose trimmed full name (as `git ls-files --full-name`
/// lists it) a secret pattern matches, or that is secret-shaped, makes the
/// listing hold a secret and the repo private-hold, whatever its base name,
/// branch or class.
pub proof fn lemma_secret_full_name_holds(repo: RepoDebt, cfg: PolicyCfg, probe: RepoProbe, k: int)
    requires
        probe.tracked_files is Some,
        0 <= k < lines(probe.tracked_files->0@).len(),
        any_glob(secret_patterns(), trim(lines(probe.tracked_files->0@)[k])) || secret_shaped(
            trim(lines(probe.tracked_files->0@)[k]),
        ),
    ensures
        tracked_secret(Some(probe.tracked_files->0@)),
        policy_spec(repo, cfg, probe) == PolicyClass::PrivateHold,
{
    let l = probe.tracked_files->0@;
    lemma_secret_patterns_shapes(trim(lines(l)[k]));
    assert(secret_file(lines(l)[k]));
    lemma_secret_line(l, k);
    assert(match probe.tracked_files {
        Some(x) => Some(x@),
        None => None,
    } == Some(l));
}

/// A `.consign-hold` marker always makes the repo private-hold, whatever its
/// branch, class or files.
pub proof fn lemma_hold_marker_holds(repo: RepoDebt, cfg: PolicyCfg, probe: RepoProbe)
    requires
        probe.hold_marker,
    ensures
        policy_spec(repo, cfg, probe) == PolicyClass::PrivateHold,
{
}

/// The built-in hold globs catch exactly the names that end with `-private`
/// or start with `autobuilder`.
pub proof fn lemma_builtin_hold_names(n: Seq<char>)
    ensures
        any_glob(builtin_hold_globs(), n) == ("-private"@.is_suffix_of(n) || "autobuilder"@.is_prefix_of(n)),
{
    let e = Seq::<char>::empty();
    reveal_strlit("*-private");
    reveal_strlit("autobuilder*");
    reveal_strlit("-private");
    reveal_strlit("autobuilder");
    let gs = builtin_hold_globs();
    assert(star_free("-private"@));
    assert(star_free("autobuilder"@));
    assert(gs[0] =~= star("-private"@));
    assert(gs[1] =~= "autobuilder"@ + star(e));
    lemma_glob_star_suffix("-private"@, n);
    lemma_glob_prefix("autobuilder"@, n);
    if "-private"@.is_suffix_of(n) {
        assert(glob(gs[0], n));
    } else if "autobuilder"@.is_prefix_of(n) {
        assert(glob(gs[1], n));
    }
}

/// A repo directory whose name ends with `-private` or starts with
/// `autobuilder` is private-hold, whatever its branch, class or files.
pub proof fn lemma_private_names_hold(repo: RepoDebt, cfg: PolicyCfg, probe: RepoProbe)
    requires
        "-private"@.is_suffix_of(hold_name(repo.path@)) || "autobuilder"@.is_prefix_of(
            hold_name(repo.path@),
        ),
    ensures
        policy_spec(repo, cfg, probe) == PolicyClass::PrivateHold,
{
    let n = hold_name(repo.path@);
    let e = Seq::<char>::empty();
    reveal_strlit("*-private");
    reveal_strlit("autobuilder*");
    reveal_strlit("-private");
    reveal_strlit("autobuilder");
    let gs = builtin_hold_globs();
    assert(star_free("-private"@));
    assert(star_free("autobuilder"@));
    assert(gs[0] =~= star("-private"@));
    assert(gs[1] =~= "autobuilder"@ + star(e));
    lemma_glob_star_suffix("-private"@, n);
    lemma_glob_prefix("autobuilder"@, n);
    if "-private"@.is_suffix_of(n) {
        assert(glob(gs[0], n));
    } else {
        assert(glob(gs[1], n));
    }
}

/// One secret-shaped line is enough for the listing to hold a secret.
proof fn lemma_secret_line(s: Seq<char>, k: int)
    requires
        0 <= k < lines(s).len(),
        secret_file(lines(s)[k]),
    ensures
        tracked_secret(Some(s)),
{
    assert(Some(s)->0 == s);
}


// ---------------------------------------------------------------------------
// PolicyEntry — a surveyed repo with its verdict
// ---------------------------------------------------------------------------

/// A `RepoDebt` augmented with a `PolicyClass`.
#[derive(Debug, Clone)]
pub struct PolicyEntry {
    pub debt: RepoDebt,
    /// The policy verdict for this repo.
    pub policy: PolicyClass,
}

/// Attach a policy verdict to each surveyed repo, in survey order.
pub fn survey_with_policy(surveyed: &[(RepoDebt, RepoProbe)], cfg: &PolicyCfg) -> (r: Vec<PolicyEntry>)
    ensures
        r@.len() == surveyed@.len(),
        forall|i: int|
            0 <= i < r@.len() ==> (#[trigger] r@[i]).debt == surveyed@[i].0 && r@[i].policy
                == policy_spec(surveyed@[i].0, *cfg, surveyed@[i].1),
{
    let mut r: Vec<PolicyEntry> = Vec::new();
    let mut i: usize = 0;
    while i < surveyed.len()
        invariant
            0 <= i <= surveyed.len(),
            r@.len() == i,
            forall|j: int|
                0 <= j < i ==> (#[trigger] r@[j]).debt == surveyed@[j].0 && r@[j].policy
                    == policy_spec(surveyed@[j].0, *cfg, surveyed@[j].1),
        decreases surveyed.len() - i,
    {
        let (debt, probe) = &surveyed[i];
        let policy = classify(debt, cfg, probe);
        r.push(PolicyEntry { debt: clone_debt(debt), policy });
        i = i + 1;
    }
    r
}

// ---------------------------------------------------------------------------
// Text rendering
// ---------------------------------------------------------------------------

/// Width of a column: the longest cell in bytes, at least `floor`.
pub open spec fn entry_width(es: Seq<PolicyEntry>, cell: spec_fn(PolicyEntry) -> Seq<char>, floor: usize) -> usize {
    max_width(es.map_values(|e: PolicyEntry| byte_len(cell(e))), floor)
}

pub open spec fn entry_path(e: PolicyEntry) -> Seq<char> {
    e.debt.path@
}

pub open spec fn entry_branch(e: PolicyEntry) -> Seq<char> {
    e.debt.branch@
}

pub open spec fn entry_class(e: PolicyEntry) -> Seq<char> {
    e.debt.class.name_spec()
}

/// The widths of the path, branch, class and policy columns.
pub open spec fn policy_widths(es: Seq<PolicyEntry>) -> (usize, usize, usize, usize) {
    (
        entry_width(es, |e: PolicyEntry| entry_path(e), 4),
        entry_width(es, |e: PolicyEntry| entry_branch(e), 6),
        entry_width(es, |e: PolicyEntry| entry_class(e), 5),
        byte_len("manual-only"@),
    )
}

pub open spec fn policy_separator(w: (usize, usize, usize, usize)) -> Seq<char> {
    repeat('-', w.0 as nat) + "  "@ + repeat('-', w.1 as nat) + "  "@ + repeat('-', w.2 as nat) + "  "@
        + repeat('-', w.3 as nat)
}

pub open spec fn policy_row(e: PolicyEntry, w: (usize, usize, usize, usize)) -> Seq<char> {
    pad(entry_path(e), w.0 as nat) + "  "@ + pad(entry_branch(e), w.1 as nat) + "  "@ + pad(
        entry_class(e),
        w.2 as nat,
    ) + "  "@ + pad(e.policy.as_str_spec(), w.3 as nat) + "\n"@
}

pub open spec fn policy_rows(es: Seq<PolicyEntry>, w: (usize, usize, usize, usize)) -> Seq<char>
    decreases es.len(),
{
    if es.len() == 0 {
        Seq::empty()
    } else {
        policy_rows(es.drop_last(), w) + policy_row(es.last(), w)
    }
}

/// The number of entries with verdict `p`.
pub open spec fn count_policy(es: Seq<PolicyEntry>, p: PolicyClass) -> nat
    decreases es.len(),
{
    if es.len() == 0 {
        0
    } else {
        count_policy(es.drop_last(), p) + if es.last().policy == p {
            1nat
        } else {
            0nat
        }
    }
}

/// The policy table: a header, one aligned row per repo, and a totals footer.
pub open spec fn policy_table_spec(es: Seq<PolicyEntry>) -> Seq<char> {
    let w = policy_widths(es);
    pad("PATH"@, w.0 as nat) + "  "@ + pad("BRANCH"@, w.1 as nat) + "  "@ + pad("CLASS"@, w.2 as nat)
        + "  "@ + pad("POLICY"@, w.3 as nat) + "\n"@ + policy_separator(w) + "\n"@ + policy_rows(es, w)
        + policy_separator(w) + "\n"@ + dec(es.len()) + " repos: "@ + dec(
        count_policy(es, PolicyClass::AutoOk),
    ) + " auto-ok, "@ + dec(count_policy(es, PolicyClass::PrivateHold)) + " private-hold, "@ + dec(
        count_policy(es, PolicyClass::ManualOnly),
    ) + " manual-only"@ + "\n"@
}

/// The footer's per-verdict counts add up to the number of repos.
pub proof fn lemma_policy_counts_sum(es: Seq<PolicyEntry>)
    ensures
        count_policy(es, PolicyClass::AutoOk) + count_policy(es, PolicyClass::PrivateHold)
            + count_policy(es, PolicyClass::ManualOnly) == es.len(),
    decreases es.len(),
{
    if es.len() > 0 {
        lemma_policy_counts_sum(es.drop_last());
    }
}

/// The first two lines of the policy table: the column titles and a separator.
pub open spec fn policy_header(w: (usize, usize, usize, usize)) -> Seq<char> {
    pad("PATH"@, w.0 as nat) + "  "@ + pad("BRANCH"@, w.1 as nat) + "  "@ + pad("CLASS"@, w.2 as nat)
        + "  "@ + pad("POLICY"@, w.3 as nat) + "\n"@ + policy_separator(w) + "\n"@
}

/// The last line of the policy table: the number of repos, then of each verdict.
pub open spec fn policy_footer(es: Seq<PolicyEntry>) -> Seq<char> {
    dec(es.len()) + " repos: "@ + dec(count_policy(es, PolicyClass::AutoOk)) + " auto-ok, "@ + dec(
        count_policy(es, PolicyClass::PrivateHold),
    ) + " private-hold, "@ + dec(count_policy(es, PolicyClass::ManualOnly)) + " manual-only"@ + "\n"@
}

proof fn lemma_policy_rows_lines(es: Seq<PolicyEntry>, w: (usize, usize, usize, usize))
    ensures
        policy_rows(es, w) == lines_of(es, |e: PolicyEntry| policy_row(e, w)),
    decreases es.len(),
{
    if es.len() > 0 {
        lemma_policy_rows_lines(es.drop_last(), w);
    }
}

/// The policy table is its header, one row per entry in order (the row of
/// entry `i`, with its path, branch, class name and verdict, after the rows of
/// the entries before it and before those of the entries after it), a
/// separator, and a last line that gives the number of repos and of each
/// verdict; the per-verdict counts add up to the number of repos.
pub proof fn lemma_policy_table_layout(es: Seq<PolicyEntry>, i: int)
    ensures
        policy_table_spec(es) == policy_header(policy_widths(es)) + policy_rows(es, policy_widths(es))
            + policy_separator(policy_widths(es)) + "\n"@ + policy_footer(es),
        0 <= i < es.len() ==> policy_rows(es, policy_widths(es)) == policy_rows(
            es.take(i),
            policy_widths(es),
        ) + policy_row(es[i], policy_widths(es)) + policy_rows(es.skip(i + 1), policy_widths(es)),
        count_policy(es, PolicyClass::AutoOk) + count_policy(es, PolicyClass::PrivateHold)
            + count_policy(es, PolicyClass::ManualOnly) == es.len(),
{
    let w = policy_widths(es);
    assert(policy_table_spec(es) =~= policy_header(w) + policy_rows(es, w) + policy_separator(w)
        + "\n"@ + policy_footer(es));
    lemma_policy_counts_sum(es);
    if 0 <= i < es.len() {
        let f = |e: PolicyEntry| policy_row(e, w);
        lemma_policy_rows_lines(es, w);
        lemma_policy_rows_lines(es.take(i), w);
        lemma_policy_rows_lines(es.skip(i + 1), w);
        lemma_lines_of_split(es, f, i);
    }
}

/// The number of entries with verdict `p`, counted by filtering.
pub open spec fn entries_with(es: Seq<PolicyEntry>, p: PolicyClass) -> nat {
    es.filter(|e: PolicyEntry| e.policy == p).len()
}

proof fn lemma_count_policy_filter(es: Seq<PolicyEntry>, p: PolicyClass)
    ensures
        count_policy(es, p) == entries_with(es, p),
    decreases es.len(),
{
    reveal(Seq::filter);
    if es.len() > 0 {
        lemma_count_policy_filter(es.drop_last(), p);
    }
}

/// The policy table ends with a line that gives the number of repos, then how
/// many are auto-ok, private-hold and manual-only, in that order, each count
/// being the number of entries with that verdict.
pub proof fn lemma_policy_footer_counts(es: Seq<PolicyEntry>)
    ensures
        (dec(es.len()) + " repos: "@ + dec(entries_with(es, PolicyClass::AutoOk)) + " auto-ok, "@ + dec(
            entries_with(es, PolicyClass::PrivateHold),
        ) + " private-hold, "@ + dec(entries_with(es, PolicyClass::ManualOnly)) + " manual-only"@
            + "\n"@).is_suffix_of(policy_table_spec(es)),
{
    let w = policy_widths(es);
    lemma_count_policy_filter(es, PolicyClass::AutoOk);
    lemma_count_policy_filter(es, PolicyClass::PrivateHold);
    lemma_count_policy_filter(es, PolicyClass::ManualOnly);
    lemma_policy_table_layout(es, 0);
    let pre = policy_header(w) + policy_rows(es, w) + policy_separator(w) + "\n"@;
    let f = policy_footer(es);
    assert(policy_table_spec(es) =~= pre + f);
    assert((pre + f).subrange(pre.len() as int, (pre + f).len() as int) =~= f);
}

proof fn lemma_policy_row_newlines(e: PolicyEntry, w: (usize, usize, usize, usize))
    requires
        no_newline(e.debt.path@),
        no_newline(e.debt.branch@),
    ensures
        newlines(policy_row(e, w)) == 1,
{
    broadcast use group_newlines;

    reveal_strlit("  ");
    reveal_strlit("auto-ok");
    reveal_strlit("private-hold");
    reveal_strlit("manual-only");
    lemma_newlines_none("  "@);
    lemma_newlines_none(e.debt.path@);
    lemma_newlines_none(e.debt.branch@);
    lemma_newlines_none(e.policy.as_str_spec());
    lemma_class_name_newlines(e.debt.class);
    lemma_newline_lit();
}

proof fn lemma_policy_rows_newlines(es: Seq<PolicyEntry>, w: (usize, usize, usize, usize))
    requires
        forall|i: int|
            0 <= i < es.len() ==> no_newline(#[trigger] es[i].debt.path@) && no_newline(es[i].debt.branch@),
    ensures
        newlines(policy_rows(es, w)) == es.len(),
    decreases es.len(),
{
    if es.len() > 0 {
        lemma_policy_rows_newlines(es.drop_last(), w);
        assert(es.last() == es[es.len() - 1]);
        assert(no_newline(es[es.len() - 1].debt.path@) && no_newline(es[es.len() - 1].debt.branch@));
        lemma_policy_row_newlines(es.last(), w);
        lemma_newlines_add(policy_rows(es.drop_last(), w), policy_row(es.last(), w));
    }
}

proof fn lemma_policy_header_newlines(w: (usize, usize, usize, usize))
    ensures
        newlines(policy_header(w)) == 2,
        newlines(policy_separator(w) + "\n"@) == 1,
{
    broadcast use group_newlines;

    reveal_strlit("PATH");
    reveal_strlit("BRANCH");
    reveal_strlit("CLASS");
    reveal_strlit("POLICY");
    reveal_strlit("  ");
    lemma_newlines_none("PATH"@);
    lemma_newlines_none("BRANCH"@);
    lemma_newlines_none("CLASS"@);
    lemma_newlines_none("POLICY"@);
    lemma_newlines_none("  "@);
    lemma_newline_lit();
    assert(newlines(policy_separator(w)) == 0);
}

proof fn lemma_policy_footer_newlines(es: Seq<PolicyEntry>)
    ensures
        newlines(policy_footer(es)) == 1,
        policy_footer(es).last() == '\n',
{
    broadcast use group_newlines;

    reveal_strlit(" repos: ");
    reveal_strlit(" auto-ok, ");
    reveal_strlit(" private-hold, ");
    reveal_strlit(" manual-only");
    reveal_strlit("\n");
    lemma_newlines_none(" repos: "@);
    lemma_newlines_none(" auto-ok, "@);
    lemma_newlines_none(" private-hold, "@);
    lemma_newlines_none(" manual-only"@);
    lemma_newline_lit();
}

/// The policy table has one line per entry and four more (the column titles,
/// two separators and the footer), each ending with a newline, when no path
/// or branch holds a newline of its own.
#[verifier::spinoff_prover]
pub proof fn lemma_policy_table_lines(es: Seq<PolicyEntry>)
    requires
        forall|i: int|
            0 <= i < es.len() ==> no_newline(#[trigger] es[i].debt.path@) && no_newline(es[i].debt.branch@),
    ensures
        newlines(policy_table_spec(es)) == es.len() + 4,
        policy_table_spec(es).last() == '\n',
{
    let w = policy_widths(es);
    let h = policy_header(w);
    let r = policy_rows(es, w);
    let sep = policy_separator(w) + "\n"@;
    let f = policy_footer(es);
    lemma_policy_rows_newlines(es, w);
    lemma_policy_table_layout(es, 0);
    assert(policy_table_spec(es) =~= h + r + sep + f);
    lemma_policy_header_newlines(w);
    lemma_policy_footer_newlines(es);
    lemma_newlines_add(h, r);
    lemma_newlines_add(h + r, sep);
    lemma_newlines_add(h + r + sep, f);
}

fn push_policy_separator(out: &mut String, w: (usize, usize, usize, usize))
    ensures
        final(out)@ == old(out)@ + policy_separator(w) + "\n"@,
{
    push_repeat(out, '-', w.0);
    push_str(out, "  ");
    push_repeat(out, '-', w.1);
    push_str(out, "  ");
    push_repeat(out, '-', w.2);
    push_str(out, "  ");
    push_repeat(out, '-', w.3);
    push_str(out, "\n");
    proof {
        assert(out@ =~= old(out)@ + policy_separator(w) + "\n"@);
    }
}

/// Render a `&[PolicyEntry]` as a human-readable table.
pub fn render_policy_table(entries: &[PolicyEntry]) -> (out: String)
    ensures
        out@ == policy_table_spec(entries@),
{
    let ghost es = entries@;
    let ghost lp = es.map_values(|e: PolicyEntry| byte_len((|e: PolicyEntry| entry_path(e))(e)));
    let ghost lb = es.map_values(|e: PolicyEntry| byte_len((|e: PolicyEntry| entry_branch(e))(e)));
    let ghost lc = es.map_values(|e: PolicyEntry| byte_len((|e: PolicyEntry| entry_class(e))(e)));
    let mut pw: usize = 4;
    let mut bw: usize = 6;
    let mut cw: usize = 5;
    let mut n_ok: usize = 0;
    let mut n_hold: usize = 0;
    let mut n_manual: usize = 0;
    let mut i: usize = 0;
    proof {
        assert(lp.take(0) =~= Seq::<usize>::empty());
        assert(lb.take(0) =~= Seq::<usize>::empty());
        assert(lc.take(0) =~= Seq::<usize>::empty());
        assert(es.take(0) =~= Seq::<PolicyEntry>::empty());
    }
    while i < entries.len()
        invariant
            0 <= i <= entries.len(),
            es == entries@,
            lp == es.map_values(|e: PolicyEntry| byte_len((|e: PolicyEntry| entry_path(e))(e))),
            lb == es.map_values(|e: PolicyEntry| byte_len((|e: PolicyEntry| entry_branch(e))(e))),
            lc == es.map_values(|e: PolicyEntry| byte_len((|e: PolicyEntry| entry_class(e))(e))),
            pw == max_width(lp.take(i as int), 4),
            bw == max_width(lb.take(i as int), 6),
            cw == max_width(lc.take(i as int), 5),
            n_ok == count_policy(es.take(i as int), PolicyClass::AutoOk),
            n_hold == count_policy(es.take(i as int), PolicyClass::PrivateHold),
            n_manual == count_policy(es.take(i as int), PolicyClass::ManualOnly),
            n_ok + n_hold + n_manual == i,
        decreases entries.len() - i,
    {
        let e = &entries[i];
        let l1 = byte_len_exec(e.debt.path.as_str());
        let l2 = byte_len_exec(e.debt.branch.as_str());
        let l3 = byte_len_exec(e.debt.class.name());
        proof {
            lemma_max_width_step(lp, 4, i as int);
            lemma_max_width_step(lb, 6, i as int);
            lemma_max_width_step(lc, 5, i as int);
            assert(es.take(i + 1).drop_last() =~= es.take(i as int));
            lemma_policy_counts_sum(es.take(i as int));
        }
        if l1 > pw {
            pw = l1;
        }
        if l2 > bw {
            bw = l2;
        }
        if l3 > cw {
            cw = l3;
        }
        match e.policy {
            PolicyClass::AutoOk => n_ok = n_ok + 1,
            PolicyClass::PrivateHold => n_hold = n_hold + 1,
            PolicyClass::ManualOnly => n_manual = n_manual + 1,
        }
        i = i + 1;
    }
    proof {
        assert(lp.take(es.len() as int) =~= lp);
        assert(lb.take(es.len() as int) =~= lb);
        assert(lc.take(es.len() as int) =~= lc);
        assert(es.take(es.len() as int) =~= es);
    }
    let vw = byte_len_exec("manual-only");
    let w = (pw, bw, cw, vw);
    proof {
        assert(w == policy_widths(es));
    }
    let mut out = String::new();
    push_padded(&mut out, "PATH", pw);
    push_str(&mut out, "  ");
    push_padded(&mut out, "BRANCH", bw);
    push_str(&mut out, "  ");
    push_padded(&mut out, "CLASS", cw);
    push_str(&mut out, "  ");
    push_padded(&mut out, "POLICY", vw);
    push_str(&mut out, "\n");
    push_policy_separator(&mut out, w);
    let ghost head = out@;
    let mut k: usize = 0;
    proof {
        assert(out@ =~= head + policy_rows(es.take(0), w));
    }
    while k < entries.len()
        invariant
            0 <= k <= entries.len(),
            es == entries@,
            out@ == head + policy_rows(es.take(k as int), w),
        decreases entries.len() - k,
    {
        let e = &entries[k];
        let ghost before = out@;
        push_padded(&mut out, e.debt.path.as_str(), w.0);
        push_str(&mut out, "  ");
        push_padded(&mut out, e.debt.branch.as_str(), w.1);
        push_str(&mut out, "  ");
        push_padded(&mut out, e.debt.class.name(), w.2);
        push_str(&mut out, "  ");
        push_padded(&mut out, e.policy.as_str(), w.3);
        push_str(&mut out, "\n");
        proof {
            assert(out@ =~= before + policy_row(es[k as int], w));
            assert(es.take(k + 1).drop_last() =~= es.take(k as int));
            assert(out@ =~= head + policy_rows(es.take(k + 1), w));
        }
        k = k + 1;
    }
    proof {
        assert(es.take(entries.len() as int) =~= es);
    }
    push_policy_separator(&mut out, w);
    push_dec(&mut out, entries.len() as u64);
    push_str(&mut out, " repos: ");
    push_dec(&mut out, n_ok as u64);
    push_str(&mut out, " auto-ok, ");
    push_dec(&mut out, n_hold as u64);
    push_str(&mut out, " private-hold, ");
    push_dec(&mut out, n_manual as u64);
    push_str(&mut out, " manual-only");
    push_str(&mut out, "\n");
    proof {
        assert(out@ =~= policy_table_spec(es));
    }
    out
}

} // verus!
