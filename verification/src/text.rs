//! Character-level text utilities shared by the classifiers and renderers.
//!
//! Every helper works on `Seq<char>` models: a `&str` or `String` is taken
//! through its view, and the exec functions here are proved against spec
//! functions that say what `str::trim`, `str::lines`, `str::split`,
//! `str::starts_with` and friends compute.

use vstd::prelude::*;

verus! {

// ---------------------------------------------------------------------------
// Conversions between strings and character vectors
// ---------------------------------------------------------------------------

/// Trusted: calls `String::push`. The contract claims what its documentation
/// says, that the string afterwards holds its old characters followed by `c`.
#[verifier::external_body]
pub(crate) fn push_char(s: &mut String, c: char)
    ensures
        final(s)@ == old(s)@.push(c),
{
    s.push(c);
}

/// The characters of `s`, in order.
pub fn to_chars(s: &str) -> (v: Vec<char>)
    ensures
        v@ == s@,
{
    let mut v: Vec<char> = Vec::new();
    for c in it: s.chars()
        invariant
            v@ == it.seq().take(it.index() as int),
            it.seq() == s@,
    {
        v.push(c);
    }
    v
}

/// Appends every character of `v` to `out`.
pub fn push_chars(out: &mut String, v: &Vec<char>)
    ensures
        final(out)@ == old(out)@ + v@,
{
    let mut i: usize = 0;
    while i < v.len()
        invariant
            0 <= i <= v.len(),
            out@ == old(out)@ + v@.take(i as int),
        decreases v.len() - i,
    {
        push_char(out, v[i]);
        proof {
            assert(v@.take(i + 1) =~= v@.take(i as int).push(v@[i as int]));
        }
        i = i + 1;
    }
    proof {
        assert(v@.take(v.len() as int) =~= v@);
    }
}

/// The string whose characters are `v`.
pub fn from_chars(v: &Vec<char>) -> (s: String)
    ensures
        s@ == v@,
{
    let mut s = String::new();
    push_chars(&mut s, v);
    proof {
        assert(s@ =~= v@);
    }
    s
}

/// Appends a string slice to `out`.
pub fn push_str(out: &mut String, s: &str)
    ensures
        final(out)@ == old(out)@ + s@,
{
    out.append(s);
}

/// True when the two character sequences are equal.
pub fn chars_eq(a: &Vec<char>, b: &Vec<char>) -> (r: bool)
    ensures
        r == (a@ == b@),
{
    if a.len() != b.len() {
        return false;
    }
    let mut i: usize = 0;
    while i < a.len()
        invariant
            a.len() == b.len(),
            0 <= i <= a.len(),
            forall|j: int| 0 <= j < i ==> a@[j] == b@[j],
        decreases a.len() - i,
    {
        if a[i] != b[i] {
            return false;
        }
        i = i + 1;
    }
    proof {
        assert(a@ =~= b@);
    }
    true
}

// ---------------------------------------------------------------------------
// Whitespace and trimming
// ---------------------------------------------------------------------------

/// Unicode `White_Space`, the set that `char::is_whitespace` accepts.
pub open spec fn is_whitespace(c: char) -> bool {
    ||| ('\u{9}' <= c && c <= '\u{d}')
    ||| c == ' '
    ||| c == '\u{85}'
    ||| c == '\u{a0}'
    ||| c == '\u{1680}'
    ||| ('\u{2000}' <= c && c <= '\u{200a}')
    ||| c == '\u{2028}'
    ||| c == '\u{2029}'
    ||| c == '\u{202f}'
    ||| c == '\u{205f}'
    ||| c == '\u{3000}'
}

pub fn is_whitespace_exec(c: char) -> (r: bool)
    ensures
        r == is_whitespace(c),
{
    ('\u{9}' <= c && c <= '\u{d}') || c == ' ' || c == '\u{85}' || c == '\u{a0}' || c
        == '\u{1680}' || ('\u{2000}' <= c && c <= '\u{200a}') || c == '\u{2028}' || c
        == '\u{2029}' || c == '\u{202f}' || c == '\u{205f}' || c == '\u{3000}'
}

/// `s` without its leading whitespace.
pub open spec fn trim_start(s: Seq<char>) -> Seq<char>
    decreases s.len(),
{
    if s.len() > 0 && is_whitespace(s[0]) {
        trim_start(s.drop_first())
    } else {
        s
    }
}

/// `s` without its trailing whitespace.
pub open spec fn trim_end(s: Seq<char>) -> Seq<char>
    decreases s.len(),
{
    if s.len() > 0 && is_whitespace(s.last()) {
        trim_end(s.drop_last())
    } else {
        s
    }
}

/// What `str::trim` returns: `s` without leading and trailing whitespace.
pub open spec fn trim(s: Seq<char>) -> Seq<char> {
    trim_end(trim_start(s))
}

/// `s` without its leading copies of `c`.
pub open spec fn strip_start_char(s: Seq<char>, c: char) -> Seq<char>
    decreases s.len(),
{
    if s.len() > 0 && s[0] == c {
        strip_start_char(s.drop_first(), c)
    } else {
        s
    }
}

/// `s` without its trailing copies of `c`.
pub open spec fn strip_end_char(s: Seq<char>, c: char) -> Seq<char>
    decreases s.len(),
{
    if s.len() > 0 && s.last() == c {
        strip_end_char(s.drop_last(), c)
    } else {
        s
    }
}

/// What `str::trim_matches(c)` returns for a single character `c`.
pub open spec fn strip_char(s: Seq<char>, c: char) -> Seq<char> {
    strip_end_char(strip_start_char(s, c), c)
}

proof fn lemma_skip_step<A>(s: Seq<A>, i: int)
    requires
        0 <= i < s.len(),
    ensures
        s.skip(i).drop_first() =~= s.skip(i + 1),
        s.skip(i).len() > 0,
        s.skip(i)[0] == s[i],
{
}

proof fn lemma_take_step<A>(s: Seq<A>, j: int)
    requires
        0 < j <= s.len(),
    ensures
        s.take(j).drop_last() =~= s.take(j - 1),
        s.take(j).len() > 0,
        s.take(j).last() == s[j - 1],
{
}

/// The characters of `v` with leading and trailing whitespace removed.
pub fn trim_chars(v: &Vec<char>) -> (r: Vec<char>)
    ensures
        r@ == trim(v@),
{
    let mut i: usize = 0;
    proof {
        assert(v@.skip(0) =~= v@);
    }
    while i < v.len() && is_whitespace_exec(v[i])
        invariant
            0 <= i <= v.len(),
            trim_start(v@) == trim_start(v@.skip(i as int)),
        decreases v.len() - i,
    {
        proof {
            lemma_skip_step(v@, i as int);
        }
        i = i + 1;
    }
    proof {
        if i < v.len() {
            lemma_skip_step(v@, i as int);
        } else {
            assert(v@.skip(i as int).len() == 0);
        }
    }
    let ghost t = v@.skip(i as int);
    let mut j: usize = v.len();
    proof {
        assert(t.take(t.len() as int) =~= t);
    }
    while j > i && is_whitespace_exec(v[j - 1])
        invariant
            i <= j <= v.len(),
            t == v@.skip(i as int),
            trim_end(t) == trim_end(t.take(j - i)),
        decreases j,
    {
        proof {
            lemma_take_step(t, j - i);
        }
        j = j - 1;
    }
    proof {
        if j > i {
            lemma_take_step(t, j - i);
        }
        assert(t.take(j - i) =~= v@.subrange(i as int, j as int));
    }
    let r = slice_chars(v, i, j);
    proof {
        assert(trim_start(v@) == t);
    }
    r
}

/// The characters `v[from..to]`.
pub fn slice_chars(v: &Vec<char>, from: usize, to: usize) -> (r: Vec<char>)
    requires
        from <= to <= v.len(),
    ensures
        r@ == v@.subrange(from as int, to as int),
{
    let mut r: Vec<char> = Vec::new();
    let mut k: usize = from;
    while k < to
        invariant
            from <= k <= to <= v.len(),
            r@ == v@.subrange(from as int, k as int),
        decreases to - k,
    {
        r.push(v[k]);
        proof {
            assert(v@.subrange(from as int, k + 1) =~= v@.subrange(from as int, k as int).push(
                v@[k as int],
            ));
        }
        k = k + 1;
    }
    r
}

/// `v` without the leading and trailing copies of `c`.
pub fn strip_char_exec(v: &Vec<char>, c: char) -> (r: Vec<char>)
    ensures
        r@ == strip_char(v@, c),
{
    let mut i: usize = 0;
    proof {
        assert(v@.skip(0) =~= v@);
    }
    while i < v.len() && v[i] == c
        invariant
            0 <= i <= v.len(),
            strip_start_char(v@, c) == strip_start_char(v@.skip(i as int), c),
        decreases v.len() - i,
    {
        proof {
            lemma_skip_step(v@, i as int);
        }
        i = i + 1;
    }
    proof {
        if i < v.len() {
            lemma_skip_step(v@, i as int);
        } else {
            assert(v@.skip(i as int).len() == 0);
        }
    }
    let ghost t = v@.skip(i as int);
    let mut j: usize = v.len();
    proof {
        assert(t.take(t.len() as int) =~= t);
    }
    while j > i && v[j - 1] == c
        invariant
            i <= j <= v.len(),
            t == v@.skip(i as int),
            strip_end_char(t, c) == strip_end_char(t.take(j - i), c),
        decreases j,
    {
        proof {
            lemma_take_step(t, j - i);
        }
        j = j - 1;
    }
    proof {
        if j > i {
            lemma_take_step(t, j - i);
        }
        assert(t.take(j - i) =~= v@.subrange(i as int, j as int));
        assert(strip_start_char(v@, c) == t);
    }
    slice_chars(v, i, j)
}

/// `v` without its leading copies of `c` (`str::trim_start_matches`).
pub fn strip_start_char_exec(v: &Vec<char>, c: char) -> (r: Vec<char>)
    ensures
        r@ == strip_start_char(v@, c),
{
    let mut i: usize = 0;
    proof {
        assert(v@.skip(0) =~= v@);
    }
    while i < v.len() && v[i] == c
        invariant
            0 <= i <= v.len(),
            strip_start_char(v@, c) == strip_start_char(v@.skip(i as int), c),
        decreases v.len() - i,
    {
        proof {
            lemma_skip_step(v@, i as int);
        }
        i = i + 1;
    }
    proof {
        if i < v.len() {
            lemma_skip_step(v@, i as int);
        } else {
            assert(v@.skip(i as int).len() == 0);
        }
        assert(v@.skip(i as int) =~= v@.subrange(i as int, v.len() as int));
    }
    slice_chars(v, i, v.len())
}

/// `v` without its trailing copies of `c` (`str::trim_end_matches`).
pub fn strip_end_char_exec(v: &Vec<char>, c: char) -> (r: Vec<char>)
    ensures
        r@ == strip_end_char(v@, c),
{
    let mut j: usize = v.len();
    proof {
        assert(v@.take(v@.len() as int) =~= v@);
    }
    while j > 0 && v[j - 1] == c
        invariant
            j <= v.len(),
            strip_end_char(v@, c) == strip_end_char(v@.take(j as int), c),
        decreases j,
    {
        proof {
            lemma_take_step(v@, j as int);
        }
        j = j - 1;
    }
    proof {
        if j > 0 {
            lemma_take_step(v@, j as int);
        }
        assert(v@.take(j as int) =~= v@.subrange(0, j as int));
    }
    slice_chars(v, 0, j)
}

// ---------------------------------------------------------------------------
// Splitting
// ---------------------------------------------------------------------------

/// The pieces of `s` between the occurrences of `c` (`str::split(c)`): there is
/// always at least one piece, and the pieces joined with `c` give back `s`.
pub open spec fn split_on(s: Seq<char>, c: char) -> Seq<Seq<char>>
    decreases s.len(),
{
    if s.len() == 0 {
        seq![Seq::<char>::empty()]
    } else {
        let prev = split_on(s.drop_last(), c);
        if s.last() == c {
            prev.push(Seq::<char>::empty())
        } else {
            prev.update(prev.len() - 1, prev.last().push(s.last()))
        }
    }
}

pub proof fn lemma_split_on_nonempty(s: Seq<char>, c: char)
    ensures
        split_on(s, c).len() >= 1,
    decreases s.len(),
{
    if s.len() > 0 {
        lemma_split_on_nonempty(s.drop_last(), c);
    }
}

/// The views of a sequence of character vectors.
pub open spec fn views(ps: Seq<Vec<char>>) -> Seq<Seq<char>> {
    ps.map_values(|p: Vec<char>| p@)
}

/// `v` split at every `c`.
pub fn split_chars(v: &Vec<char>, c: char) -> (parts: Vec<Vec<char>>)
    ensures
        views(parts@) == split_on(v@, c),
{
    let mut parts: Vec<Vec<char>> = Vec::new();
    let mut cur: Vec<char> = Vec::new();
    proof {
        assert(v@.take(0) =~= Seq::<char>::empty());
        assert(views(parts@).push(cur@) =~= split_on(v@.take(0), c));
    }
    let mut i: usize = 0;
    while i < v.len()
        invariant
            0 <= i <= v.len(),
            views(parts@).push(cur@) == split_on(v@.take(i as int), c),
        decreases v.len() - i,
    {
        let ghost before = views(parts@).push(cur@);
        proof {
            lemma_take_step(v@, i + 1);
        }
        if v[i] == c {
            parts.push(cur);
            cur = Vec::new();
            proof {
                assert(views(parts@).push(cur@) =~= before.push(Seq::<char>::empty()));
            }
        } else {
            cur.push(v[i]);
            proof {
                assert(views(parts@).push(cur@) =~= before.update(
                    before.len() - 1,
                    before.last().push(v@[i as int]),
                ));
            }
        }
        i = i + 1;
    }
    parts.push(cur);
    proof {
        assert(v@.take(v.len() as int) =~= v@);
    }
    parts
}

/// A line without the carriage return that ended it.
pub open spec fn strip_cr(l: Seq<char>) -> Seq<char> {
    if l.len() > 0 && l.last() == '\r' {
        l.drop_last()
    } else {
        l
    }
}

/// What `str::lines` yields: the pieces between newlines, each without a
/// trailing carriage return, and no final empty piece after a last newline.
/// A last piece not followed by a newline keeps its carriage return.
pub open spec fn lines(s: Seq<char>) -> Seq<Seq<char>> {
    let parts = split_on(s, '\n');
    let n = parts.len() as int;
    if parts[n - 1].len() == 0 {
        parts.drop_last().map_values(|l: Seq<char>| strip_cr(l))
    } else {
        parts.drop_last().map_values(|l: Seq<char>| strip_cr(l)).push(parts[n - 1])
    }
}

fn strip_cr_exec(l: Vec<char>) -> (r: Vec<char>)
    ensures
        r@ == strip_cr(l@),
{
    let mut l = l;
    if l.len() > 0 && l[l.len() - 1] == '\r' {
        l.pop();
    }
    l
}

/// The lines of `v`, as `str::lines` yields them.
pub fn lines_exec(v: &Vec<char>) -> (r: Vec<Vec<char>>)
    ensures
        views(r@) == lines(v@),
{
    let parts = split_chars(v, '\n');
    proof {
        lemma_split_on_nonempty(v@, '\n');
    }
    let n = parts.len();
    let mut r: Vec<Vec<char>> = Vec::new();
    let mut i: usize = 0;
    while i + 1 < n
        invariant
            n == parts.len(),
            n >= 1,
            0 <= i < n,
            views(parts@) == split_on(v@, '\n'),
            views(r@) == split_on(v@, '\n').take(i as int).map_values(
                |l: Seq<char>| strip_cr(l),
            ),
        decreases n - i,
    {
        let l = strip_cr_exec(clone_chars(&parts[i]));
        let ghost old_r = views(r@);
        let ghost lv = l@;
        r.push(l);
        proof {
            let sp = split_on(v@, '\n');
            assert(views(parts@)[i as int] == parts@[i as int]@);
            assert(views(r@) =~= old_r.push(lv));
            assert(sp.take(i + 1).map_values(|l: Seq<char>| strip_cr(l)) =~= sp.take(
                i as int,
            ).map_values(|l: Seq<char>| strip_cr(l)).push(strip_cr(sp[i as int])));
            assert(views(r@) =~= split_on(v@, '\n').take(i + 1).map_values(
                |l: Seq<char>| strip_cr(l),
            ));
        }
        i = i + 1;
    }
    proof {
        assert(split_on(v@, '\n').take(i as int) =~= split_on(v@, '\n').drop_last());
        assert(views(parts@)[n - 1] == parts@[n - 1]@);
    }
    if parts[n - 1].len() != 0 {
        r.push(clone_chars(&parts[n - 1]));
        proof {
            assert(views(r@) =~= lines(v@));
        }
    }
    r
}

/// A copy of `v`.
pub fn clone_chars(v: &Vec<char>) -> (r: Vec<char>)
    ensures
        r@ == v@,
{
    let r = slice_chars(v, 0, v.len());
    proof {
        assert(v@.subrange(0, v@.len() as int) =~= v@);
    }
    r
}

// ---------------------------------------------------------------------------
// Prefixes, suffixes and occurrences
// ---------------------------------------------------------------------------

/// `p` occurs in `s` starting at index `i`.
pub open spec fn occurs_at(s: Seq<char>, p: Seq<char>, i: int) -> bool {
    0 <= i && i + p.len() <= s.len() && s.subrange(i, i + p.len()) == p
}

/// `p` occurs somewhere in `s` (`str::contains`).
pub open spec fn contains_seq(s: Seq<char>, p: Seq<char>) -> bool {
    exists|i: int| occurs_at(s, p, i)
}

/// True when `p` is a prefix of `s[from..]`.
pub fn occurs_at_exec(s: &Vec<char>, p: &Vec<char>, from: usize) -> (r: bool)
    requires
        from <= s.len(),
    ensures
        r == occurs_at(s@, p@, from as int),
{
    if p.len() > s.len() - from {
        return false;
    }
    let mut k: usize = 0;
    while k < p.len()
        invariant
            from + p.len() <= s.len(),
            0 <= k <= p.len(),
            forall|j: int| 0 <= j < k ==> s@[from + j] == p@[j],
        decreases p.len() - k,
    {
        if s[from + k] != p[k] {
            proof {
                assert(s@.subrange(from as int, from + p.len())[k as int] != p@[k as int]);
            }
            return false;
        }
        k = k + 1;
    }
    proof {
        assert(s@.subrange(from as int, from + p.len()) =~= p@);
    }
    true
}

/// True when `p` is a prefix of `s` (`str::starts_with`).
pub fn starts_with_exec(s: &Vec<char>, p: &Vec<char>) -> (r: bool)
    ensures
        r == p@.is_prefix_of(s@),
{
    let r = occurs_at_exec(s, p, 0);
    proof {
        if r {
            assert(s@.subrange(0, p@.len() as int) =~= p@);
        }
    }
    r
}

/// True when `p` is a suffix of `s` (`str::ends_with`).
pub fn ends_with_exec(s: &Vec<char>, p: &Vec<char>) -> (r: bool)
    ensures
        r == p@.is_suffix_of(s@),
{
    if p.len() > s.len() {
        return false;
    }
    let r = occurs_at_exec(s, p, s.len() - p.len());
    proof {
        if r {
            assert(s@.subrange(s@.len() - p@.len(), s@.len() as int) =~= p@);
        }
    }
    r
}

/// The first index at or after `from` where `p` occurs in `s`.
pub fn find_from(s: &Vec<char>, p: &Vec<char>, from: usize) -> (r: Option<usize>)
    requires
        from <= s.len(),
    ensures
        match r {
            Some(i) => from <= i && occurs_at(s@, p@, i as int) && forall|j: int|
                from <= j < i ==> !occurs_at(s@, p@, j),
            None => forall|j: int| from <= j ==> !occurs_at(s@, p@, j),
        },
{
    let mut i: usize = from;
    loop
        invariant
            from <= i <= s.len(),
            forall|j: int| from <= j < i ==> !occurs_at(s@, p@, j),
        decreases s.len() - i,
    {
        if occurs_at_exec(s, p, i) {
            return Some(i);
        }
        if i == s.len() {
            return None;
        }
        i = i + 1;
    }
}

/// True when `p` occurs in `s` (`str::contains`).
pub fn contains_exec(s: &Vec<char>, p: &Vec<char>) -> (r: bool)
    ensures
        r == contains_seq(s@, p@),
{
    match find_from(s, p, 0) {
        Some(_) => true,
        None => false,
    }
}

// ---------------------------------------------------------------------------
// Decimal numbers
// ---------------------------------------------------------------------------

/// The ASCII digit for `d < 10`.
pub open spec fn digit_char(d: nat) -> char {
    (d + 48) as char
}

/// The decimal representation of `n` (`format!("{}", n)`).
pub open spec fn dec(n: nat) -> Seq<char>
    decreases n,
{
    if n < 10 {
        seq![digit_char(n)]
    } else {
        dec(n / 10).push(digit_char(n % 10))
    }
}

fn digit_exec(d: u64) -> (c: char)
    requires
        d < 10,
    ensures
        c == digit_char(d as nat),
{
    ((d as u8) + 48u8) as char
}

/// Appends the decimal representation of `n` to `out`.
pub fn push_dec(out: &mut String, n: u64)
    ensures
        final(out)@ == old(out)@ + dec(n as nat),
    decreases n,
{
    if n >= 10 {
        push_dec(out, n / 10);
    }
    push_char(out, digit_exec(n % 10));
    proof {
        if n >= 10 {
            assert(dec(n as nat) == dec((n / 10) as nat).push(digit_char((n % 10) as nat)));
        }
        assert(out@ =~= old(out)@ + dec(n as nat));
    }
}

/// The value of a sequence of ASCII digits.
pub open spec fn digits_value(s: Seq<char>) -> nat
    decreases s.len(),
{
    if s.len() == 0 {
        0
    } else {
        digits_value(s.drop_last()) * 10 + ((s.last() as nat) - 48) as nat
    }
}

pub open spec fn is_digit(c: char) -> bool {
    '0' <= c && c <= '9'
}

pub open spec fn all_digits(s: Seq<char>) -> bool {
    forall|i: int| 0 <= i < s.len() ==> is_digit(#[trigger] s[i])
}

/// What `str::parse::<u32>` returns, with the error collapsed to `None`: an
/// optional `+` followed by at least one ASCII digit, with a value that fits.
pub open spec fn parse_u32(s: Seq<char>) -> Option<u32> {
    let d = if s.len() > 0 && s[0] == '+' {
        s.drop_first()
    } else {
        s
    };
    if d.len() > 0 && all_digits(d) && digits_value(d) <= u32::MAX {
        Some(digits_value(d) as u32)
    } else {
        None
    }
}

proof fn lemma_digits_value_step(s: Seq<char>, k: int)
    requires
        0 <= k < s.len(),
        is_digit(s[k]),
    ensures
        digits_value(s.take(k + 1)) == digits_value(s.take(k)) * 10 + ((s[k] as nat) - 48),
        digits_value(s.take(k + 1)) >= digits_value(s.take(k)),
{
    assert(s.take(k + 1).drop_last() =~= s.take(k));
}

proof fn lemma_digits_value_mono(s: Seq<char>, k: int, m: int)
    requires
        0 <= k <= m <= s.len(),
        all_digits(s),
    ensures
        digits_value(s.take(m)) >= digits_value(s.take(k)),
    decreases m - k,
{
    if k < m {
        lemma_digits_value_mono(s, k, m - 1);
        lemma_digits_value_step(s, m - 1);
    }
}

/// `str::parse::<u32>` over the characters of `v`.
pub fn parse_u32_exec(v: &Vec<char>) -> (r: Option<u32>)
    ensures
        r == parse_u32(v@),
{
    let start: usize = if v.len() > 0 && v[0] == '+' {
        1
    } else {
        0
    };
    let ghost d = if v@.len() > 0 && v@[0] == '+' {
        v@.drop_first()
    } else {
        v@
    };
    proof {
        assert(d =~= v@.skip(start as int));
    }
    if start >= v.len() {
        return None;
    }
    let mut acc: u64 = 0;
    let mut i: usize = start;
    proof {
        assert(d.take(0) =~= Seq::<char>::empty());
    }
    while i < v.len()
        invariant
            start <= i <= v.len(),
            d =~= v@.skip(start as int),
            d.len() > 0,
            parse_u32(v@) == (if d.len() > 0 && all_digits(d) && digits_value(d) <= u32::MAX {
                Some(digits_value(d) as u32)
            } else {
                None
            }),
            acc == digits_value(d.take(i - start)),
            acc <= u32::MAX,
            forall|j: int| 0 <= j < i - start ==> is_digit(#[trigger] d[j]),
        decreases v.len() - i,
    {
        let c = v[i];
        if !('0' <= c && c <= '9') {
            proof {
                assert(!is_digit(d[i - start]));
                assert(!all_digits(d));
            }
            return None;
        }
        proof {
            lemma_digits_value_step(d, i - start);
        }
        acc = acc * 10 + ((c as u64) - 48);
        if acc > 4294967295u64 {
            proof {
                assert(acc == digits_value(d.take(i + 1 - start)));
                if all_digits(d) {
                    lemma_digits_value_mono(d, i + 1 - start, d.len() as int);
                    assert(d.take(d.len() as int) =~= d);
                }
            }
            return None;
        }
        i = i + 1;
    }
    proof {
        assert(d.take(v.len() - start) =~= d);
    }
    Some(acc as u32)
}

// ---------------------------------------------------------------------------
// Padding
// ---------------------------------------------------------------------------

/// `n` copies of `c`.
pub open spec fn repeat(c: char, n: nat) -> Seq<char> {
    Seq::new(n, |i: int| c)
}

/// `s` left-aligned in a field of `w` characters (`format!("{:<w$}", s)`).
pub open spec fn pad(s: Seq<char>, w: nat) -> Seq<char> {
    if s.len() >= w {
        s
    } else {
        s + repeat(' ', (w - s.len()) as nat)
    }
}

/// Appends `n` copies of `c`.
pub fn push_repeat(out: &mut String, c: char, n: usize)
    ensures
        final(out)@ == old(out)@ + repeat(c, n as nat),
{
    let mut k: usize = 0;
    while k < n
        invariant
            0 <= k <= n,
            out@ == old(out)@ + repeat(c, k as nat),
        decreases n - k,
    {
        push_char(out, c);
        proof {
            assert(old(out)@ + repeat(c, (k + 1) as nat) =~= (old(out)@ + repeat(c, k as nat)).push(c));
        }
        k = k + 1;
    }
}

/// Appends `s` left-aligned in a field of `w` characters.
pub fn push_padded(out: &mut String, s: &str, w: usize)
    ensures
        final(out)@ == old(out)@ + pad(s@, w as nat),
{
    let v = to_chars(s);
    push_str(out, s);
    if v.len() < w {
        push_repeat(out, ' ', w - v.len());
        proof {
            assert(old(out)@ + pad(s@, w as nat) =~= old(out)@ + s@ + repeat(' ', (w - v.len()) as nat));
        }
    }
}

// ---------------------------------------------------------------------------
// Paths
// ---------------------------------------------------------------------------

/// The components of a `/`-separated path, with repeated separators and `.`
/// components normalised away.
pub open spec fn path_components(p: Seq<char>) -> Seq<Seq<char>> {
    split_on(p, '/').filter(|x: Seq<char>| x.len() > 0 && x != seq!['.'])
}

/// What `Path::file_name` returns for a path: its final component, unless the
/// path has none or ends in `..`.
pub open spec fn path_file_name(p: Seq<char>) -> Option<Seq<char>> {
    let cs = path_components(p);
    if cs.len() == 0 || cs.last() == seq!['.', '.'] {
        None
    } else {
        Some(cs.last())
    }
}

/// The final component of `path`, as `Path::file_name` gives it.
pub fn path_file_name_exec(path: &str) -> (r: Option<Vec<char>>)
    ensures
        match r {
            Some(v) => path_file_name(path@) == Some(v@),
            None => path_file_name(path@) is None,
        },
{
    let pieces = split_chars(&to_chars(path), '/');
    let ghost ps = views(pieces@);
    let ghost keep = |x: Seq<char>| x.len() > 0 && x != seq!['.'];
    let mut last: Option<usize> = None;
    let mut i: usize = 0;
    proof {
        assert(ps.take(0).filter(keep) =~= Seq::<Seq<char>>::empty()) by {
            reveal(Seq::filter);
        }
    }
    while i < pieces.len()
        invariant
            0 <= i <= pieces.len(),
            ps == views(pieces@),
            ps == split_on(path@, '/'),
            keep == (|x: Seq<char>| x.len() > 0 && x != seq!['.']),
            match last {
                Some(k) => k < i && ps.take(i as int).filter(keep).len() > 0 && ps.take(
                    i as int,
                ).filter(keep).last() == ps[k as int],
                None => ps.take(i as int).filter(keep).len() == 0,
            },
        decreases pieces.len() - i,
    {
        let piece = &pieces[i];
        proof {
            reveal(Seq::filter);
            assert(ps[i as int] == piece@);
            assert(ps.take(i + 1).drop_last() =~= ps.take(i as int));
            assert(ps.take(i + 1).last() == ps[i as int]);
        }
        let is_dot = piece.len() == 1 && piece[0] == '.';
        proof {
            if piece@.len() == 1 {
                assert(is_dot == (piece@ == seq!['.'])) by {
                    if piece@[0] == '.' {
                        assert(piece@ =~= seq!['.']);
                    }
                }
            } else {
                assert(piece@ != seq!['.']);
            }
        }
        if piece.len() > 0 && !is_dot {
            last = Some(i);
        }
        i = i + 1;
    }
    proof {
        assert(ps.take(pieces.len() as int) =~= ps);
    }
    match last {
        None => None,
        Some(k) => {
            let comp = &pieces[k];
            proof {
                assert(ps[k as int] == comp@);
            }
            let is_dotdot = comp.len() == 2 && comp[0] == '.' && comp[1] == '.';
            proof {
                if comp@.len() == 2 {
                    if comp@[0] == '.' && comp@[1] == '.' {
                        assert(comp@ =~= seq!['.', '.']);
                    }
                } else {
                    assert(comp@ != seq!['.', '.']);
                }
            }
            if is_dotdot {
                None
            } else {
                Some(clone_chars(comp))
            }
        },
    }
}

/// How a repo is named in receipts and reports: the final component of its
/// path, or the whole path when it has none.
pub open spec fn display_name(path: Seq<char>) -> Seq<char> {
    match path_file_name(path) {
        Some(n) => n,
        None => path,
    }
}

/// The name of the repo at `path`.
pub fn display_name_exec(path: &str) -> (r: String)
    ensures
        r@ == display_name(path@),
{
    match path_file_name_exec(path) {
        Some(v) => from_chars(&v),
        None => String::from_str(path),
    }
}

/// The final component of `path`, or the empty string when it has none.
pub fn file_name_or_empty(path: &str) -> (r: String)
    ensures
        r@ == match path_file_name(path@) {
            Some(n) => n,
            None => Seq::empty(),
        },
{
    match path_file_name_exec(path) {
        Some(v) => from_chars(&v),
        None => String::new(),
    }
}

// ---------------------------------------------------------------------------
// Column widths
// ---------------------------------------------------------------------------

/// The length in bytes of the UTF-8 encoding of `s` (`str::len`).
pub open spec fn byte_len(s: Seq<char>) -> usize {
    vstd::utf8::encode_utf8(s).len() as usize
}

pub fn byte_len_exec(s: &str) -> (r: usize)
    ensures
        r == byte_len(s@),
{
    s.len()
}

/// The largest of `lens`, or `floor` when that is larger (or `lens` is empty).
pub open spec fn max_width(lens: Seq<usize>, floor: usize) -> usize
    decreases lens.len(),
{
    if lens.len() == 0 {
        floor
    } else {
        let m = max_width(lens.drop_last(), floor);
        if lens.last() > m {
            lens.last()
        } else {
            m
        }
    }
}

pub proof fn lemma_max_width_step(lens: Seq<usize>, floor: usize, i: int)
    requires
        0 <= i < lens.len(),
    ensures
        max_width(lens.take(i + 1), floor) == (if lens[i] > max_width(lens.take(i), floor) {
            lens[i]
        } else {
            max_width(lens.take(i), floor)
        }),
{
    assert(lens.take(i + 1).drop_last() =~= lens.take(i));
}

// ---------------------------------------------------------------------------
// Lists of lines
// ---------------------------------------------------------------------------

/// The text that `f` gives for each item of `s`, in order.
pub open spec fn lines_of<A>(s: Seq<A>, f: spec_fn(A) -> Seq<char>) -> Seq<char>
    decreases s.len(),
{
    if s.len() == 0 {
        Seq::empty()
    } else {
        lines_of(s.drop_last(), f) + f(s.last())
    }
}

/// The text of two lists one after the other is the text of the first, then
/// that of the second.
pub proof fn lemma_lines_of_add<A>(a: Seq<A>, b: Seq<A>, f: spec_fn(A) -> Seq<char>)
    ensures
        lines_of(a + b, f) == lines_of(a, f) + lines_of(b, f),
    decreases b.len(),
{
    if b.len() == 0 {
        assert(a + b =~= a);
        assert(lines_of(a, f) + lines_of(b, f) =~= lines_of(a, f));
    } else {
        lemma_lines_of_add(a, b.drop_last(), f);
        assert((a + b).drop_last() =~= a + b.drop_last());
        assert((a + b).last() == b.last());
        assert(lines_of(a + b, f) =~= lines_of(a, f) + lines_of(b, f));
    }
}

/// The text of item `i` stands after that of the items before it and before
/// that of the items after it.
pub proof fn lemma_lines_of_split<A>(s: Seq<A>, f: spec_fn(A) -> Seq<char>, i: int)
    requires
        0 <= i < s.len(),
    ensures
        lines_of(s, f) == lines_of(s.take(i), f) + f(s[i]) + lines_of(s.skip(i + 1), f),
{
    let one = seq![s[i]];
    assert(s =~= s.take(i) + one + s.skip(i + 1));
    lemma_lines_of_add(s.take(i) + one, s.skip(i + 1), f);
    lemma_lines_of_add(s.take(i), one, f);
    assert(one.drop_last() =~= Seq::<A>::empty());
    assert(lines_of(one.drop_last(), f) =~= Seq::<char>::empty());
    assert(one.last() == s[i]);
    assert(lines_of(one, f) =~= f(s[i]));
}

// ---------------------------------------------------------------------------
// Counting lines
// ---------------------------------------------------------------------------

/// The number of newline characters in `s`.
pub open spec fn newlines(s: Seq<char>) -> nat
    decreases s.len(),
{
    if s.len() == 0 {
        0
    } else {
        newlines(s.drop_last()) + if s.last() == '\n' {
            1nat
        } else {
            0nat
        }
    }
}

/// `s` holds no newline.
pub open spec fn no_newline(s: Seq<char>) -> bool {
    forall|i: int| 0 <= i < s.len() ==> s[i] != '\n'
}

/// The newlines of two texts one after the other add up.
pub broadcast proof fn lemma_newlines_add(a: Seq<char>, b: Seq<char>)
    ensures
        #[trigger] newlines(a + b) == newlines(a) + newlines(b),
    decreases b.len(),
{
    if b.len() == 0 {
        assert(a + b =~= a);
    } else {
        lemma_newlines_add(a, b.drop_last());
        assert((a + b).drop_last() =~= a + b.drop_last());
    }
}

/// A text without a newline counts none.
pub proof fn lemma_newlines_none(s: Seq<char>)
    requires
        no_newline(s),
    ensures
        newlines(s) == 0,
    decreases s.len(),
{
    if s.len() > 0 {
        lemma_newlines_none(s.drop_last());
    }
}

/// Padding with spaces adds no newline.
pub broadcast proof fn lemma_newlines_pad(s: Seq<char>, w: nat)
    ensures
        #[trigger] newlines(pad(s, w)) == newlines(s),
{
    if s.len() < w {
        lemma_newlines_add(s, repeat(' ', (w - s.len()) as nat));
        lemma_newlines_none(repeat(' ', (w - s.len()) as nat));
    }
}

/// A run of one character other than a newline counts no newline.
pub broadcast proof fn lemma_newlines_repeat(c: char, n: nat)
    requires
        c != '\n',
    ensures
        #[trigger] newlines(repeat(c, n)) == 0,
{
    lemma_newlines_none(repeat(c, n));
}

proof fn lemma_digit_not_newline(d: nat)
    requires
        d < 10,
    ensures
        digit_char(d) != '\n',
{
    assert(('\n' as int) == 10);
    assert((digit_char(d) as int) == d + 48);
}

/// A decimal number holds no newline.
pub broadcast proof fn lemma_newlines_dec(n: nat)
    ensures
        #[trigger] newlines(dec(n)) == 0,
    decreases n,
{
    if n >= 10 {
        lemma_newlines_dec(n / 10);
        lemma_digit_not_newline(n % 10);
        assert(dec(n).drop_last() =~= dec(n / 10));
        assert(dec(n).last() == digit_char(n % 10));
    } else {
        lemma_digit_not_newline(n);
        assert(dec(n).drop_last() =~= Seq::<char>::empty());
        assert(newlines(Seq::<char>::empty()) == 0);
        assert(dec(n).last() == digit_char(n));
    }
}

pub broadcast group group_newlines {
    lemma_newlines_add,
    lemma_newlines_pad,
    lemma_newlines_repeat,
    lemma_newlines_dec,
}

// ---------------------------------------------------------------------------
// Reading back a decimal number
// ---------------------------------------------------------------------------

proof fn lemma_digit_char_is_digit(d: nat)
    requires
        d < 10,
    ensures
        is_digit(digit_char(d)),
        !is_whitespace(digit_char(d)),
        (digit_char(d) as nat) - 48 == d,
{
    assert((digit_char(d) as int) == d + 48);
}

/// The decimal representation of `n` is all digits, and reads back as `n`.
pub proof fn lemma_dec_digits(n: nat)
    ensures
        dec(n).len() > 0,
        all_digits(dec(n)),
        digits_value(dec(n)) == n,
        !is_whitespace(dec(n)[0]),
        !is_whitespace(dec(n).last()),
    decreases n,
{
    if n < 10 {
        lemma_digit_char_is_digit(n);
        assert(dec(n).drop_last() =~= Seq::<char>::empty());
        assert(digits_value(Seq::<char>::empty()) == 0);
    } else {
        lemma_dec_digits(n / 10);
        lemma_digit_char_is_digit(n % 10);
        let d = dec(n);
        assert(d.drop_last() =~= dec(n / 10));
        assert(d[0] == dec(n / 10)[0]);
        assert forall|i: int| 0 <= i < d.len() implies is_digit(#[trigger] d[i]) by {
            if i < d.len() - 1 {
                assert(d[i] == dec(n / 10)[i]);
            }
        }
    }
}

/// A count that git printed as a decimal number, followed by a newline, is
/// read back as that number.
pub proof fn lemma_parse_reads_dec(n: u32)
    ensures
        parse_u32(trim(dec(n as nat) + "\n"@)) == Some(n),
{
    let d = dec(n as nat);
    lemma_dec_digits(n as nat);
    reveal_strlit("\n");
    let s = d + "\n"@;
    assert(s[0] == d[0]);
    assert(trim_start(s) == s);
    assert(s.last() == '\n');
    assert(is_whitespace('\n'));
    assert(s.drop_last() =~= d);
    assert(trim_end(s) == trim_end(d));
    assert(trim_end(d) == d);
    assert(d[0] != '+') by {
        assert(is_digit(d[0]));
    }
}

} // verus!
