//! Matching of glob patterns against text: whole texts, and the
//! shortest and longest prefixes, suffixes and parts that match.

use vstd::prelude::*;
use crate::apml::ast::{GlobPart, GlobPartView, GlobPattern};
use crate::apml::text::{char_at, has_at, to_chars};

verus! {

/// Whether the items of a character class from `i` on hold `c`. An item is
/// a range, written as its two ends with `-` between them, or one character.
pub open spec fn items_hold(r: Seq<char>, i: int, c: char) -> bool
    decreases r.len() - i,
{
    if i < 0 || i >= r.len() {
        false
    } else if i + 2 < r.len() && r[i + 1] == '-' {
        r[i] <= c <= r[i + 2] || items_hold(r, i + 3, c)
    } else {
        r[i] == c || items_hold(r, i + 1, c)
    }
}

/// Whether a character class says the contrary of its items: one that
/// starts with `!` or `^`.
pub open spec fn is_negated(r: Seq<char>) -> bool {
    r.len() > 0 && (r[0] == '!' || r[0] == '^')
}

/// Whether the character class with the text `r` between its brackets holds `c`.
pub open spec fn class_holds(r: Seq<char>, c: char) -> bool {
    if is_negated(r) {
        !items_hold(r, 1, c)
    } else {
        items_hold(r, 0, c)
    }
}

/// Whether a part that stands for one character stands for `c`.
pub open spec fn part_holds(p: GlobPartView, c: char) -> bool {
    match p {
        GlobPartView::Escaped(e) => c == e,
        GlobPartView::AnyChar => true,
        GlobPartView::Range(r) => class_holds(r, c),
        _ => false,
    }
}

/// Whether the pattern matches the whole of `t`: literal text and escaped
/// characters match themselves, `?` and a class match one character, and
/// `*` matches any text, the empty one too.
pub open spec fn glob_matches(p: Seq<GlobPartView>, t: Seq<char>) -> bool
    decreases p.len(), t.len(),
{
    if p.len() == 0 {
        t.len() == 0
    } else {
        match p.last() {
            GlobPartView::String(x) => x.len() <= t.len() && t.skip(t.len() - x.len()) == x
                && glob_matches(p.drop_last(), t.take(t.len() - x.len())),
            GlobPartView::AnyString => glob_matches(p.drop_last(), t) || (t.len() > 0
                && glob_matches(p, t.drop_last())),
            _ => t.len() > 0 && part_holds(p.last(), t.last()) && glob_matches(
                p.drop_last(),
                t.drop_last(),
            ),
        }
    }
}

/// Whether the pattern matches the text of `t` from `from` up to `to`.
pub open spec fn matches_between(p: Seq<GlobPartView>, t: Seq<char>, from: int, to: int) -> bool {
    0 <= from <= to <= t.len() && glob_matches(p, t.subrange(from, to))
}

/// A pattern that ends with `*` matches a text exactly where the pattern
/// before the `*` matches some start of it.
pub proof fn lemma_any_string(q: Seq<GlobPartView>, t: Seq<char>)
    ensures
        glob_matches(q.push(GlobPartView::AnyString), t) <==> exists|k: int|
            0 <= k <= t.len() && #[trigger] glob_matches(q, t.take(k)),
    decreases t.len(),
{
    let p = q.push(GlobPartView::AnyString);
    let less = t.drop_last();
    assert(p.drop_last() =~= q);
    assert(p.last() == GlobPartView::AnyString);
    assert(t.take(t.len() as int) =~= t);
    if t.len() > 0 {
        lemma_any_string(q, less);
    }
    if glob_matches(p, t) {
        if glob_matches(q, t) {
            assert(glob_matches(q, t.take(t.len() as int)));
        } else {
            let j = choose|j: int| 0 <= j <= less.len() && #[trigger] glob_matches(q, less.take(j));
            assert(t.take(j) =~= less.take(j));
            assert(glob_matches(q, t.take(j)));
        }
    }
    if exists|k: int| 0 <= k <= t.len() && #[trigger] glob_matches(q, t.take(k)) {
        let j = choose|j: int| 0 <= j <= t.len() && #[trigger] glob_matches(q, t.take(j));
        if j < t.len() {
            assert(t.take(j) =~= less.take(j));
            assert(glob_matches(q, less.take(j)));
        }
    }
}

/// Says whether the items of a character class from `start` on hold `c`.
fn items_contain(r: &Vec<char>, start: usize, c: char) -> (found: bool)
    requires
        start <= r@.len(),
    ensures
        found == items_hold(r@, start as int, c),
{
    let len = r.len();
    let mut i: usize = start;
    while i < len
        invariant
            start <= i,
            len == r@.len(),
            items_hold(r@, start as int, c) == items_hold(r@, i as int, c),
        decreases len - i,
    {
        if len - i > 2 && r[i + 1] == '-' {
            if r[i] <= c && c <= r[i + 2] {
                return true;
            }
            i += 3;
        } else {
            if r[i] == c {
                return true;
            }
            i += 1;
        }
    }
    false
}

/// Says whether the character class with the text `r` holds `c`.
fn class_contains_char(r: &Vec<char>, c: char) -> (found: bool)
    ensures
        found == class_holds(r@, c),
{
    if r.len() > 0 && (r[0] == '!' || r[0] == '^') {
        !items_contain(r, 1, c)
    } else {
        items_contain(r, 0, c)
    }
}

/// Says whether `x` stands in `t` at `i`.
fn stands_at(t: &Vec<char>, i: usize, x: &Vec<char>) -> (r: bool)
    requires
        i + x@.len() <= t@.len(),
    ensures
        r == has_at(t@, i as int, x@),
{
    let tlen = t.len();
    let mut k: usize = 0;
    while k < x.len()
        invariant
            k <= x@.len(),
            tlen == t@.len(),
            i + x@.len() <= t@.len(),
            forall|j: int| 0 <= j < k ==> t@[i + j] == x@[j],
        decreases x@.len() - k,
    {
        if t[i + k] != x[k] {
            assert(t@.subrange(i as int, i + x@.len())[k as int] == t@[i + k]);
            return false;
        }
        k += 1;
    }
    assert(t@.subrange(i as int, i + x@.len()) =~= x@);
    true
}

/// What a table of matches says: for each length, whether `p` matches the
/// text of that length that starts at `start`.
pub open spec fn is_match_table(
    g: Seq<bool>,
    p: Seq<GlobPartView>,
    t: Seq<char>,
    start: int,
) -> bool {
    &&& g.len() == t.len() - start + 1
    &&& forall|k: int| 0 <= k < g.len() ==> (#[trigger] g[k]) == glob_matches(
        p,
        t.subrange(start, start + k),
    )
}

/// The table of matches of a pattern with one more part.
fn advance(part: &GlobPart, t: &Vec<char>, start: usize, g: &Vec<bool>, Ghost(q): Ghost<
    Seq<GlobPartView>,
>) -> (next: Vec<bool>)
    requires
        start <= t@.len() < usize::MAX,
        is_match_table(g@, q, t@, start as int),
    ensures
        is_match_table(next@, q.push(part@), t@, start as int),
{
    let ghost p = q.push(part@);
    assert(p.drop_last() =~= q);
    assert(p.last() == part@);
    let n = g.len();
    let tlen = t.len();
    let mut next: Vec<bool> = Vec::new();
    let mut k: usize = 0;
    match part {
        GlobPart::String(x) => {
            let x = to_chars(x.as_str());
            let m = x.len();
            while k < n
                invariant
                    k <= n,
                    n == g@.len(),
                    tlen == t@.len(),
                    m == x@.len(),
                    start <= tlen < usize::MAX,
                    next@.len() == k,
                    p.len() > 0,
                    p.drop_last() == q,
                    p.last() == GlobPartView::String(x@),
                    is_match_table(g@, q, t@, start as int),
                    forall|j: int|
                        0 <= j < k ==> (#[trigger] next@[j]) == glob_matches(
                            p,
                            t@.subrange(start as int, start + j),
                        ),
                decreases n - k,
            {
                let ghost sub = t@.subrange(start as int, start + k);
                let here = m <= k && stands_at(t, start + k - m, &x) && g[k - m];
                proof {
                    if m <= k {
                        assert(sub.skip(k - m) =~= t@.subrange(start + k - m, start + k));
                        assert(sub.take(k - m) =~= t@.subrange(start as int, start + (k - m)));
                        assert(g@[k - m] == glob_matches(
                            q,
                            t@.subrange(start as int, start + (k - m)),
                        ));
                    }
                    assert(sub.len() == k);
                    assert(here == glob_matches(p, sub));
                }
                next.push(here);
                k += 1;
            }
        },
        GlobPart::AnyString => {
            while k < n
                invariant
                    k <= n,
                    n == g@.len(),
                    tlen == t@.len(),
                    start <= tlen < usize::MAX,
                    next@.len() == k,
                    p.len() > 0,
                    p.drop_last() == q,
                    p.last() == GlobPartView::AnyString,
                    is_match_table(g@, q, t@, start as int),
                    forall|j: int|
                        0 <= j < k ==> (#[trigger] next@[j]) == glob_matches(
                            p,
                            t@.subrange(start as int, start + j),
                        ),
                decreases n - k,
            {
                let ghost sub = t@.subrange(start as int, start + k);
                let here = g[k] || (k > 0 && next[k - 1]);
                proof {
                    assert(sub.len() == k);
                    assert(g@[k as int] == glob_matches(q, sub));
                    if k > 0 {
                        let less = t@.subrange(start as int, start + (k - 1));
                        assert(sub.drop_last() =~= less);
                        assert(next@[k - 1] == glob_matches(p, less));
                    }
                    assert(here == glob_matches(p, sub));
                }
                next.push(here);
                k += 1;
            }
        },
        _ => {
            let class = match part {
                GlobPart::Range(r) => to_chars(r.as_str()),
                _ => Vec::new(),
            };
            while k < n
                invariant
                    k <= n,
                    n == g@.len(),
                    tlen == t@.len(),
                    start <= tlen < usize::MAX,
                    next@.len() == k,
                    p.len() > 0,
                    p.drop_last() == q,
                    p.last() == part@,
                    !(part@ is String),
                    !(part@ is AnyString),
                    part@ is Range ==> part@->Range_0 == class@,
                    is_match_table(g@, q, t@, start as int),
                    forall|j: int|
                        0 <= j < k ==> (#[trigger] next@[j]) == glob_matches(
                            p,
                            t@.subrange(start as int, start + j),
                        ),
                decreases n - k,
            {
                let ghost sub = t@.subrange(start as int, start + k);
                let here = if k > 0 && g[k - 1] {
                    let c = char_at(t, start + k - 1);
                    match part {
                        GlobPart::Escaped(e) => c == *e,
                        GlobPart::AnyChar => true,
                        GlobPart::Range(_) => class_contains_char(&class, c),
                        _ => false,
                    }
                } else {
                    false
                };
                proof {
                    assert(sub.len() == k);
                    if k > 0 {
                        assert(sub.drop_last() =~= t@.subrange(start as int, start + (k - 1)));
                        assert(sub.last() == t@[start + k - 1]);
                        assert(g@[k - 1] == glob_matches(
                            q,
                            t@.subrange(start as int, start + (k - 1)),
                        ));
                    }
                    assert(here == glob_matches(p, sub));
                }
                next.push(here);
                k += 1;
            }
        },
    }
    next
}

/// The table of matches of the pattern on the text that starts at `start`.
fn match_table(pattern: &GlobPattern, t: &Vec<char>, start: usize) -> (g: Vec<bool>)
    requires
        start <= t@.len() < usize::MAX,
    ensures
        is_match_table(g@, pattern@, t@, start as int),
{
    let n = t.len() - start + 1;
    let mut g: Vec<bool> = Vec::new();
    let mut k: usize = 0;
    while k < n
        invariant
            k <= n,
            n == t@.len() - start + 1,
            g@.len() == k,
            forall|j: int| 0 <= j < k ==> (#[trigger] g@[j]) == (j == 0),
        decreases n - k,
    {
        g.push(k == 0);
        k += 1;
    }
    let mut i: usize = 0;
    assert(pattern@.take(0) =~= Seq::empty());
    assert(is_match_table(g@, pattern@.take(0), t@, start as int)) by {
        assert forall|j: int| 0 <= j < g@.len() implies (#[trigger] g@[j]) == glob_matches(
            pattern@.take(0),
            t@.subrange(start as int, start + j),
        ) by {
            assert(t@.subrange(start as int, start + j).len() == j);
        }
    }
    while i < pattern.0.len()
        invariant
            i <= pattern.0@.len(),
            start <= t@.len() < usize::MAX,
            is_match_table(g@, pattern@.take(i as int), t@, start as int),
        decreases pattern.0@.len() - i,
    {
        assert(pattern@.take(i as int).push(pattern.0@[i as int]@) =~= pattern@.take(i + 1));
        g = advance(&pattern.0[i], t, start, &g, Ghost(pattern@.take(i as int)));
        i += 1;
    }
    assert(pattern@.take(i as int) =~= pattern@);
    g
}

/// The least index at which a table holds `true`, if there is one.
fn first_true(g: &Vec<bool>) -> (r: Option<usize>)
    ensures
        match r {
            Some(k) => k < g@.len() && g@[k as int] && forall|j: int| 0 <= j < k ==> !g@[j],
            None => forall|j: int| 0 <= j < g@.len() ==> !g@[j],
        },
{
    let mut k: usize = 0;
    while k < g.len()
        invariant
            k <= g@.len(),
            forall|j: int| 0 <= j < k ==> !g@[j],
        decreases g@.len() - k,
    {
        if g[k] {
            return Some(k);
        }
        k += 1;
    }
    None
}

/// The greatest index at which a table holds `true`, if there is one.
fn last_true(g: &Vec<bool>) -> (r: Option<usize>)
    ensures
        match r {
            Some(k) => k < g@.len() && g@[k as int] && forall|j: int| k < j < g@.len() ==> !g@[j],
            None => forall|j: int| 0 <= j < g@.len() ==> !g@[j],
        },
{
    let mut k: usize = g.len();
    while k > 0
        invariant
            k <= g@.len(),
            forall|j: int| k <= j < g@.len() ==> !g@[j],
        decreases k,
    {
        k -= 1;
        if g[k] {
            return Some(k);
        }
    }
    None
}

/// Whether `k` is the length of the shortest start of `t` that the pattern matches.
pub open spec fn is_shortest_prefix(p: Seq<GlobPartView>, t: Seq<char>, k: int) -> bool {
    &&& 0 <= k <= t.len()
    &&& glob_matches(p, t.take(k))
    &&& forall|j: int| 0 <= j < k ==> !#[trigger] glob_matches(p, t.take(j))
}

/// Whether `k` is the length of the longest start of `t` that the pattern matches.
pub open spec fn is_longest_prefix(p: Seq<GlobPartView>, t: Seq<char>, k: int) -> bool {
    &&& 0 <= k <= t.len()
    &&& glob_matches(p, t.take(k))
    &&& forall|j: int| k < j <= t.len() ==> !#[trigger] glob_matches(p, t.take(j))
}

/// Whether the pattern matches no start of `t`.
pub open spec fn no_prefix_matches(p: Seq<GlobPartView>, t: Seq<char>) -> bool {
    forall|j: int| 0 <= j <= t.len() ==> !#[trigger] glob_matches(p, t.take(j))
}

/// Whether `k` is the length of the shortest end of `t` that the pattern matches.
pub open spec fn is_shortest_suffix(p: Seq<GlobPartView>, t: Seq<char>, k: int) -> bool {
    &&& 0 <= k <= t.len()
    &&& glob_matches(p, t.skip(t.len() - k))
    &&& forall|j: int| 0 <= j < k ==> !#[trigger] glob_matches(p, t.skip(t.len() - j))
}

/// Whether `k` is the length of the longest end of `t` that the pattern matches.
pub open spec fn is_longest_suffix(p: Seq<GlobPartView>, t: Seq<char>, k: int) -> bool {
    &&& 0 <= k <= t.len()
    &&& glob_matches(p, t.skip(t.len() - k))
    &&& forall|j: int| k < j <= t.len() ==> !#[trigger] glob_matches(p, t.skip(t.len() - j))
}

/// Whether the pattern matches no end of `t`.
pub open spec fn no_suffix_matches(p: Seq<GlobPartView>, t: Seq<char>) -> bool {
    forall|j: int| 0 <= j <= t.len() ==> !#[trigger] glob_matches(p, t.skip(t.len() - j))
}

/// Whether the pattern matches no part of `t` that starts at `a`.
pub open spec fn no_match_at(p: Seq<GlobPartView>, t: Seq<char>, a: int) -> bool {
    forall|b: int| a <= b <= t.len() ==> !#[trigger] matches_between(p, t, a, b)
}

/// Whether the text of `t` from `a` up to `b` is the first match of the
/// pattern at or after `from`: no match starts earlier, and none that
/// starts at `a` is longer.
pub open spec fn is_first_match(p: Seq<GlobPartView>, t: Seq<char>, from: int, a: int, b: int)
    -> bool {
    &&& from <= a
    &&& matches_between(p, t, a, b)
    &&& forall|x: int| from <= x < a ==> #[trigger] no_match_at(p, t, x)
    &&& forall|y: int| b < y <= t.len() ==> !#[trigger] matches_between(p, t, a, y)
}

/// Whether the pattern matches no part of `t` that starts at or after `from`.
pub open spec fn no_match_from(p: Seq<GlobPartView>, t: Seq<char>, from: int) -> bool {
    forall|x: int| from <= x <= t.len() ==> #[trigger] no_match_at(p, t, x)
}

/// Whether the pattern matches a part of `t` that starts at or after `from`.
pub open spec fn has_match_from(p: Seq<GlobPartView>, t: Seq<char>, from: int) -> bool {
    exists|a: int, b: int| is_first_match(p, t, from, a, b)
}

/// The first match of the pattern in `t` at or after `from`, where there is one.
pub open spec fn first_match(p: Seq<GlobPartView>, t: Seq<char>, from: int) -> (int, int) {
    choose|span: (int, int)| is_first_match(p, t, from, span.0, span.1)
}

/// The matches of the pattern in `t` at or after `from`, from left to
/// right: the first match, then the matches behind it. Behind an empty
/// match the search goes on one character further.
pub open spec fn all_matches(p: Seq<GlobPartView>, t: Seq<char>, from: int) -> Seq<(int, int)>
    decreases t.len() + 1 - from,
{
    if 0 <= from <= t.len() && has_match_from(p, t, from) {
        let (a, b) = first_match(p, t, from);
        let next = if b > a {
            b
        } else {
            b + 1
        };
        if from < next <= t.len() + 1 {
            seq![(a, b)] + all_matches(p, t, next)
        } else {
            seq![(a, b)]
        }
    } else {
        Seq::empty()
    }
}

/// The spans that a list of pairs of indices stands for.
pub open spec fn spans_of(v: Seq<(usize, usize)>) -> Seq<(int, int)> {
    Seq::new(v.len(), |i: int| (v[i].0 as int, v[i].1 as int))
}

/// There is one first match at most.
pub proof fn lemma_first_match_unique(
    p: Seq<GlobPartView>,
    t: Seq<char>,
    from: int,
    a: int,
    b: int,
    c: int,
    d: int,
)
    requires
        is_first_match(p, t, from, a, b),
        is_first_match(p, t, from, c, d),
    ensures
        a == c,
        b == d,
{
    if a < c {
        assert(no_match_at(p, t, a));
        assert(matches_between(p, t, a, b));
    }
    if c < a {
        assert(no_match_at(p, t, c));
        assert(matches_between(p, t, c, d));
    }
    if b < d {
        assert(matches_between(p, t, a, d));
    }
    if d < b {
        assert(matches_between(p, t, c, b));
    }
}

/// A first match is the one that `first_match` names.
pub proof fn lemma_first_match_is(p: Seq<GlobPartView>, t: Seq<char>, from: int, a: int, b: int)
    requires
        is_first_match(p, t, from, a, b),
    ensures
        has_match_from(p, t, from),
        first_match(p, t, from) == (a, b),
{
    let span = (a, b);
    assert(is_first_match(p, t, from, span.0, span.1));
    let found = first_match(p, t, from);
    lemma_first_match_unique(p, t, from, a, b, found.0, found.1);
}

/// Where nothing matches, there is no first match.
pub proof fn lemma_no_first_match(p: Seq<GlobPartView>, t: Seq<char>, from: int)
    requires
        no_match_from(p, t, from),
    ensures
        !has_match_from(p, t, from),
{
    if has_match_from(p, t, from) {
        let (a, b) = choose|a: int, b: int| is_first_match(p, t, from, a, b);
        assert(no_match_at(p, t, a));
        assert(matches_between(p, t, a, b));
    }
}

impl GlobPattern {
    /// Says whether the pattern matches the whole of `text`.
    pub fn matches(&self, text: &str) -> (r: bool)
        requires
            text@.len() < usize::MAX,
        ensures
            r == glob_matches(self@, text@),
    {
        let t = to_chars(text);
        let g = match_table(self, &t, 0);
        assert(t@.subrange(0, t@.len() as int) =~= t@);
        g[t.len()]
    }

    /// The length of the shortest start of `text` that the pattern
    /// matches, counted in characters; `None` where it matches no start.
    pub fn shortest_prefix(&self, text: &str) -> (r: Option<usize>)
        requires
            text@.len() < usize::MAX,
        ensures
            match r {
                Some(k) => is_shortest_prefix(self@, text@, k as int),
                None => no_prefix_matches(self@, text@),
            },
    {
        let t = to_chars(text);
        let g = match_table(self, &t, 0);
        assert forall|j: int| 0 <= j <= t@.len() implies g@[j] == #[trigger] glob_matches(
            self@,
            t@.take(j),
        ) by {
            assert(t@.subrange(0, 0 + j) =~= t@.take(j));
        }
        first_true(&g)
    }

    /// The length of the longest start of `text` that the pattern matches,
    /// counted in characters; `None` where it matches no start.
    pub fn longest_prefix(&self, text: &str) -> (r: Option<usize>)
        requires
            text@.len() < usize::MAX,
        ensures
            match r {
                Some(k) => is_longest_prefix(self@, text@, k as int),
                None => no_prefix_matches(self@, text@),
            },
    {
        let t = to_chars(text);
        let g = match_table(self, &t, 0);
        assert forall|j: int| 0 <= j <= t@.len() implies g@[j] == #[trigger] glob_matches(
            self@,
            t@.take(j),
        ) by {
            assert(t@.subrange(0, 0 + j) =~= t@.take(j));
        }
        last_true(&g)
    }

    /// For each length, whether the pattern matches the end of `t` of that length.
    fn suffix_table(&self, t: &Vec<char>) -> (g: Vec<bool>)
        requires
            t@.len() < usize::MAX,
        ensures
            g@.len() == t@.len() + 1,
            forall|j: int|
                0 <= j <= t@.len() ==> g@[j] == #[trigger] glob_matches(
                    self@,
                    t@.skip(t@.len() - j),
                ),
    {
        let len = t.len();
        let mut g: Vec<bool> = Vec::new();
        let mut k: usize = 0;
        while k <= len
            invariant
                k <= len + 1,
                len == t@.len(),
                len < usize::MAX,
                g@.len() == k,
                forall|j: int|
                    0 <= j < k ==> g@[j] == #[trigger] glob_matches(self@, t@.skip(len - j)),
            decreases len + 1 - k,
        {
            let table = match_table(self, t, len - k);
            assert(t@.subrange(len - k, len - k + k) =~= t@.skip(len - k));
            g.push(table[k]);
            k += 1;
        }
        g
    }

    /// The length of the shortest end of `text` that the pattern matches,
    /// counted in characters; `None` where it matches no end.
    pub fn shortest_suffix(&self, text: &str) -> (r: Option<usize>)
        requires
            text@.len() < usize::MAX,
        ensures
            match r {
                Some(k) => is_shortest_suffix(self@, text@, k as int),
                None => no_suffix_matches(self@, text@),
            },
    {
        let t = to_chars(text);
        let g = self.suffix_table(&t);
        first_true(&g)
    }

    /// The length of the longest end of `text` that the pattern matches,
    /// counted in characters; `None` where it matches no end.
    pub fn longest_suffix(&self, text: &str) -> (r: Option<usize>)
        requires
            text@.len() < usize::MAX,
        ensures
            match r {
                Some(k) => is_longest_suffix(self@, text@, k as int),
                None => no_suffix_matches(self@, text@),
            },
    {
        let t = to_chars(text);
        let g = self.suffix_table(&t);
        last_true(&g)
    }

    /// Finds the first match in `t` at or after `from`.
    fn find_in(&self, t: &Vec<char>, from: usize) -> (r: Option<(usize, usize)>)
        requires
            t@.len() < usize::MAX,
        ensures
            match r {
                Some((a, b)) => is_first_match(self@, t@, from as int, a as int, b as int),
                None => no_match_from(self@, t@, from as int),
            },
    {
        let len = t.len();
        let mut a: usize = from;
        while a <= len
            invariant
                from <= a,
                len == t@.len(),
                len < usize::MAX,
                forall|x: int| from <= x < a ==> #[trigger] no_match_at(self@, t@, x),
            decreases len + 1 - a,
        {
            let g = match_table(self, t, a);
            match last_true(&g) {
                Some(k) => {
                    assert(matches_between(self@, t@, a as int, a + k));
                    assert forall|y: int| a + k < y <= t@.len() implies !#[trigger] matches_between(
                        self@,
                        t@,
                        a as int,
                        y,
                    ) by {
                        assert(!g@[y - a]);
                    }
                    return Some((a, a + k));
                },
                None => {
                    assert forall|b: int| a <= b <= t@.len() implies !#[trigger] matches_between(
                        self@,
                        t@,
                        a as int,
                        b,
                    ) by {
                        assert(!g@[b - a]);
                    }
                    assert(no_match_at(self@, t@, a as int));
                },
            }
            a += 1;
        }
        None
    }

    /// The first part of `text` at or after `from` that the pattern
    /// matches, as the indices of its first character and of the character
    /// behind its last: of all matches the one that starts first, and of
    /// those the longest. `None` where the pattern matches no part there.
    pub fn find(&self, text: &str, from: usize) -> (r: Option<(usize, usize)>)
        requires
            text@.len() < usize::MAX,
        ensures
            match r {
                Some((a, b)) => is_first_match(self@, text@, from as int, a as int, b as int),
                None => no_match_from(self@, text@, from as int),
            },
    {
        let t = to_chars(text);
        self.find_in(&t, from)
    }

    /// The parts of `text` that the pattern matches, from left to right,
    /// none reaching into another: the first match, then the first match
    /// behind it, and so on. Behind an empty match the search goes on one
    /// character further.
    pub fn find_all(&self, text: &str) -> (r: Vec<(usize, usize)>)
        requires
            text@.len() < usize::MAX,
        ensures
            spans_of(r@) == all_matches(self@, text@, 0),
    {
        let t = to_chars(text);
        let len = t.len();
        let mut found: Vec<(usize, usize)> = Vec::new();
        let mut from: usize = 0;
        assert(spans_of(found@) =~= Seq::empty());
        assert(Seq::<(int, int)>::empty() + all_matches(self@, text@, 0) =~= all_matches(
            self@,
            text@,
            0,
        ));
        while from <= len
            invariant
                len == t@.len(),
                len < usize::MAX,
                t@ == text@,
                from <= len + 1,
                all_matches(self@, text@, 0) == spans_of(found@) + all_matches(
                    self@,
                    text@,
                    from as int,
                ),
            decreases len + 1 - from,
        {
            let ghost before = spans_of(found@);
            match self.find_in(&t, from) {
                Some((a, b)) => {
                    proof {
                        lemma_first_match_is(self@, text@, from as int, a as int, b as int);
                    }
                    found.push((a, b));
                    let next = if b > a {
                        b
                    } else {
                        b + 1
                    };
                    proof {
                        let span = (a as int, b as int);
                        assert(spans_of(found@) =~= before.push(span));
                        assert(before + (seq![span] + all_matches(self@, text@, next as int))
                            =~= before.push(span) + all_matches(self@, text@, next as int));
                    }
                    from = next;
                },
                None => {
                    proof {
                        lemma_no_first_match(self@, text@, from as int);
                        assert(before + Seq::<(int, int)>::empty() =~= before);
                    }
                    return found;
                },
            }
        }
        assert(spans_of(found@) + Seq::<(int, int)>::empty() =~= spans_of(found@));
        found
    }
}

} // verus!
