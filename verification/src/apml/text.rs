//! Character classes and scanning of runs of characters.

use vstd::prelude::*;

verus! {

/// A set of characters that a scanner can consume as one run.
#[derive(Clone, Copy, Debug, PartialEq, Eq, Structural)]
pub enum CharClass {
    /// ASCII letters, digits and the underscore.
    Name,
    /// ASCII digits.
    Digit,
    /// Everything but the newline.
    NotNewline,
    /// Everything but the single quote and the newline.
    SingleQuoted,
    /// What can stand between single quotes inside braces: everything but
    /// the single quote and the backslash.
    NestedQuoted,
    /// What can stand between brackets: everything but the closing bracket
    /// and the backslash.
    Bracketed,
    /// Characters that stand for themselves in a literal word at the top level.
    Literal,
    /// Characters that stand for themselves in a literal word inside braces.
    NestedLiteral,
    /// Characters that stand for themselves in a glob pattern.
    Glob,
    /// Characters that stand for themselves in the pattern of a replacement.
    ReplaceGlob,
    /// Characters that need no backslash between double quotes.
    Quotable,
}

/// An ASCII digit.
pub open spec fn is_digit(c: char) -> bool {
    '0' <= c <= '9'
}

/// What a name can start with: an ASCII letter or the underscore.
pub open spec fn is_name_start(c: char) -> bool {
    ||| 'a' <= c <= 'z'
    ||| 'A' <= c <= 'Z'
    ||| c == '_'
}

/// What a name is made of: ASCII letters, digits and the underscore.
pub open spec fn is_name_char(c: char) -> bool {
    is_name_start(c) || is_digit(c)
}

/// The characters that a backslash may escape: everything but ASCII letters and digits.
pub open spec fn is_escapable(c: char) -> bool {
    !('a' <= c <= 'z') && !('A' <= c <= 'Z') && !is_digit(c)
}

/// Whether `c` is of the class `k`.
pub open spec fn in_class(k: CharClass, c: char) -> bool {
    match k {
        CharClass::Name => is_name_char(c),
        CharClass::Digit => is_digit(c),
        CharClass::NotNewline => c != '\n',
        CharClass::SingleQuoted => c != '\'' && c != '\n',
        CharClass::NestedQuoted => c != '\'' && c != '\\',
        CharClass::Bracketed => c != ']' && c != '\\',
        CharClass::Literal => c != '$' && c != '\\',
        CharClass::NestedLiteral => c != '$' && c != '\\' && c != '}' && c != '\'',
        CharClass::Glob => c != '*' && c != '?' && c != '[' && c != '\\' && c != '}',
        CharClass::ReplaceGlob => c != '*' && c != '?' && c != '[' && c != '\\' && c != '}' && c
            != '/',
        CharClass::Quotable => c != '$' && c != '\\' && c != '"',
    }
}

/// The end of the longest run of characters of class `k` that starts at `i`.
pub open spec fn run_end(s: Seq<char>, i: int, k: CharClass) -> int
    decreases s.len() - i,
{
    if 0 <= i < s.len() && in_class(k, s[i]) {
        run_end(s, i + 1, k)
    } else {
        i
    }
}

/// A run ends within the text; all of its characters are of the class,
/// and the character behind it, if there is one, is not.
pub proof fn lemma_run_end_bounds(s: Seq<char>, i: int, k: CharClass)
    requires
        0 <= i <= s.len(),
    ensures
        i <= run_end(s, i, k) <= s.len(),
        forall|x: int| i <= x < run_end(s, i, k) ==> in_class(k, #[trigger] s[x]),
        run_end(s, i, k) < s.len() ==> !in_class(k, s[run_end(s, i, k)]),
        i < s.len() && in_class(k, s[i]) ==> i < run_end(s, i, k),
    decreases s.len() - i,
{
    if i < s.len() && in_class(k, s[i]) {
        lemma_run_end_bounds(s, i + 1, k);
    }
}

/// A run that is followed by the end of the text, or by a character outside the class, is the longest.
pub proof fn lemma_run_end_is(s: Seq<char>, i: int, j: int, k: CharClass)
    requires
        0 <= i <= j <= s.len(),
        forall|x: int| i <= x < j ==> in_class(k, #[trigger] s[x]),
        j < s.len() ==> !in_class(k, s[j]),
    ensures
        run_end(s, i, k) == j,
    decreases j - i,
{
    if i < j {
        lemma_run_end_is(s, i + 1, j, k);
    }
}

/// Whether the text `r` stands in `s` at `i`.
pub open spec fn has_at(s: Seq<char>, i: int, r: Seq<char>) -> bool {
    0 <= i && i + r.len() <= s.len() && s.subrange(i, i + r.len()) == r
}

/// Where two texts stand one behind the other, each of them stands.
pub proof fn lemma_has_at_split(s: Seq<char>, i: int, a: Seq<char>, b: Seq<char>)
    requires
        has_at(s, i, a + b),
    ensures
        has_at(s, i, a),
        has_at(s, i + a.len(), b),
{
    assert(s.subrange(i, i + a.len()) =~= (a + b).subrange(0, a.len() as int));
    assert((a + b).subrange(0, a.len() as int) =~= a);
    assert(s.subrange(i + a.len(), i + a.len() + b.len()) =~= (a + b).subrange(
        a.len() as int,
        (a + b).len() as int,
    ));
    assert((a + b).subrange(a.len() as int, (a + b).len() as int) =~= b);
}

/// The characters of a text that stands in `s` are those of `s`.
pub proof fn lemma_has_at_index(s: Seq<char>, i: int, r: Seq<char>)
    requires
        has_at(s, i, r),
    ensures
        forall|k: int| 0 <= k < r.len() ==> s[i + k] == #[trigger] r[k],
{
    assert forall|k: int| 0 <= k < r.len() implies s[i + k] == #[trigger] r[k] by {
        assert(s.subrange(i, i + r.len())[k] == s[i + k]);
    }
}

/// Says whether `c` is an ASCII digit.
pub fn is_digit_char(c: char) -> (r: bool)
    ensures
        r == is_digit(c),
{
    '0' <= c && c <= '9'
}

/// Says whether a name can start with `c`.
pub fn is_name_start_char(c: char) -> (r: bool)
    ensures
        r == is_name_start(c),
{
    ('a' <= c && c <= 'z') || ('A' <= c && c <= 'Z') || c == '_'
}

/// Says whether `c` can stand in a name.
pub fn is_name_character(c: char) -> (r: bool)
    ensures
        r == is_name_char(c),
{
    is_name_start_char(c) || is_digit_char(c)
}

/// Says whether a backslash may escape `c`.
pub fn is_escapable_char(c: char) -> (r: bool)
    ensures
        r == is_escapable(c),
{
    !('a' <= c && c <= 'z') && !('A' <= c && c <= 'Z') && !is_digit_char(c)
}

/// Says whether `c` is of the class `k`.
pub fn class_contains(k: CharClass, c: char) -> (r: bool)
    ensures
        r == in_class(k, c),
{
    match k {
        CharClass::Name => is_name_character(c),
        CharClass::Digit => is_digit_char(c),
        CharClass::NotNewline => c != '\n',
        CharClass::SingleQuoted => c != '\'' && c != '\n',
        CharClass::NestedQuoted => c != '\'' && c != '\\',
        CharClass::Bracketed => c != ']' && c != '\\',
        CharClass::Literal => c != '$' && c != '\\',
        CharClass::NestedLiteral => c != '$' && c != '\\' && c != '}' && c != '\'',
        CharClass::Glob => c != '*' && c != '?' && c != '[' && c != '\\' && c != '}',
        CharClass::ReplaceGlob => c != '*' && c != '?' && c != '[' && c != '\\' && c != '}' && c
            != '/',
        CharClass::Quotable => c != '$' && c != '\\' && c != '"',
    }
}

/// Finds the end of the longest run of characters of class `k` that starts at `i`.
pub fn scan_run(s: &Vec<char>, i: usize, k: CharClass) -> (j: usize)
    requires
        i <= s@.len(),
    ensures
        j == run_end(s@, i as int, k),
        i <= j <= s@.len(),
{
    let mut j: usize = i;
    while j < s.len() && class_contains(k, s[j])
        invariant
            i <= j <= s@.len(),
            run_end(s@, i as int, k) == run_end(s@, j as int, k),
        decreases s@.len() - j,
    {
        j += 1;
    }
    proof {
        lemma_run_end_bounds(s@, j as int, k);
    }
    j
}

/// Taken on trust of `String::push`: the string holds afterwards what it
/// held before, and `c` behind it.
pub assume_specification[ std::string::String::push ](s: &mut std::string::String, c: char)
    ensures
        final(s)@ == old(s)@.push(c),
;

/// The characters of `s`, in order.
pub fn to_chars(s: &str) -> (r: Vec<char>)
    ensures
        r@ == s@,
{
    let mut v: Vec<char> = Vec::new();
    for c in it: s.chars()
        invariant
            v@ == it.seq().take(it.index()),
    {
        v.push(c);
    }
    v
}

/// The character of `s` at `i`.
pub fn char_at(s: &Vec<char>, i: usize) -> (c: char)
    requires
        i < s@.len(),
    ensures
        c == s@[i as int],
{
    s[i]
}

/// The characters of `v` from `from` up to `to`, as a string.
pub fn slice_string(v: &Vec<char>, from: usize, to: usize) -> (r: String)
    requires
        from <= to <= v@.len(),
    ensures
        r@ == v@.subrange(from as int, to as int),
{
    let mut s = String::new();
    let mut i: usize = from;
    while i < to
        invariant
            from <= i <= to <= v@.len(),
            s@ == v@.subrange(from as int, i as int),
        decreases to - i,
    {
        s.push(v[i]);
        i += 1;
        assert(s@ =~= v@.subrange(from as int, i as int));
    }
    s
}

} // verus!
