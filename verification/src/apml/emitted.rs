//! What the grammar reads in the raw text of a well-formed tree is
//! valid: it is written the way the grammar reads it.

use vstd::prelude::*;
use crate::apml::lst;
use crate::apml::ast::{
    GlobPartView, LiteralPartView, ReplaceOp, TextUnitView, VariableDefinitionView, WordView,
};
use crate::apml::emit::{
    emit_definition, emit_tokens, emit_unit, emit_units, escaped_part, glob_class, literal_class,
    parse_expansion, parse_literal, parse_modifier, parse_number, parse_pattern, parse_substring,
    parse_units, parse_words, pattern_op, replace_op,
};
use crate::apml::roundtrip::{ends_literal, ends_pattern, ends_word, ends_words};
use crate::apml::text::{
    CharClass, in_class, is_name_char, is_name_start, lemma_run_end_bounds, run_end,
};
use crate::apml::valid::{
    is_name, is_safe, is_variable_name, may_follow, pattern_starts_with, single_op_char,
    starts_like_name, valid_definition, valid_definitions, valid_expansion, valid_glob_part,
    valid_literal_part, valid_literal_parts, valid_modifier, valid_nested_text, valid_nested_unit,
    valid_pattern, valid_text, valid_unit, valid_word, valid_words,
};
use crate::apml::wellformed::{is_raw_text, wf_definition, wf_text, wf_token, wf_tokens, wf_unit};

verus! {

/// In raw text, a run without a backslash holds only characters that stand
/// for themselves, and what follows the run is raw text.
pub proof fn lemma_raw_run(s: Seq<char>, i: int, j: int, quoted: bool)
    requires
        0 <= i <= j <= s.len(),
        is_raw_text(s, i, quoted),
        forall|x: int| i <= x < j ==> (#[trigger] s[x]) != '\\',
    ensures
        forall|x: int| i <= x < j ==> is_safe(#[trigger] s[x], quoted),
        is_raw_text(s, j, quoted),
    decreases j - i,
{
    if i < j {
        assert(s[i] != '\\');
        lemma_raw_run(s, i + 1, j, quoted);
    }
}

/// Valid parts of a literal with one more valid part are valid, unless
/// both the part and the one before it are strings.
pub proof fn lemma_valid_literal_push(
    parts: Seq<LiteralPartView>,
    p: LiteralPartView,
    quoted: bool,
    nested: bool,
)
    requires
        valid_literal_parts(parts, quoted, nested),
        valid_literal_part(p, quoted, nested),
        parts.len() > 0 && parts.last() is String ==> !(p is String),
    ensures
        valid_literal_parts(parts.push(p), quoted, nested),
{
    let all = parts.push(p);
    assert forall|k: int| 0 <= k < all.len() implies valid_literal_part(
        #[trigger] all[k],
        quoted,
        nested,
    ) by {
        if k < parts.len() {
            assert(all[k] == parts[k]);
        }
    }
    assert forall|k: int| 0 <= k < all.len() - 1 implies !(#[trigger] all[k] is String && all[k
        + 1] is String) by {
        assert(all[k] == parts[k]);
        if k + 1 < parts.len() {
            assert(all[k + 1] == parts[k + 1]);
        }
    }
}

/// A valid pattern with one more valid part is valid, unless both the part
/// and the one before it are strings.
pub proof fn lemma_valid_pattern_push(
    parts: Seq<GlobPartView>,
    p: GlobPartView,
    quoted: bool,
    replace: bool,
)
    requires
        valid_pattern(parts, quoted, replace),
        valid_glob_part(p, quoted, replace),
        parts.len() > 0 && parts.last() is String ==> !(p is String),
    ensures
        valid_pattern(parts.push(p), quoted, replace),
{
    let all = parts.push(p);
    assert forall|k: int| 0 <= k < all.len() implies valid_glob_part(
        #[trigger] all[k],
        quoted,
        replace,
    ) by {
        if k < parts.len() {
            assert(all[k] == parts[k]);
        }
    }
    assert forall|k: int| 0 <= k < all.len() - 1 implies !(#[trigger] all[k] is String && all[k
        + 1] is String) by {
        assert(all[k] == parts[k]);
        if k + 1 < parts.len() {
            assert(all[k + 1] == parts[k + 1]);
        }
    }
}

/// Whether a list starts with the elements of another.
pub open spec fn starts_with<T>(all: Seq<T>, start: Seq<T>) -> bool {
    start.len() <= all.len() && forall|k: int| 0 <= k < start.len() ==> all[k] == start[k]
}

/// Whether a part of a literal, if it is a string, starts with `c`.
pub open spec fn literal_part_starts(p: LiteralPartView, c: char) -> bool {
    match p {
        LiteralPartView::String(t) => t.len() > 0 && t[0] == c,
        _ => true,
    }
}

/// Whether a part of a pattern, if it is a string, starts with `c`.
pub open spec fn glob_part_starts(p: GlobPartView, c: char) -> bool {
    match p {
        GlobPartView::String(t) => t.len() > 0 && t[0] == c,
        _ => true,
    }
}

/// The parts of a literal that the grammar reads in raw text are valid.
pub proof fn lemma_emitted_literal(
    s: Seq<char>,
    i: int,
    quoted: bool,
    nested: bool,
    acc: Seq<LiteralPartView>,
)
    requires
        0 <= i <= s.len(),
        is_raw_text(s, i, quoted),
        parse_literal(s, i, nested, acc) is Ok,
        valid_literal_parts(acc, quoted, nested),
        acc.len() > 0 && acc.last() is String && i < s.len() ==> !in_class(
            literal_class(nested),
            s[i],
        ),
    ensures
        valid_literal_parts(parse_literal(s, i, nested, acc)->Ok_0.0, quoted, nested),
        i <= parse_literal(s, i, nested, acc)->Ok_0.1 <= s.len(),
        is_raw_text(s, parse_literal(s, i, nested, acc)->Ok_0.1, quoted),
        ends_literal(s, parse_literal(s, i, nested, acc)->Ok_0.1, nested),
        starts_with(parse_literal(s, i, nested, acc)->Ok_0.0, acc),
        i < s.len() && (s[i] == '\\' || in_class(literal_class(nested), s[i])) ==> parse_literal(
            s,
            i,
            nested,
            acc,
        )->Ok_0.0.len() > acc.len() && (acc.len() == 0 ==> literal_part_starts(
            parse_literal(s, i, nested, acc)->Ok_0.0[0],
            s[i],
        )),
    decreases s.len() - i,
{
    let class = literal_class(nested);
    if i >= s.len() {
    } else if s[i] == '\\' {
        let p = escaped_part(s[i + 1]);
        lemma_valid_literal_push(acc, p, quoted, nested);
        lemma_emitted_literal(s, i + 2, quoted, nested, acc.push(p));
        let all = parse_literal(s, i, nested, acc)->Ok_0.0;
        assert(all[acc.len() as int] == acc.push(p)[acc.len() as int]);
        assert forall|k: int| 0 <= k < acc.len() implies all[k] == acc[k] by {
            assert(all[k] == acc.push(p)[k]);
        }
    } else if in_class(class, s[i]) {
        let j = run_end(s, i, class);
        lemma_run_end_bounds(s, i, class);
        let t = s.subrange(i, j);
        let p = LiteralPartView::String(t);
        lemma_raw_run(s, i, j, quoted);
        assert(valid_literal_part(p, quoted, nested)) by {
            assert forall|k: int| 0 <= k < t.len() implies in_class(class, #[trigger] t[k])
                && is_safe(t[k], quoted) by {
                assert(t[k] == s[i + k]);
            }
        }
        lemma_valid_literal_push(acc, p, quoted, nested);
        lemma_emitted_literal(s, j, quoted, nested, acc.push(p));
        let all = parse_literal(s, i, nested, acc)->Ok_0.0;
        assert(all[acc.len() as int] == acc.push(p)[acc.len() as int]);
        assert(t[0] == s[i]);
        assert forall|k: int| 0 <= k < acc.len() implies all[k] == acc[k] by {
            assert(all[k] == acc.push(p)[k]);
        }
    } else {
    }
}

/// The part of a pattern that starts at `i`, and where it ends.
pub open spec fn glob_part_at(s: Seq<char>, i: int, replace: bool) -> (GlobPartView, int) {
    if s[i] == '*' {
        (GlobPartView::AnyString, i + 1)
    } else if s[i] == '?' {
        (GlobPartView::AnyChar, i + 1)
    } else if s[i] == '[' {
        let e = run_end(s, i + 1, CharClass::Bracketed);
        (GlobPartView::Range(s.subrange(i + 1, e)), e + 1)
    } else if s[i] == '\\' {
        (GlobPartView::Escaped(s[i + 1]), i + 2)
    } else {
        let e = run_end(s, i, glob_class(replace));
        (GlobPartView::String(s.subrange(i, e)), e)
    }
}

/// Whether a part of a pattern starts at `i`.
pub open spec fn starts_glob_part(s: Seq<char>, i: int, replace: bool) -> bool {
    0 <= i < s.len() && (s[i] == '*' || s[i] == '?' || s[i] == '[' || s[i] == '\\' || in_class(
        glob_class(replace),
        s[i],
    ))
}

/// A range that the grammar reads in raw text is valid.
pub proof fn lemma_emitted_range(s: Seq<char>, i: int, quoted: bool, replace: bool)
    requires
        0 <= i < s.len(),
        is_raw_text(s, i, quoted),
        s[i] == '[',
        run_end(s, i + 1, CharClass::Bracketed) < s.len(),
        s[run_end(s, i + 1, CharClass::Bracketed)] == ']',
    ensures
        valid_glob_part(glob_part_at(s, i, replace).0, quoted, replace),
        i < glob_part_at(s, i, replace).1 <= s.len(),
        is_raw_text(s, glob_part_at(s, i, replace).1, quoted),
{
    let e = run_end(s, i + 1, CharClass::Bracketed);
    lemma_run_end_bounds(s, i + 1, CharClass::Bracketed);
    assert forall|x: int| i + 1 <= x < e implies (#[trigger] s[x]) != '\\' by {
        assert(in_class(CharClass::Bracketed, s[x]));
    }
    lemma_raw_run(s, i + 1, e, quoted);
    let r = s.subrange(i + 1, e);
    assert forall|k: int| 0 <= k < r.len() implies (#[trigger] r[k]) != ']' && is_safe(
        r[k],
        quoted,
    ) by {
        assert(r[k] == s[i + 1 + k]);
        assert(in_class(CharClass::Bracketed, s[i + 1 + k]));
    }
}

/// A string part that the grammar reads in raw text is valid.
pub proof fn lemma_emitted_glob_string(s: Seq<char>, i: int, quoted: bool, replace: bool)
    requires
        0 <= i < s.len(),
        is_raw_text(s, i, quoted),
        in_class(glob_class(replace), s[i]),
    ensures
        glob_part_at(s, i, replace).0 is String,
        valid_glob_part(glob_part_at(s, i, replace).0, quoted, replace),
        glob_part_starts(glob_part_at(s, i, replace).0, s[i]),
        i < glob_part_at(s, i, replace).1 <= s.len(),
        is_raw_text(s, glob_part_at(s, i, replace).1, quoted),
        glob_part_at(s, i, replace).1 < s.len() ==> !in_class(
            glob_class(replace),
            s[glob_part_at(s, i, replace).1],
        ),
{
    let class = glob_class(replace);
    let e = run_end(s, i, class);
    lemma_run_end_bounds(s, i, class);
    assert forall|x: int| i <= x < e implies (#[trigger] s[x]) != '\\' by {
        assert(in_class(class, s[x]));
    }
    lemma_raw_run(s, i, e, quoted);
    let t = s.subrange(i, e);
    assert forall|k: int| 0 <= k < t.len() implies in_class(class, #[trigger] t[k]) && is_safe(
        t[k],
        quoted,
    ) by {
        assert(t[k] == s[i + k]);
    }
    assert(t[0] == s[i]);
}

/// The part of a pattern that the grammar reads at `i` in raw text is
/// valid, and the grammar goes on behind it.
pub proof fn lemma_emitted_glob_part(
    s: Seq<char>,
    i: int,
    quoted: bool,
    replace: bool,
    acc: Seq<GlobPartView>,
)
    requires
        starts_glob_part(s, i, replace),
        is_raw_text(s, i, quoted),
        parse_pattern(s, i, replace, acc) is Ok,
    ensures
        parse_pattern(s, i, replace, acc) == parse_pattern(
            s,
            glob_part_at(s, i, replace).1,
            replace,
            acc.push(glob_part_at(s, i, replace).0),
        ),
        valid_glob_part(glob_part_at(s, i, replace).0, quoted, replace),
        glob_part_starts(glob_part_at(s, i, replace).0, s[i]),
        i < glob_part_at(s, i, replace).1 <= s.len(),
        is_raw_text(s, glob_part_at(s, i, replace).1, quoted),
        glob_part_at(s, i, replace).0 is String <==> in_class(glob_class(replace), s[i]),
        glob_part_at(s, i, replace).0 is String && glob_part_at(s, i, replace).1 < s.len()
            ==> !in_class(glob_class(replace), s[glob_part_at(s, i, replace).1]),
{
    if s[i] == '*' || s[i] == '?' {
    } else if s[i] == '[' {
        lemma_run_end_bounds(s, i + 1, CharClass::Bracketed);
        lemma_emitted_range(s, i, quoted, replace);
    } else if s[i] == '\\' {
    } else {
        lemma_emitted_glob_string(s, i, quoted, replace);
    }
}

/// The parts of a pattern that the grammar reads in raw text are valid.
pub proof fn lemma_emitted_pattern(
    s: Seq<char>,
    i: int,
    quoted: bool,
    replace: bool,
    acc: Seq<GlobPartView>,
)
    requires
        0 <= i <= s.len(),
        is_raw_text(s, i, quoted),
        parse_pattern(s, i, replace, acc) is Ok,
        valid_pattern(acc, quoted, replace),
        acc.len() > 0 && acc.last() is String && i < s.len() ==> !in_class(
            glob_class(replace),
            s[i],
        ),
    ensures
        valid_pattern(parse_pattern(s, i, replace, acc)->Ok_0.0, quoted, replace),
        i <= parse_pattern(s, i, replace, acc)->Ok_0.1 <= s.len(),
        is_raw_text(s, parse_pattern(s, i, replace, acc)->Ok_0.1, quoted),
        ends_pattern(s, parse_pattern(s, i, replace, acc)->Ok_0.1, replace),
        starts_with(parse_pattern(s, i, replace, acc)->Ok_0.0, acc),
        parse_pattern(s, i, replace, acc)->Ok_0.0.len() == acc.len() ==> parse_pattern(
            s,
            i,
            replace,
            acc,
        )->Ok_0.1 == i,
        acc.len() == 0 && parse_pattern(s, i, replace, acc)->Ok_0.0.len() > 0 ==> i < s.len()
            && glob_part_starts(parse_pattern(s, i, replace, acc)->Ok_0.0[0], s[i]),
    decreases s.len() - i,
{
    if starts_glob_part(s, i, replace) {
        let (p, j) = glob_part_at(s, i, replace);
        lemma_emitted_glob_part(s, i, quoted, replace, acc);
        lemma_valid_pattern_push(acc, p, quoted, replace);
        lemma_emitted_pattern(s, j, quoted, replace, acc.push(p));
        let all = parse_pattern(s, i, replace, acc)->Ok_0.0;
        assert(all[acc.len() as int] == acc.push(p)[acc.len() as int]);
        assert forall|k: int| 0 <= k < acc.len() implies all[k] == acc[k] by {
            assert(all[k] == acc.push(p)[k]);
        }
    }
}

/// Behind a number that the grammar reads in raw text stands raw text.
pub proof fn lemma_emitted_number(s: Seq<char>, i: int, quoted: bool)
    requires
        0 <= i <= s.len(),
        is_raw_text(s, i, quoted),
        parse_number(s, i) is Ok,
    ensures
        i < parse_number(s, i)->Ok_0.1 <= s.len(),
        is_raw_text(s, parse_number(s, i)->Ok_0.1, quoted),
{
    let j = run_end(s, i, CharClass::Digit);
    lemma_run_end_bounds(s, i, CharClass::Digit);
    assert forall|x: int| i <= x < j implies (#[trigger] s[x]) != '\\' by {
        assert(in_class(CharClass::Digit, s[x]));
    }
    lemma_raw_run(s, i, j, quoted);
}

/// A run of characters of a name in raw text is a name, and what follows
/// it is raw text.
pub proof fn lemma_emitted_name(s: Seq<char>, i: int, quoted: bool)
    requires
        0 <= i <= s.len(),
        is_raw_text(s, i, quoted),
        i < run_end(s, i, CharClass::Name),
    ensures
        run_end(s, i, CharClass::Name) <= s.len(),
        is_name(s.subrange(i, run_end(s, i, CharClass::Name))),
        is_raw_text(s, run_end(s, i, CharClass::Name), quoted),
        run_end(s, i, CharClass::Name) < s.len() ==> !is_name_char(
            s[run_end(s, i, CharClass::Name)],
        ),
{
    let j = run_end(s, i, CharClass::Name);
    lemma_run_end_bounds(s, i, CharClass::Name);
    assert forall|x: int| i <= x < j implies (#[trigger] s[x]) != '\\' by {
        assert(in_class(CharClass::Name, s[x]));
    }
    lemma_raw_run(s, i, j, quoted);
    let n = s.subrange(i, j);
    assert forall|k: int| 0 <= k < n.len() implies is_name_char(#[trigger] n[k]) by {
        assert(in_class(CharClass::Name, s[i + k]));
    }
}

/// Valid words with one more valid word, which can be told apart from the
/// last, are valid words.
pub proof fn lemma_valid_words_push(ws: Seq<WordView>, w: WordView, quoted: bool, nested: bool)
    requires
        valid_words(ws, quoted, nested),
        valid_word(w, quoted, nested),
        ws.len() > 0 ==> may_follow(ws.last(), w),
    ensures
        valid_words(ws.push(w), quoted, nested),
{
    let all = ws.push(w);
    assert forall|k: int| 0 <= k < all.len() implies valid_word(
        #[trigger] all[k],
        quoted,
        nested,
    ) by {
        if k < ws.len() {
            assert(all[k] == ws[k]);
        }
    }
    assert forall|k: int| 0 <= k < all.len() - 1 implies may_follow(
        #[trigger] all[k],
        all[k + 1],
    ) by {
        assert(all[k] == ws[k]);
        if k + 1 < ws.len() {
            assert(all[k + 1] == ws[k + 1]);
        }
    }
}

/// A valid text inside an expansion with one more valid unit is valid,
/// unless both the unit and the one before it are units of words.
pub proof fn lemma_valid_units_push(us: Seq<TextUnitView>, u: TextUnitView, quoted: bool)
    requires
        valid_nested_text(us, quoted),
        valid_nested_unit(u, quoted),
        us.len() > 0 && us.last() is Unquoted ==> !(u is Unquoted),
    ensures
        valid_nested_text(us.push(u), quoted),
{
    let all = us.push(u);
    assert forall|k: int| 0 <= k < all.len() implies valid_nested_unit(
        #[trigger] all[k],
        quoted,
    ) by {
        if k < us.len() {
            assert(all[k] == us[k]);
        }
    }
    assert forall|k: int| 0 <= k < all.len() - 1 implies !(#[trigger] all[k] is Unquoted
        && all[k + 1] is Unquoted) by {
        assert(all[k] == us[k]);
        if k + 1 < us.len() {
            assert(all[k + 1] == us[k + 1]);
        }
    }
}

/// Whether a word starts at `i`.
pub open spec fn starts_word(s: Seq<char>, i: int, nested: bool) -> bool {
    0 <= i < s.len() && (s[i] == '$' || s[i] == '\\' || in_class(literal_class(nested), s[i]))
}

/// The word that starts at `i`, and where it ends.
pub open spec fn word_at(s: Seq<char>, i: int, nested: bool) -> (WordView, int) {
    if s[i] == '$' {
        if s[i + 1] == '{' {
            (
                WordView::BracedVariable(parse_expansion(s, i + 2)->Ok_0.0),
                parse_expansion(s, i + 2)->Ok_0.1,
            )
        } else if is_name_start(s[i + 1]) {
            let j = run_end(s, i + 1, CharClass::Name);
            (WordView::UnbracedVariable(s.subrange(i + 1, j)), j)
        } else {
            (WordView::UnbracedVariable(s.subrange(i + 1, i + 2)), i + 2)
        }
    } else {
        (
            WordView::Literal(parse_literal(s, i, nested, Seq::empty())->Ok_0.0),
            parse_literal(s, i, nested, Seq::empty())->Ok_0.1,
        )
    }
}

/// The word that the grammar reads at `i` in raw text is valid, and the
/// grammar goes on behind it.
pub proof fn lemma_emitted_word(
    s: Seq<char>,
    i: int,
    quoted: bool,
    nested: bool,
    acc: Seq<WordView>,
)
    requires
        starts_word(s, i, nested),
        is_raw_text(s, i, quoted),
        parse_words(s, i, nested, acc) is Ok,
    ensures
        parse_words(s, i, nested, acc) == parse_words(
            s,
            word_at(s, i, nested).1,
            nested,
            acc.push(word_at(s, i, nested).0),
        ),
        valid_word(word_at(s, i, nested).0, quoted, nested),
        i < word_at(s, i, nested).1 <= s.len(),
        is_raw_text(s, word_at(s, i, nested).1, quoted),
        ends_word(s, word_at(s, i, nested).1, word_at(s, i, nested).0, nested),
        word_at(s, i, nested).0 is Literal <==> s[i] != '$',
        !is_name_char(s[i]) ==> !starts_like_name(word_at(s, i, nested).0),
    decreases s.len() - i, 0nat,
{
    if s[i] == '$' {
        if i + 1 < s.len() && s[i + 1] == '{' {
            lemma_raw_run(s, i, i + 2, quoted);
            lemma_emitted_expansion(s, i + 2, quoted);
        } else if i + 1 < s.len() && is_name_start(s[i + 1]) {
            lemma_raw_run(s, i, i + 1, quoted);
            lemma_run_end_bounds(s, i + 1, CharClass::Name);
            lemma_emitted_name(s, i + 1, quoted);
            let n = s.subrange(i + 1, run_end(s, i + 1, CharClass::Name));
            assert(n[0] == s[i + 1]);
        } else {
            let n = s.subrange(i + 1, i + 2);
            assert(n[0] == s[i + 1]);
            assert(is_variable_name(n));
            lemma_raw_run(s, i, i + 2, quoted);
        }
    } else {
        lemma_emitted_literal(s, i, quoted, nested, Seq::empty());
    }
}

/// The words that the grammar reads in raw text are valid.
pub proof fn lemma_emitted_words(
    s: Seq<char>,
    i: int,
    quoted: bool,
    nested: bool,
    acc: Seq<WordView>,
)
    requires
        0 <= i <= s.len(),
        is_raw_text(s, i, quoted),
        parse_words(s, i, nested, acc) is Ok,
        valid_words(acc, quoted, nested),
        acc.len() > 0 ==> ends_word(s, i, acc.last(), nested),
    ensures
        valid_words(parse_words(s, i, nested, acc)->Ok_0.0, quoted, nested),
        i <= parse_words(s, i, nested, acc)->Ok_0.1 <= s.len(),
        is_raw_text(s, parse_words(s, i, nested, acc)->Ok_0.1, quoted),
        ends_words(s, parse_words(s, i, nested, acc)->Ok_0.1, nested),
        parse_words(s, i, nested, acc)->Ok_0.0.len() >= acc.len(),
        starts_word(s, i, nested) ==> parse_words(s, i, nested, acc)->Ok_0.0.len() > acc.len()
            && i < parse_words(s, i, nested, acc)->Ok_0.1,
    decreases s.len() - i, 1nat,
{
    if starts_word(s, i, nested) {
        let (w, j) = word_at(s, i, nested);
        lemma_emitted_word(s, i, quoted, nested, acc);
        lemma_valid_words_push(acc, w, quoted, nested);
        lemma_emitted_words(s, j, quoted, nested, acc.push(w));
    }
}

/// The expansion that the grammar reads in raw text is valid.
pub proof fn lemma_emitted_expansion(s: Seq<char>, i: int, quoted: bool)
    requires
        0 <= i <= s.len(),
        is_raw_text(s, i, quoted),
        parse_expansion(s, i) is Ok,
    ensures
        valid_expansion(parse_expansion(s, i)->Ok_0.0, quoted),
        i < parse_expansion(s, i)->Ok_0.1 <= s.len(),
        is_raw_text(s, parse_expansion(s, i)->Ok_0.1, quoted),
    decreases s.len() - i, 0nat,
{
    if i < s.len() && s[i] == '#' {
        lemma_raw_run(s, i, i + 1, quoted);
        lemma_emitted_name(s, i + 1, quoted);
        let j = run_end(s, i + 1, CharClass::Name);
        lemma_raw_run(s, j, j + 1, quoted);
    } else {
        let j = run_end(s, i, CharClass::Name);
        lemma_emitted_name(s, i, quoted);
        lemma_emitted_modifier(s, j, quoted);
        let k = parse_modifier(s, j)->Ok_0.1;
        lemma_raw_run(s, k, k + 1, quoted);
    }
}

/// The substring modifier that the grammar reads in raw text is followed by raw text.
pub proof fn lemma_emitted_substring(s: Seq<char>, i: int, quoted: bool)
    requires
        0 <= i <= s.len(),
        is_raw_text(s, i, quoted),
        parse_substring(s, i) is Ok,
    ensures
        i < parse_substring(s, i)->Ok_0.1 <= s.len(),
        is_raw_text(s, parse_substring(s, i)->Ok_0.1, quoted),
        valid_modifier(parse_substring(s, i)->Ok_0.0, quoted),
{
    lemma_emitted_number(s, i, quoted);
    let k = parse_number(s, i)->Ok_0.1;
    if k < s.len() && s[k] == ':' {
        lemma_emitted_number(s, k + 1, quoted);
    }
}

/// The modifier with one pattern that the grammar reads in raw text is valid.
pub proof fn lemma_emitted_pattern_modifier(s: Seq<char>, j: int, quoted: bool)
    requires
        0 <= j < s.len(),
        is_raw_text(s, j, quoted),
        s[j] == '#' || s[j] == '%' || s[j] == '^' || s[j] == ',',
        parse_modifier(s, j) is Ok,
    ensures
        parse_modifier(s, j)->Ok_0.0 is Some,
        valid_modifier(parse_modifier(s, j)->Ok_0.0->0, quoted),
        j <= parse_modifier(s, j)->Ok_0.1 <= s.len(),
        is_raw_text(s, parse_modifier(s, j)->Ok_0.1, quoted),
{
    let doubled = j + 1 < s.len() && s[j + 1] == s[j];
    let start = if doubled {
        j + 2
    } else {
        j + 1
    };
    lemma_raw_run(s, j, start, quoted);
    lemma_emitted_pattern(s, start, quoted, false, Seq::empty());
    let pattern = parse_pattern(s, start, false, Seq::empty())->Ok_0.0;
    let op = pattern_op(s[j], doubled);
    if !doubled {
        assert(single_op_char(op) == Some(s[j]));
        assert(!pattern_starts_with(pattern, s[j]));
    } else {
        assert(single_op_char(op) is None);
    }
}

/// The replacement that the grammar reads in raw text is valid.
pub proof fn lemma_emitted_replace_modifier(s: Seq<char>, j: int, quoted: bool)
    requires
        0 <= j < s.len(),
        is_raw_text(s, j, quoted),
        s[j] == '/',
        parse_modifier(s, j) is Ok,
    ensures
        parse_modifier(s, j)->Ok_0.0 is Some,
        valid_modifier(parse_modifier(s, j)->Ok_0.0->0, quoted),
        j <= parse_modifier(s, j)->Ok_0.1 <= s.len(),
        is_raw_text(s, parse_modifier(s, j)->Ok_0.1, quoted),
    decreases s.len() - j, 0nat,
{
    let op = replace_op(s, j);
    let start = if op == ReplaceOp::Once {
        j + 1
    } else {
        j + 2
    };
    lemma_raw_run(s, j, start, quoted);
    lemma_emitted_pattern(s, start, quoted, true, Seq::empty());
    let pattern = parse_pattern(s, start, true, Seq::empty())->Ok_0.0;
    let k = parse_pattern(s, start, true, Seq::empty())->Ok_0.1;
    lemma_raw_run(s, k, k + 1, quoted);
    lemma_emitted_units(s, k + 1, quoted, Seq::empty());
}

/// The modifier that the grammar reads in raw text is valid.
pub proof fn lemma_emitted_modifier(s: Seq<char>, j: int, quoted: bool)
    requires
        0 <= j < s.len(),
        is_raw_text(s, j, quoted),
        parse_modifier(s, j) is Ok,
    ensures
        parse_modifier(s, j)->Ok_0.0 is Some ==> valid_modifier(
            parse_modifier(s, j)->Ok_0.0->0,
            quoted,
        ),
        j <= parse_modifier(s, j)->Ok_0.1 <= s.len(),
        is_raw_text(s, parse_modifier(s, j)->Ok_0.1, quoted),
    decreases s.len() - j, 1nat,
{
    if s[j] == '}' {
    } else if s[j] == ':' {
        if s[j + 1] == '?' || s[j + 1] == '-' || s[j + 1] == '+' {
            lemma_raw_run(s, j, j + 2, quoted);
            lemma_emitted_units(s, j + 2, quoted, Seq::empty());
        } else {
            lemma_raw_run(s, j, j + 1, quoted);
            lemma_emitted_substring(s, j + 1, quoted);
        }
    } else if s[j] == '#' || s[j] == '%' || s[j] == '^' || s[j] == ',' {
        lemma_emitted_pattern_modifier(s, j, quoted);
    } else {
        lemma_emitted_replace_modifier(s, j, quoted);
    }
}

/// The text inside an expansion that the grammar reads in raw text is valid.
pub proof fn lemma_emitted_units(s: Seq<char>, i: int, quoted: bool, acc: Seq<TextUnitView>)
    requires
        0 <= i <= s.len(),
        is_raw_text(s, i, quoted),
        parse_units(s, i, acc) is Ok,
        valid_nested_text(acc, quoted),
        acc.len() > 0 && acc.last() is Unquoted ==> ends_words(s, i, true),
    ensures
        valid_nested_text(parse_units(s, i, acc)->Ok_0.0, quoted),
        i <= parse_units(s, i, acc)->Ok_0.1 <= s.len(),
        is_raw_text(s, parse_units(s, i, acc)->Ok_0.1, quoted),
    decreases s.len() - i, 2nat,
{
    if i >= s.len() || s[i] == '}' {
    } else if s[i] == '\'' {
        let e = run_end(s, i + 1, CharClass::NestedQuoted);
        lemma_run_end_bounds(s, i + 1, CharClass::NestedQuoted);
        assert forall|x: int| i + 1 <= x < e implies (#[trigger] s[x]) != '\\' by {
            assert(in_class(CharClass::NestedQuoted, s[x]));
        }
        lemma_raw_run(s, i, i + 1, quoted);
        lemma_raw_run(s, i + 1, e, quoted);
        lemma_raw_run(s, e, e + 1, quoted);
        let r = s.subrange(i + 1, e);
        let u = TextUnitView::SingleQuote(r);
        assert(valid_nested_unit(u, quoted)) by {
            assert(is_safe(s[i], quoted));
            assert forall|k: int| 0 <= k < r.len() implies (#[trigger] r[k]) != '\'' && is_safe(
                r[k],
                quoted,
            ) by {
                assert(r[k] == s[i + 1 + k]);
                assert(in_class(CharClass::NestedQuoted, s[i + 1 + k]));
            }
        }
        lemma_valid_units_push(acc, u, quoted);
        lemma_emitted_units(s, e + 1, quoted, acc.push(u));
    } else {
        assert(starts_word(s, i, true));
        lemma_emitted_words(s, i, quoted, true, Seq::empty());
        let (ws, j) = parse_words(s, i, true, Seq::empty())->Ok_0;
        let u = TextUnitView::Unquoted(ws);
        lemma_valid_units_push(acc, u, quoted);
        lemma_emitted_units(s, j, quoted, acc.push(u));
    }
}

/// The meaning of a well-formed unit is valid.
pub proof fn lemma_emitted_unit_valid(u: lst::TextUnitView)
    requires
        wf_unit(u),
        emit_unit(u) is Ok,
    ensures
        valid_unit(emit_unit(u)->Ok_0),
        emit_unit(u)->Ok_0 is Unquoted <==> u is Unquoted,
{
    match u {
        lst::TextUnitView::Unquoted(raw) => {
            assert(starts_word(raw, 0, false));
            assert(valid_words(Seq::<WordView>::empty(), false, false));
            lemma_emitted_words(raw, 0, false, false, Seq::empty());
        },
        lst::TextUnitView::SingleQuote(raw) => {},
        lst::TextUnitView::DoubleQuote(raw) => {
            assert(valid_words(Seq::<WordView>::empty(), true, false));
            lemma_emitted_words(raw, 0, true, false, Seq::empty());
        },
    }
}

/// The meaning of the units of a well-formed text from `i` on, behind the
/// valid meaning of the units before, is valid.
pub proof fn lemma_emitted_units_valid(
    t: Seq<lst::TextUnitView>,
    i: int,
    acc: Seq<TextUnitView>,
)
    requires
        wf_text(t),
        0 <= i <= t.len(),
        emit_units(t, i, acc) is Ok,
        valid_text(acc),
        acc.len() == i,
        i > 0 ==> (acc.last() is Unquoted <==> t[i - 1] is Unquoted),
    ensures
        valid_text(emit_units(t, i, acc)->Ok_0),
    decreases t.len() - i,
{
    if i < t.len() {
        let u = emit_unit(t[i])->Ok_0;
        lemma_emitted_unit_valid(t[i]);
        let next = acc.push(u);
        assert(valid_text(next)) by {
            assert forall|k: int| 0 <= k < next.len() implies valid_unit(#[trigger] next[k]) by {
                if k < acc.len() {
                    assert(next[k] == acc[k]);
                }
            }
            assert forall|k: int| 0 <= k < next.len() - 1 implies !(#[trigger] next[k] is Unquoted
                && next[k + 1] is Unquoted) by {
                assert(next[k] == acc[k]);
                if k + 1 < acc.len() {
                    assert(next[k + 1] == acc[k + 1]);
                } else {
                    assert(!(t[i - 1] is Unquoted && t[i - 1 + 1] is Unquoted));
                }
            }
        }
        lemma_emitted_units_valid(t, i + 1, next);
    }
}

/// The meaning of a well-formed definition is valid.
pub proof fn lemma_emitted_definition_valid(d: lst::VariableDefinitionView)
    requires
        wf_definition(d),
        emit_definition(d) is Ok,
    ensures
        valid_definition(emit_definition(d)->Ok_0),
{
    let t = d.value->String_0;
    assert(valid_text(Seq::<TextUnitView>::empty()));
    lemma_emitted_units_valid(t, 0, Seq::empty());
}

/// The meaning of the definitions among well-formed tokens from `i` on,
/// behind valid definitions, is valid.
pub proof fn lemma_emitted_tokens_valid(
    ts: Seq<lst::TokenView>,
    i: int,
    acc: Seq<VariableDefinitionView>,
)
    requires
        wf_tokens(ts),
        0 <= i <= ts.len(),
        emit_tokens(ts, i, acc) is Ok,
        valid_definitions(acc),
    ensures
        valid_definitions(emit_tokens(ts, i, acc)->Ok_0),
    decreases ts.len() - i,
{
    if i < ts.len() {
        assert(wf_token(ts[i]));
        match ts[i] {
            lst::TokenView::Variable(d) => {
                lemma_emitted_definition_valid(d);
                let next = acc.push(emit_definition(d)->Ok_0);
                assert forall|k: int| 0 <= k < next.len() implies valid_definition(
                    #[trigger] next[k],
                ) by {
                    if k < acc.len() {
                        assert(next[k] == acc[k]);
                    }
                }
                lemma_emitted_tokens_valid(ts, i + 1, next);
            },
            _ => {
                lemma_emitted_tokens_valid(ts, i + 1, acc);
            },
        }
    }
}

} // verus!
