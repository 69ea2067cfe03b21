//! What is written out is read back as it was: the proofs that the
//! grammar reads the text of a valid value as that very value.

use vstd::prelude::*;
use crate::apml::ast::{
    BracedExpansionView, GlobPartView, LiteralPartView, ModifierView, PatternOp, ReplaceOp, TextOp,
    TextUnitView, WordView,
};
use crate::apml::emit::{
    EmitError, digit_value, digits_value, glob_class, literal_class, parse_expansion, parse_literal,
    parse_modifier, parse_number, parse_pattern, parse_units, parse_words, pattern_op, replace_op,
    text_op,
};
use crate::apml::render::{
    decimal, digit_char, pattern_op_text, render_expansion, render_glob_part, render_literal,
    render_literal_part, render_modifier, render_pattern, render_substring, render_unit,
    render_units, render_word, render_words, replace_op_text, text_op_text,
};
use crate::apml::text::{
    CharClass, has_at, in_class, is_digit, is_name_char, is_name_start, lemma_has_at_index,
    lemma_has_at_split, lemma_run_end_is, run_end,
};
use crate::apml::valid::{
    is_name, may_follow, pattern_starts_with, single_op_char, starts_like_name, valid_expansion,
    valid_glob_part, valid_literal_part, valid_literal_parts, valid_modifier, valid_nested_text,
    valid_nested_unit, valid_pattern, valid_word, valid_words,
};

verus! {

/// The decimal digits of a number are digits, and stand for that number.
pub proof fn lemma_decimal(n: nat)
    ensures
        decimal(n).len() > 0,
        forall|k: int| 0 <= k < decimal(n).len() ==> is_digit(#[trigger] decimal(n)[k]),
        digits_value(decimal(n)) == n,
    decreases n,
{
    if n < 10 {
        assert(decimal(n).drop_last() =~= Seq::empty());
        assert(digits_value(decimal(n).drop_last()) == 0);
        assert(digit_value(digit_char(n)) == n);
    } else {
        lemma_decimal(n / 10);
        assert(decimal(n).drop_last() =~= decimal(n / 10));
        assert(digit_value(digit_char(n % 10)) == n % 10);
    }
}

/// The grammar reads the decimal digits of a number as that number.
pub proof fn lemma_parse_decimal(s: Seq<char>, i: int, n: usize)
    requires
        has_at(s, i, decimal(n as nat)),
        i + decimal(n as nat).len() < s.len() ==> !is_digit(s[i + decimal(n as nat).len()]),
    ensures
        parse_number(s, i) == Ok::<(usize, int), EmitError>((n, i + decimal(n as nat).len())),
{
    let r = decimal(n as nat);
    lemma_decimal(n as nat);
    lemma_has_at_index(s, i, r);
    assert forall|x: int| i <= x < i + r.len() implies in_class(
        CharClass::Digit,
        #[trigger] s[x],
    ) by {
        assert(s[i + (x - i)] == r[x - i]);
    }
    lemma_run_end_is(s, i, i + r.len(), CharClass::Digit);
}

/// The text of a literal is that of its first part, then that of the rest.
pub proof fn lemma_render_literal_first(p: Seq<LiteralPartView>)
    requires
        p.len() > 0,
    ensures
        render_literal(p) == render_literal_part(p[0]) + render_literal(p.drop_first()),
    decreases p.len(),
{
    if p.len() == 1 {
        assert(p.drop_last() =~= Seq::empty());
        assert(p.drop_first() =~= Seq::empty());
        assert(render_literal(p) =~= render_literal_part(p[0]) + render_literal(p.drop_first()));
    } else {
        lemma_render_literal_first(p.drop_last());
        assert(p.drop_last().drop_first() =~= p.drop_first().drop_last());
        assert(p.drop_first().last() == p.last());
        assert(render_literal(p) =~= render_literal_part(p[0]) + render_literal(p.drop_first()));
    }
}

/// The text of a pattern is that of its first part, then that of the rest.
pub proof fn lemma_render_pattern_first(p: Seq<GlobPartView>)
    requires
        p.len() > 0,
    ensures
        render_pattern(p) == render_glob_part(p[0]) + render_pattern(p.drop_first()),
    decreases p.len(),
{
    if p.len() == 1 {
        assert(p.drop_last() =~= Seq::empty());
        assert(p.drop_first() =~= Seq::empty());
        assert(render_pattern(p) =~= render_glob_part(p[0]) + render_pattern(p.drop_first()));
    } else {
        lemma_render_pattern_first(p.drop_last());
        assert(p.drop_last().drop_first() =~= p.drop_first().drop_last());
        assert(p.drop_first().last() == p.last());
        assert(render_pattern(p) =~= render_glob_part(p[0]) + render_pattern(p.drop_first()));
    }
}

/// Whether the character at `e`, if there is one, ends a literal.
pub open spec fn ends_literal(s: Seq<char>, e: int, nested: bool) -> bool {
    e < s.len() ==> s[e] != '\\' && !in_class(literal_class(nested), s[e])
}

/// Whether the character at `e`, if there is one, ends a pattern.
pub open spec fn ends_pattern(s: Seq<char>, e: int, replace: bool) -> bool {
    e < s.len() ==> s[e] != '\\' && s[e] != '*' && s[e] != '?' && s[e] != '[' && !in_class(
        glob_class(replace),
        s[e],
    )
}

/// The grammar reads the text of valid parts of a literal as those parts.
pub proof fn lemma_parse_literal(
    s: Seq<char>,
    i: int,
    quoted: bool,
    nested: bool,
    parts: Seq<LiteralPartView>,
    acc: Seq<LiteralPartView>,
)
    requires
        has_at(s, i, render_literal(parts)),
        valid_literal_parts(parts, quoted, nested),
        ends_literal(s, i + render_literal(parts).len(), nested),
    ensures
        parse_literal(s, i, nested, acc) == Ok::<(Seq<LiteralPartView>, int), EmitError>(
            (acc + parts, i + render_literal(parts).len()),
        ),
    decreases parts.len(),
{
    if parts.len() == 0 {
        assert(acc + parts =~= acc);
    } else {
        let first = parts[0];
        let rest = parts.drop_first();
        let class = literal_class(nested);
        lemma_render_literal_first(parts);
        lemma_has_at_split(s, i, render_literal_part(first), render_literal(rest));
        lemma_has_at_index(s, i, render_literal_part(first));
        let j = i + render_literal_part(first).len();
        assert(valid_literal_part(first, quoted, nested));
        assert(valid_literal_parts(rest, quoted, nested)) by {
            assert forall|k: int| 0 <= k < rest.len() implies valid_literal_part(
                #[trigger] rest[k],
                quoted,
                nested,
            ) by {
                assert(rest[k] == parts[k + 1]);
            }
            assert forall|k: int| 0 <= k < rest.len() - 1 implies !(#[trigger] rest[k] is String
                && rest[k + 1] is String) by {
                assert(rest[k] == parts[k + 1]);
                assert(rest[k + 1] == parts[k + 2]);
            }
        }
        assert(acc.push(first) + rest =~= acc + parts);
        match first {
            LiteralPartView::String(t) => {
                assert(s[i + 0] == t[0]);
                assert forall|x: int| i <= x < j implies in_class(class, #[trigger] s[x]) by {
                    assert(s[i + (x - i)] == t[x - i]);
                }
                if rest.len() > 0 {
                    lemma_render_literal_first(rest);
                    assert(parts[1] == rest[0]);
                    assert(!(parts[0] is String && parts[1] is String));
                    assert(valid_literal_part(rest[0], quoted, nested));
                    lemma_has_at_index(s, j, render_literal(rest));
                    assert(render_literal(rest)[0] == '\\');
                    assert(s[j + 0] == '\\');
                } else {
                    assert(render_literal(rest) =~= Seq::empty());
                }
                lemma_run_end_is(s, i, j, class);
                assert(s.subrange(i, j) == t);
                lemma_parse_literal(s, j, quoted, nested, rest, acc.push(first));
            },
            LiteralPartView::Escaped(c) => {
                assert(s[i + 0] == '\\');
                assert(s[i + 1] == c);
                lemma_parse_literal(s, j, quoted, nested, rest, acc.push(first));
            },
            LiteralPartView::LineContinuation => {
                assert(s[i + 0] == '\\');
                assert(s[i + 1] == '\n');
                lemma_parse_literal(s, j, quoted, nested, rest, acc.push(first));
            },
        }
    }
}

/// Whether the text of a part of a pattern starts with a character that
/// no string part holds.
pub proof fn lemma_glob_part_first(p: GlobPartView, quoted: bool, replace: bool)
    requires
        valid_glob_part(p, quoted, replace),
    ensures
        render_glob_part(p).len() > 0,
        !(p is String) ==> !in_class(glob_class(replace), render_glob_part(p)[0]),
        p is String ==> in_class(glob_class(replace), render_glob_part(p)[0]),
{
    match p {
        GlobPartView::String(t) => {
            assert(in_class(glob_class(replace), t[0]));
        },
        _ => {},
    }
}

/// The grammar reads the text of one valid part of a pattern as that part.
pub proof fn lemma_parse_pattern_step(
    s: Seq<char>,
    i: int,
    quoted: bool,
    replace: bool,
    first: GlobPartView,
    acc: Seq<GlobPartView>,
)
    requires
        has_at(s, i, render_glob_part(first)),
        valid_glob_part(first, quoted, replace),
        first is String && i + render_glob_part(first).len() < s.len() ==> !in_class(
            glob_class(replace),
            s[i + render_glob_part(first).len()],
        ),
    ensures
        parse_pattern(s, i, replace, acc) == parse_pattern(
            s,
            i + render_glob_part(first).len(),
            replace,
            acc.push(first),
        ),
{
    let class = glob_class(replace);
    let text = render_glob_part(first);
    let j = i + text.len();
    lemma_has_at_index(s, i, text);
    match first {
        GlobPartView::String(t) => {
            assert(s[i + 0] == t[0]);
            assert(in_class(class, t[0]));
            assert forall|x: int| i <= x < j implies in_class(class, #[trigger] s[x]) by {
                assert(s[i + (x - i)] == t[x - i]);
            }
            lemma_run_end_is(s, i, j, class);
            assert(s.subrange(i, j) == t);
        },
        GlobPartView::Escaped(c) => {
            assert(s[i + 0] == text[0]);
            assert(s[i + 1] == text[1]);
        },
        GlobPartView::AnyString => {
            assert(s[i + 0] == text[0]);
        },
        GlobPartView::AnyChar => {
            assert(s[i + 0] == text[0]);
        },
        GlobPartView::Range(r) => {
            assert(s[i + 0] == text[0]);
            assert(text[r.len() as int + 1] == ']');
            assert(s[i + (r.len() + 1)] == text[r.len() as int + 1]);
            assert forall|x: int| i + 1 <= x < i + 1 + r.len() implies in_class(
                CharClass::Bracketed,
                #[trigger] s[x],
            ) by {
                assert(s[i + (x - i)] == text[x - i]);
                assert(text[x - i] == r[x - i - 1]);
            }
            lemma_run_end_is(s, i + 1, i + 1 + r.len(), CharClass::Bracketed);
            let inner = s.subrange(i + 1, i + 1 + r.len());
            assert forall|k: int| 0 <= k < r.len() implies inner[k] == r[k] by {
                assert(s[i + (k + 1)] == text[k + 1]);
                assert(text[k + 1] == r[k]);
            }
            assert(inner =~= r);
        },
    }
}

/// What is left of a valid pattern behind its first part is valid.
pub proof fn lemma_valid_pattern_rest(parts: Seq<GlobPartView>, quoted: bool, replace: bool)
    requires
        parts.len() > 0,
        valid_pattern(parts, quoted, replace),
    ensures
        valid_glob_part(parts[0], quoted, replace),
        valid_pattern(parts.drop_first(), quoted, replace),
        parts.len() > 1 ==> !(parts[0] is String && parts.drop_first()[0] is String),
{
    let rest = parts.drop_first();
    assert forall|k: int| 0 <= k < rest.len() implies valid_glob_part(
        #[trigger] rest[k],
        quoted,
        replace,
    ) by {
        assert(rest[k] == parts[k + 1]);
    }
    assert forall|k: int| 0 <= k < rest.len() - 1 implies !(#[trigger] rest[k] is String
        && rest[k + 1] is String) by {
        assert(rest[k] == parts[k + 1]);
        assert(rest[k + 1] == parts[k + 2]);
    }
    if parts.len() > 1 {
        assert(rest[0] == parts[1]);
        assert(!(parts[0] is String && parts[0int + 1] is String));
    }
}

/// The grammar reads the text of a valid pattern as that pattern.
pub proof fn lemma_parse_pattern(
    s: Seq<char>,
    i: int,
    quoted: bool,
    replace: bool,
    parts: Seq<GlobPartView>,
    acc: Seq<GlobPartView>,
)
    requires
        has_at(s, i, render_pattern(parts)),
        valid_pattern(parts, quoted, replace),
        ends_pattern(s, i + render_pattern(parts).len(), replace),
    ensures
        parse_pattern(s, i, replace, acc) == Ok::<(Seq<GlobPartView>, int), EmitError>(
            (acc + parts, i + render_pattern(parts).len()),
        ),
    decreases parts.len(),
{
    if parts.len() == 0 {
        assert(acc + parts =~= acc);
    } else {
        let first = parts[0];
        let rest = parts.drop_first();
        lemma_render_pattern_first(parts);
        lemma_has_at_split(s, i, render_glob_part(first), render_pattern(rest));
        let j = i + render_glob_part(first).len();
        lemma_valid_pattern_rest(parts, quoted, replace);
        assert(acc.push(first) + rest =~= acc + parts);
        if rest.len() > 0 {
            lemma_render_pattern_first(rest);
            lemma_glob_part_first(rest[0], quoted, replace);
            lemma_has_at_index(s, j, render_pattern(rest));
            assert(s[j + 0] == render_pattern(rest)[0]);
            assert(render_pattern(rest)[0] == render_glob_part(rest[0])[0]);
        } else {
            assert(render_pattern(rest) =~= Seq::empty());
        }
        lemma_parse_pattern_step(s, i, quoted, replace, first, acc);
        lemma_parse_pattern(s, j, quoted, replace, rest, acc.push(first));
    }
}

/// The text of a list of words is that of its first word, then that of the rest.
pub proof fn lemma_render_words_first(ws: Seq<WordView>)
    requires
        ws.len() > 0,
    ensures
        render_words(ws) == render_word(ws[0]) + render_words(ws.drop_first()),
    decreases ws.len(),
{
    if ws.len() == 1 {
        assert(ws.drop_last() =~= Seq::empty());
        assert(ws.drop_first() =~= Seq::empty());
        assert(render_words(ws) =~= render_word(ws[0]) + render_words(ws.drop_first()));
    } else {
        lemma_render_words_first(ws.drop_last());
        assert(ws.drop_last().drop_first() =~= ws.drop_first().drop_last());
        assert(ws.drop_first().last() == ws.last());
        assert(render_words(ws) =~= render_word(ws[0]) + render_words(ws.drop_first()));
    }
}

/// The text of a section is that of its first unit, then that of the rest.
pub proof fn lemma_render_units_first(us: Seq<TextUnitView>)
    requires
        us.len() > 0,
    ensures
        render_units(us) == render_unit(us[0]) + render_units(us.drop_first()),
    decreases us.len(),
{
    if us.len() == 1 {
        assert(us.drop_last() =~= Seq::empty());
        assert(us.drop_first() =~= Seq::empty());
        assert(render_units(us) =~= render_unit(us[0]) + render_units(us.drop_first()));
    } else {
        lemma_render_units_first(us.drop_last());
        assert(us.drop_last().drop_first() =~= us.drop_first().drop_last());
        assert(us.drop_first().last() == us.last());
        assert(render_units(us) =~= render_unit(us[0]) + render_units(us.drop_first()));
    }
}

/// Whether the character at `e`, if there is one, ends a list of words.
pub open spec fn ends_words(s: Seq<char>, e: int, nested: bool) -> bool {
    e < s.len() ==> s[e] != '$' && s[e] != '\\' && !in_class(literal_class(nested), s[e])
}

/// Whether the character at `e`, if there is one, ends the word `w`.
pub open spec fn ends_word(s: Seq<char>, e: int, w: WordView, nested: bool) -> bool {
    match w {
        WordView::Literal(_) => ends_literal(s, e, nested),
        WordView::UnbracedVariable(n) => n.len() > 0 && is_name_start(n[0]) && e < s.len()
            ==> !is_name_char(s[e]),
        WordView::BracedVariable(_) => true,
    }
}

/// How the text of a valid word starts: a literal with a backslash or a
/// character that stands for itself, any other word with `$`.
pub proof fn lemma_word_first(w: WordView, quoted: bool, nested: bool)
    requires
        valid_word(w, quoted, nested),
    ensures
        render_word(w).len() > 0,
        w is Literal ==> render_word(w)[0] == '\\' || in_class(
            literal_class(nested),
            render_word(w)[0],
        ),
        !(w is Literal) ==> render_word(w)[0] == '$',
        !starts_like_name(w) ==> !is_name_char(render_word(w)[0]),
{
    match w {
        WordView::Literal(parts) => {
            lemma_render_literal_first(parts);
            assert(valid_literal_part(parts[0], quoted, nested));
            match parts[0] {
                LiteralPartView::String(t) => {
                    assert(in_class(literal_class(nested), t[0]));
                    assert(render_word(w)[0] == t[0]);
                },
                LiteralPartView::Escaped(c) => {
                    assert(render_word(w)[0] == '\\');
                },
                LiteralPartView::LineContinuation => {
                    assert(render_word(w)[0] == '\\');
                },
            }
        },
        WordView::UnbracedVariable(n) => {
            assert(render_word(w)[0] == '$');
        },
        WordView::BracedVariable(e) => {
            assert(render_word(w)[0] == '$');
        },
    }
}

/// What is left of valid words behind the first word is valid, and its
/// text starts with a character that ends the first word.
pub proof fn lemma_valid_words_rest(ws: Seq<WordView>, quoted: bool, nested: bool)
    requires
        ws.len() > 0,
        valid_words(ws, quoted, nested),
    ensures
        valid_word(ws[0], quoted, nested),
        valid_words(ws.drop_first(), quoted, nested),
        ws.len() > 1 ==> may_follow(ws[0], ws.drop_first()[0]),
{
    let rest = ws.drop_first();
    assert forall|k: int| 0 <= k < rest.len() implies valid_word(
        #[trigger] rest[k],
        quoted,
        nested,
    ) by {
        assert(rest[k] == ws[k + 1]);
    }
    assert forall|k: int| 0 <= k < rest.len() - 1 implies may_follow(
        #[trigger] rest[k],
        rest[k + 1],
    ) by {
        assert(rest[k] == ws[k + 1]);
        assert(rest[k + 1] == ws[k + 2]);
    }
    if ws.len() > 1 {
        assert(rest[0] == ws[1]);
        assert(may_follow(ws[0], ws[0int + 1]));
    }
}

/// What is left of a valid text inside an expansion behind its first unit is valid.
pub proof fn lemma_valid_units_rest(us: Seq<TextUnitView>, quoted: bool)
    requires
        us.len() > 0,
        valid_nested_text(us, quoted),
    ensures
        valid_nested_unit(us[0], quoted),
        valid_nested_text(us.drop_first(), quoted),
        us.len() > 1 ==> !(us[0] is Unquoted && us.drop_first()[0] is Unquoted),
{
    let rest = us.drop_first();
    assert forall|k: int| 0 <= k < rest.len() implies valid_nested_unit(
        #[trigger] rest[k],
        quoted,
    ) by {
        assert(rest[k] == us[k + 1]);
    }
    assert forall|k: int| 0 <= k < rest.len() - 1 implies !(#[trigger] rest[k] is Unquoted
        && rest[k + 1] is Unquoted) by {
        assert(rest[k] == us[k + 1]);
        assert(rest[k + 1] == us[k + 2]);
    }
    if us.len() > 1 {
        assert(rest[0] == us[1]);
        assert(!(us[0] is Unquoted && us[0int + 1] is Unquoted));
    }
}

/// A name that stands in a text, followed by no character of a name, is the
/// longest run of such characters there.
pub proof fn lemma_name_run(s: Seq<char>, i: int, n: Seq<char>)
    requires
        has_at(s, i, n),
        is_name(n),
        i + n.len() < s.len() ==> !is_name_char(s[i + n.len()]),
    ensures
        run_end(s, i, CharClass::Name) == i + n.len(),
        s.subrange(i, i + n.len()) == n,
        is_name_char(s[i]),
{
    lemma_has_at_index(s, i, n);
    assert forall|x: int| i <= x < i + n.len() implies in_class(
        CharClass::Name,
        #[trigger] s[x],
    ) by {
        assert(s[i + (x - i)] == n[x - i]);
    }
    lemma_run_end_is(s, i, i + n.len(), CharClass::Name);
    assert(s[i + 0] == n[0]);
}

/// How the text of a modifier starts: with a character of no name.
pub proof fn lemma_modifier_first(m: ModifierView)
    requires
        m != ModifierView::Length,
    ensures
        render_modifier(m).len() > 0,
        !is_name_char(render_modifier(m)[0]),
        render_modifier(m)[0] != '}',
{
    match m {
        ModifierView::Substring { offset, length } => {
            assert(render_modifier(m)[0] == ':');
        },
        ModifierView::Pattern { op, pattern } => {
            let c = pattern_op_text(op)[0];
            assert(render_modifier(m)[0] == c);
        },
        ModifierView::Replace { op, pattern, string } => {
            assert(replace_op_text(op)[0] == '/');
            assert(render_modifier(m)[0] == '/');
        },
        ModifierView::Text { op, text } => {
            assert(text_op_text(op)[0] == ':');
            assert(render_modifier(m)[0] == ':');
        },
        ModifierView::Length => {},
    }
}

/// The grammar reads the text of a substring modifier as that modifier.
pub proof fn lemma_parse_substring(s: Seq<char>, j: int, offset: usize, length: Option<usize>)
    requires
        has_at(s, j, render_substring(offset, length) + seq!['}']),
    ensures
        parse_modifier(s, j) == Ok::<(Option<ModifierView>, int), EmitError>(
            (
                Some(ModifierView::Substring { offset, length }),
                j + render_substring(offset, length).len(),
            ),
        ),
{
    let text = render_substring(offset, length);
    let digits = decimal(offset as nat);
    lemma_decimal(offset as nat);
    lemma_has_at_split(s, j, text, seq!['}']);
    lemma_has_at_index(s, j + text.len(), seq!['}']);
    assert(s[j + text.len() + 0] == seq!['}'][0]);
    match length {
        None => {
            lemma_has_at_split(s, j, seq![':'], digits);
            lemma_has_at_index(s, j, seq![':']);
            assert(s[j + 0] == seq![':'][0]);
            lemma_has_at_index(s, j + 1, digits);
            assert(s[j + 1 + 0] == digits[0]);
            lemma_parse_decimal(s, j + 1, offset);
        },
        Some(l) => {
            let more = decimal(l as nat);
            lemma_decimal(l as nat);
            lemma_has_at_split(s, j, seq![':'] + digits + seq![':'], more);
            lemma_has_at_split(s, j, seq![':'] + digits, seq![':']);
            lemma_has_at_split(s, j, seq![':'], digits);
            lemma_has_at_index(s, j, seq![':']);
            assert(s[j + 0] == seq![':'][0]);
            lemma_has_at_index(s, j + 1, digits);
            assert(s[j + 1 + 0] == digits[0]);
            let k = j + 1 + digits.len();
            lemma_has_at_index(s, k, seq![':']);
            assert(s[k + 0] == seq![':'][0]);
            lemma_parse_decimal(s, j + 1, offset);
            lemma_parse_decimal(s, k + 1, l);
        },
    }
}

/// The grammar reads the operator of a valid modifier with one pattern as
/// that operator, and finds the pattern behind it.
pub proof fn lemma_pattern_op(
    s: Seq<char>,
    j: int,
    quoted: bool,
    op: PatternOp,
    pattern: Seq<GlobPartView>,
)
    requires
        has_at(s, j, pattern_op_text(op) + render_pattern(pattern) + seq!['}']),
        valid_modifier(ModifierView::Pattern { op, pattern }, quoted),
    ensures
        j + 1 < s.len(),
        s[j] == '#' || s[j] == '%' || s[j] == '^' || s[j] == ',',
        (s[j + 1] == s[j]) == (pattern_op_text(op).len() == 2),
        pattern_op(s[j], pattern_op_text(op).len() == 2) == op,
        has_at(s, j + pattern_op_text(op).len(), render_pattern(pattern)),
        s[j + pattern_op_text(op).len() + render_pattern(pattern).len()] == '}',
{
    let sign = pattern_op_text(op);
    let body = render_pattern(pattern);
    lemma_has_at_split(s, j, sign + body, seq!['}']);
    let end = j + sign.len() + body.len();
    lemma_has_at_index(s, end, seq!['}']);
    assert(s[end + 0] == seq!['}'][0]);
    lemma_has_at_split(s, j, sign, body);
    lemma_has_at_index(s, j, sign);
    assert(s[j + 0] == sign[0]);
    let start = j + sign.len();
    if sign.len() == 2 {
        assert(s[j + 1] == sign[1]);
    } else {
        assert(single_op_char(op) == Some(sign[0]));
        if pattern.len() > 0 {
            lemma_render_pattern_first(pattern);
            assert(valid_glob_part(pattern[0], quoted, false));
            lemma_glob_part_first(pattern[0], quoted, false);
            lemma_has_at_index(s, start, body);
            assert(s[start + 0] == body[0]);
            assert(body[0] == render_glob_part(pattern[0])[0]);
            assert(body[0] != sign[0]);
        } else {
            assert(body =~= Seq::empty());
        }
    }
}

/// The grammar reads the text of a valid modifier with one pattern as that modifier.
pub proof fn lemma_parse_pattern_modifier(
    s: Seq<char>,
    j: int,
    quoted: bool,
    op: PatternOp,
    pattern: Seq<GlobPartView>,
)
    requires
        has_at(s, j, render_modifier(ModifierView::Pattern { op, pattern }) + seq!['}']),
        valid_modifier(ModifierView::Pattern { op, pattern }, quoted),
    ensures
        parse_modifier(s, j) == Ok::<(Option<ModifierView>, int), EmitError>(
            (
                Some(ModifierView::Pattern { op, pattern }),
                j + render_modifier(ModifierView::Pattern { op, pattern }).len(),
            ),
        ),
{
    let start = j + pattern_op_text(op).len();
    lemma_pattern_op(s, j, quoted, op, pattern);
    lemma_parse_pattern(s, start, quoted, false, pattern, Seq::empty());
    assert(Seq::<GlobPartView>::empty() + pattern =~= pattern);
}

/// The grammar reads the operator of a valid replacement as that operator.
pub proof fn lemma_replace_op(
    s: Seq<char>,
    j: int,
    quoted: bool,
    op: ReplaceOp,
    pattern: Seq<GlobPartView>,
)
    requires
        has_at(s, j, replace_op_text(op) + render_pattern(pattern) + seq!['/']),
        valid_pattern(pattern, quoted, true),
        op == ReplaceOp::Once ==> pattern.len() > 0 && !pattern_starts_with(pattern, '#')
            && !pattern_starts_with(pattern, '%'),
    ensures
        s[j] == '/',
        replace_op(s, j) == op,
{
    let sign = replace_op_text(op);
    let body = render_pattern(pattern);
    lemma_has_at_split(s, j, sign + body, seq!['/']);
    lemma_has_at_split(s, j, sign, body);
    lemma_has_at_index(s, j, sign);
    assert(s[j + 0] == sign[0]);
    if op == ReplaceOp::Once {
        lemma_render_pattern_first(pattern);
        assert(valid_glob_part(pattern[0], quoted, true));
        lemma_glob_part_first(pattern[0], quoted, true);
        lemma_has_at_index(s, j + 1, body);
        assert(s[j + 1 + 0] == body[0]);
        assert(body[0] == render_glob_part(pattern[0])[0]);
    } else {
        assert(s[j + 1] == sign[1]);
    }
}

/// The grammar reads the text of valid words as those words.
pub proof fn lemma_parse_words(
    s: Seq<char>,
    i: int,
    quoted: bool,
    nested: bool,
    ws: Seq<WordView>,
    acc: Seq<WordView>,
)
    requires
        has_at(s, i, render_words(ws)),
        valid_words(ws, quoted, nested),
        ends_words(s, i + render_words(ws).len(), nested),
    ensures
        parse_words(s, i, nested, acc) == Ok::<(Seq<WordView>, int), EmitError>(
            (acc + ws, i + render_words(ws).len()),
        ),
    decreases ws, 0nat,
{
    if ws.len() == 0 {
        assert(acc + ws =~= acc);
    } else {
        let first = ws[0];
        let rest = ws.drop_first();
        lemma_render_words_first(ws);
        lemma_has_at_split(s, i, render_word(first), render_words(rest));
        let j = i + render_word(first).len();
        lemma_valid_words_rest(ws, quoted, nested);
        assert(acc.push(first) + rest =~= acc + ws);
        if rest.len() > 0 {
            lemma_render_words_first(rest);
            lemma_word_first(rest[0], quoted, nested);
            lemma_has_at_index(s, j, render_words(rest));
            assert(s[j + 0] == render_words(rest)[0]);
            assert(render_words(rest)[0] == render_word(rest[0])[0]);
        } else {
            assert(render_words(rest) =~= Seq::empty());
        }
        lemma_parse_word(s, i, quoted, nested, first, acc);
        lemma_parse_words(s, j, quoted, nested, rest, acc.push(first));
    }
}

/// The grammar reads the text of one valid word as that word.
pub proof fn lemma_parse_word(
    s: Seq<char>,
    i: int,
    quoted: bool,
    nested: bool,
    w: WordView,
    acc: Seq<WordView>,
)
    requires
        has_at(s, i, render_word(w)),
        valid_word(w, quoted, nested),
        ends_word(s, i + render_word(w).len(), w, nested),
    ensures
        parse_words(s, i, nested, acc) == parse_words(
            s,
            i + render_word(w).len(),
            nested,
            acc.push(w),
        ),
    decreases w, 0nat,
{
    let text = render_word(w);
    lemma_word_first(w, quoted, nested);
    lemma_has_at_index(s, i, text);
    assert(s[i + 0] == text[0]);
    match w {
        WordView::Literal(parts) => {
            lemma_parse_literal(s, i, quoted, nested, parts, Seq::empty());
            assert(Seq::<LiteralPartView>::empty() + parts =~= parts);
        },
        WordView::UnbracedVariable(n) => {
            lemma_has_at_split(s, i, seq!['$'], n);
            lemma_has_at_index(s, i + 1, n);
            assert(s[i + 1 + 0] == n[0]);
            if is_name_start(n[0]) {
                lemma_name_run(s, i + 1, n);
            } else {
                assert(s.subrange(i + 1, i + 2) =~= n);
            }
        },
        WordView::BracedVariable(e) => {
            assert(s[i + 1] == text[1]);
            assert(text =~= seq!['$', '{'] + (render_expansion(e) + seq!['}']));
            lemma_has_at_split(s, i, seq!['$', '{'], render_expansion(e) + seq!['}']);
            lemma_parse_expansion(s, i + 2, quoted, e);
        },
    }
}

/// The grammar reads the text of a valid expansion, with the `}` that
/// closes it, as that expansion.
pub proof fn lemma_parse_expansion(s: Seq<char>, i: int, quoted: bool, e: BracedExpansionView)
    requires
        has_at(s, i, render_expansion(e) + seq!['}']),
        valid_expansion(e, quoted),
    ensures
        parse_expansion(s, i) == Ok::<(BracedExpansionView, int), EmitError>(
            (e, i + render_expansion(e).len() + 1),
        ),
    decreases e, 0nat,
{
    let text = render_expansion(e);
    lemma_has_at_split(s, i, text, seq!['}']);
    lemma_has_at_index(s, i + text.len(), seq!['}']);
    assert(s[i + text.len() + 0] == seq!['}'][0]);
    match e.modifier {
        Some(ModifierView::Length) => {
            lemma_has_at_split(s, i, seq!['#'], e.name);
            lemma_has_at_index(s, i, seq!['#']);
            assert(s[i + 0] == seq!['#'][0]);
            lemma_name_run(s, i + 1, e.name);
        },
        None => {
            lemma_name_run(s, i, e.name);
        },
        Some(m) => {
            let more = render_modifier(m);
            lemma_modifier_first(m);
            lemma_has_at_split(s, i, e.name, more);
            let j = i + e.name.len();
            lemma_has_at_index(s, j, more);
            assert(s[j + 0] == more[0]);
            lemma_name_run(s, i, e.name);
            assert(text + seq!['}'] =~= e.name + (more + seq!['}']));
            lemma_has_at_split(s, i, e.name, more + seq!['}']);
            lemma_parse_modifier(s, j, quoted, m);
        },
    }
}

/// The grammar reads the text of a valid modifier, with the `}` behind it,
/// as that modifier.
pub proof fn lemma_parse_modifier(s: Seq<char>, j: int, quoted: bool, m: ModifierView)
    requires
        has_at(s, j, render_modifier(m) + seq!['}']),
        valid_modifier(m, quoted),
        m != ModifierView::Length,
    ensures
        parse_modifier(s, j) == Ok::<(Option<ModifierView>, int), EmitError>(
            (Some(m), j + render_modifier(m).len()),
        ),
    decreases m, 0nat,
{
    match m {
        ModifierView::Substring { offset, length } => {
            lemma_parse_substring(s, j, offset, length);
        },
        ModifierView::Pattern { op, pattern } => {
            lemma_parse_pattern_modifier(s, j, quoted, op, pattern);
        },
        ModifierView::Replace { op, pattern, string } => {
            lemma_parse_replace_modifier(s, j, quoted, op, pattern, string);
        },
        ModifierView::Text { op, text } => {
            lemma_parse_text_modifier(s, j, quoted, op, text);
        },
        ModifierView::Length => {},
    }
}

/// Where the parts of the text of a replacement stand.
pub proof fn lemma_replace_layout(
    s: Seq<char>,
    j: int,
    op: ReplaceOp,
    pattern: Seq<GlobPartView>,
    string: Seq<TextUnitView>,
)
    requires
        has_at(s, j, render_modifier(ModifierView::Replace { op, pattern, string }) + seq!['}']),
    ensures
        has_at(s, j, replace_op_text(op) + render_pattern(pattern) + seq!['/']),
        has_at(s, j + replace_op_text(op).len(), render_pattern(pattern)),
        has_at(
            s,
            j + replace_op_text(op).len() + render_pattern(pattern).len() + 1,
            render_units(string),
        ),
        s[j + replace_op_text(op).len() + render_pattern(pattern).len()] == '/',
        s[j + render_modifier(ModifierView::Replace { op, pattern, string }).len()] == '}',
        render_modifier(ModifierView::Replace { op, pattern, string }).len() == replace_op_text(
            op,
        ).len() + render_pattern(pattern).len() + 1 + render_units(string).len(),
        replace_op_text(op).len() == if op == ReplaceOp::Once {
            1int
        } else {
            2int
        },
{
    let m = ModifierView::Replace { op, pattern, string };
    let sign = replace_op_text(op);
    let body = render_pattern(pattern);
    let tail = render_units(string) + seq!['}'];
    let k = j + sign.len() + body.len();
    let end = k + 1 + render_units(string).len();
    assert(render_modifier(m) + seq!['}'] =~= (sign + body + seq!['/']) + tail);
    lemma_has_at_split(s, j, sign + body + seq!['/'], tail);
    lemma_has_at_split(s, j, sign + body, seq!['/']);
    lemma_has_at_split(s, j, sign, body);
    lemma_has_at_index(s, k, seq!['/']);
    assert(s[k + 0] == seq!['/'][0]);
    lemma_has_at_split(s, k + 1, render_units(string), seq!['}']);
    lemma_has_at_index(s, end, seq!['}']);
    assert(s[end + 0] == seq!['}'][0]);
}

/// Where the parts of the text of a modifier with one text stand.
pub proof fn lemma_text_layout(s: Seq<char>, j: int, op: TextOp, text: Seq<TextUnitView>)
    requires
        has_at(s, j, render_modifier(ModifierView::Text { op, text }) + seq!['}']),
    ensures
        j + 1 < s.len(),
        s[j] == ':',
        s[j + 1] == '?' || s[j + 1] == '-' || s[j + 1] == '+',
        text_op(s[j + 1]) == op,
        has_at(s, j + 2, render_units(text)),
        s[j + render_modifier(ModifierView::Text { op, text }).len()] == '}',
        render_modifier(ModifierView::Text { op, text }).len() == 2 + render_units(text).len(),
{
    let m = ModifierView::Text { op, text };
    let sign = text_op_text(op);
    let tail = render_units(text) + seq!['}'];
    let end = j + 2 + render_units(text).len();
    assert(render_modifier(m) + seq!['}'] =~= sign + tail);
    lemma_has_at_split(s, j, sign, tail);
    lemma_has_at_index(s, j, sign);
    assert(s[j + 0] == sign[0]);
    assert(s[j + 1] == sign[1]);
    lemma_has_at_split(s, j + 2, render_units(text), seq!['}']);
    lemma_has_at_index(s, end, seq!['}']);
    assert(s[end + 0] == seq!['}'][0]);
}

/// The grammar reads the text of a valid replacement, with the `}` behind
/// it, as that replacement.
pub proof fn lemma_parse_replace_modifier(
    s: Seq<char>,
    j: int,
    quoted: bool,
    op: ReplaceOp,
    pattern: Seq<GlobPartView>,
    string: Seq<TextUnitView>,
)
    requires
        has_at(s, j, render_modifier(ModifierView::Replace { op, pattern, string }) + seq!['}']),
        valid_modifier(ModifierView::Replace { op, pattern, string }, quoted),
    ensures
        parse_modifier(s, j) == Ok::<(Option<ModifierView>, int), EmitError>(
            (
                Some(ModifierView::Replace { op, pattern, string }),
                j + render_modifier(ModifierView::Replace { op, pattern, string }).len(),
            ),
        ),
    decreases string, 1nat,
{
    let start = j + replace_op_text(op).len();
    let k = start + render_pattern(pattern).len();
    lemma_replace_layout(s, j, op, pattern, string);
    lemma_replace_op(s, j, quoted, op, pattern);
    lemma_parse_pattern(s, start, quoted, true, pattern, Seq::empty());
    assert(Seq::<GlobPartView>::empty() + pattern =~= pattern);
    lemma_parse_units(s, k + 1, quoted, string, Seq::empty());
    assert(Seq::<TextUnitView>::empty() + string =~= string);
}

/// The grammar reads the text of a valid modifier with one text, with the
/// `}` behind it, as that modifier.
pub proof fn lemma_parse_text_modifier(
    s: Seq<char>,
    j: int,
    quoted: bool,
    op: TextOp,
    text: Seq<TextUnitView>,
)
    requires
        has_at(s, j, render_modifier(ModifierView::Text { op, text }) + seq!['}']),
        valid_modifier(ModifierView::Text { op, text }, quoted),
    ensures
        parse_modifier(s, j) == Ok::<(Option<ModifierView>, int), EmitError>(
            (
                Some(ModifierView::Text { op, text }),
                j + render_modifier(ModifierView::Text { op, text }).len(),
            ),
        ),
    decreases text, 1nat,
{
    lemma_text_layout(s, j, op, text);
    lemma_parse_units(s, j + 2, quoted, text, Seq::empty());
    assert(Seq::<TextUnitView>::empty() + text =~= text);
}

/// The grammar reads a single-quoted text inside an expansion as it stands.
pub proof fn lemma_parse_quote(s: Seq<char>, i: int, r: Seq<char>, acc: Seq<TextUnitView>)
    requires
        has_at(s, i, render_unit(TextUnitView::SingleQuote(r))),
        forall|k: int| 0 <= k < r.len() ==> (#[trigger] r[k]) != '\'' && r[k] != '\\',
    ensures
        parse_units(s, i, acc) == parse_units(
            s,
            i + r.len() + 2,
            acc.push(TextUnitView::SingleQuote(r)),
        ),
{
    let text = render_unit(TextUnitView::SingleQuote(r));
    lemma_has_at_index(s, i, text);
    assert(s[i + 0] == text[0]);
    assert(text[r.len() as int + 1] == '\'');
    assert(s[i + (r.len() + 1)] == text[r.len() as int + 1]);
    assert forall|x: int| i + 1 <= x < i + 1 + r.len() implies in_class(
        CharClass::NestedQuoted,
        #[trigger] s[x],
    ) by {
        assert(s[i + (x - i)] == text[x - i]);
        assert(text[x - i] == r[x - i - 1]);
    }
    lemma_run_end_is(s, i + 1, i + 1 + r.len(), CharClass::NestedQuoted);
    let inner = s.subrange(i + 1, i + 1 + r.len());
    assert forall|k: int| 0 <= k < r.len() implies inner[k] == r[k] by {
        assert(s[i + (k + 1)] == text[k + 1]);
        assert(text[k + 1] == r[k]);
    }
    assert(inner =~= r);
}

/// How the text of valid words that are not empty starts: with a character
/// that neither ends a text inside an expansion nor opens a quote there.
pub proof fn lemma_words_first(ws: Seq<WordView>, quoted: bool)
    requires
        ws.len() > 0,
        valid_words(ws, quoted, true),
    ensures
        render_words(ws).len() > 0,
        render_words(ws)[0] != '}',
        render_words(ws)[0] != '\'',
{
    lemma_render_words_first(ws);
    lemma_valid_words_rest(ws, quoted, true);
    lemma_word_first(ws[0], quoted, true);
    assert(render_words(ws)[0] == render_word(ws[0])[0]);
}

/// How the text of a valid text inside an expansion that is not empty
/// starts, where its first unit is no unit of words: with a single quote.
pub proof fn lemma_units_first(us: Seq<TextUnitView>, quoted: bool)
    requires
        us.len() > 0,
        valid_nested_text(us, quoted),
        !(us[0] is Unquoted),
    ensures
        render_units(us).len() > 0,
        render_units(us)[0] == '\'',
{
    lemma_render_units_first(us);
    assert(valid_nested_unit(us[0], quoted));
    assert(render_unit(us[0])[0] == '\'');
    assert(render_units(us)[0] == render_unit(us[0])[0]);
}

/// The grammar reads the text of a valid text inside an expansion as that text.
pub proof fn lemma_parse_units(
    s: Seq<char>,
    i: int,
    quoted: bool,
    us: Seq<TextUnitView>,
    acc: Seq<TextUnitView>,
)
    requires
        has_at(s, i, render_units(us)),
        valid_nested_text(us, quoted),
        i + render_units(us).len() < s.len() ==> s[i + render_units(us).len()] == '}',
    ensures
        parse_units(s, i, acc) == Ok::<(Seq<TextUnitView>, int), EmitError>(
            (acc + us, i + render_units(us).len()),
        ),
    decreases us, 0nat,
{
    if us.len() == 0 {
        assert(acc + us =~= acc);
    } else {
        let first = us[0];
        let rest = us.drop_first();
        lemma_render_units_first(us);
        lemma_has_at_split(s, i, render_unit(first), render_units(rest));
        let j = i + render_unit(first).len();
        lemma_valid_units_rest(us, quoted);
        assert(acc.push(first) + rest =~= acc + us);
        match first {
            TextUnitView::Unquoted(ws) => {
                lemma_words_first(ws, quoted);
                assert(s[i] == render_words(ws)[0]) by {
                    lemma_has_at_index(s, i, render_words(ws));
                    assert(s[i + 0] == render_words(ws)[0]);
                }
                assert(ends_words(s, j, true)) by {
                    if rest.len() > 0 {
                        lemma_units_first(rest, quoted);
                        lemma_has_at_index(s, j, render_units(rest));
                        assert(s[j + 0] == render_units(rest)[0]);
                    } else {
                        assert(render_units(rest) =~= Seq::empty());
                    }
                }
                lemma_parse_words(s, i, quoted, true, ws, Seq::empty());
                assert(Seq::<WordView>::empty() + ws =~= ws);
            },
            TextUnitView::SingleQuote(r) => {
                lemma_parse_quote(s, i, r, acc);
            },
            TextUnitView::DoubleQuote(_) => {},
        }
        lemma_parse_units(s, j, quoted, rest, acc.push(first));
    }
}

} // verus!
