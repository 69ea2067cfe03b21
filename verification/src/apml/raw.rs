//! What a valid value of the semantic tree is written as is raw text
//! that the parser takes whole: its lossless form is well-formed.

use vstd::prelude::*;
use crate::apml::lst;
use crate::apml::ast::{
    BracedExpansionView, GlobPartView, LiteralPartView, ModifierView, TextUnitView,
    VariableDefinitionView, VariableValueView, WordView,
};
use crate::apml::laws::lemma_lowered_definitions;
use crate::apml::lower::{lower_definition, lower_definitions, lower_text, lower_unit};
use crate::apml::render::{
    decimal, pattern_op_text, render_expansion, render_glob_part, render_literal,
    render_literal_part, render_modifier, render_pattern, render_unit, render_units, render_word,
    render_words, replace_op_text, text_op_text,
};
use crate::apml::roundtrip::{lemma_decimal, lemma_render_words_first, lemma_word_first};
use crate::apml::valid::{
    is_name, is_safe, is_variable_name, may_follow, valid_definition, valid_definitions,
    valid_expansion, valid_glob_part, valid_literal_part, valid_literal_parts, valid_modifier,
    valid_nested_text, valid_nested_unit, valid_pattern, valid_text, valid_unit, valid_word,
    valid_words,
};
use crate::apml::wellformed::{
    is_raw_text, may_stand_behind, wf_definition, wf_text, wf_token, wf_tokens, wf_unit,
};

verus! {

/// Raw text, then raw text, is raw text.
pub proof fn lemma_raw_append(a: Seq<char>, b: Seq<char>, k: int, quoted: bool)
    requires
        0 <= k <= a.len(),
        is_raw_text(a, k, quoted),
        is_raw_text(b, 0, quoted),
    ensures
        is_raw_text(a + b, k, quoted),
    decreases a.len() - k,
{
    let all = a + b;
    if k < a.len() {
        assert(all[k] == a[k]);
        if a[k] == '\\' {
            lemma_raw_append(a, b, k + 2, quoted);
        } else {
            lemma_raw_append(a, b, k + 1, quoted);
        }
    } else {
        lemma_raw_shift(all, b, a.len() as int, 0, quoted);
    }
}

/// Raw text stays raw text where it stands at the end of another text.
pub proof fn lemma_raw_shift(all: Seq<char>, b: Seq<char>, at: int, k: int, quoted: bool)
    requires
        0 <= at,
        0 <= k,
        all.len() == at + b.len(),
        forall|x: int| 0 <= x < b.len() ==> all[at + x] == #[trigger] b[x],
        is_raw_text(b, k, quoted),
    ensures
        is_raw_text(all, at + k, quoted),
    decreases b.len() - k,
{
    if k < b.len() {
        assert(all[at + k] == b[k]);
        if b[k] == '\\' {
            lemma_raw_shift(all, b, at, k + 2, quoted);
        } else {
            lemma_raw_shift(all, b, at, k + 1, quoted);
        }
    }
}

/// Text of characters that stand for themselves is raw text.
pub proof fn lemma_raw_safe(r: Seq<char>, k: int, quoted: bool)
    requires
        0 <= k,
        forall|x: int| 0 <= x < r.len() ==> is_safe(#[trigger] r[x], quoted),
    ensures
        is_raw_text(r, k, quoted),
    decreases r.len() - k,
{
    if k < r.len() {
        assert(is_safe(r[k], quoted));
        lemma_raw_safe(r, k + 1, quoted);
    }
}

/// Three raw texts in a row are raw text.
pub proof fn lemma_raw_append3(a: Seq<char>, b: Seq<char>, c: Seq<char>, quoted: bool)
    requires
        is_raw_text(a, 0, quoted),
        is_raw_text(b, 0, quoted),
        is_raw_text(c, 0, quoted),
    ensures
        is_raw_text(a + b + c, 0, quoted),
{
    lemma_raw_append(a, b, 0, quoted);
    lemma_raw_append(a + b, c, 0, quoted);
}

/// The digits of a number are raw text.
pub proof fn lemma_raw_decimal(n: nat, quoted: bool)
    ensures
        is_raw_text(decimal(n), 0, quoted),
{
    lemma_decimal(n);
    lemma_raw_safe(decimal(n), 0, quoted);
}

/// A name is raw text.
pub proof fn lemma_raw_name(n: Seq<char>, quoted: bool)
    requires
        is_name(n) || is_variable_name(n),
    ensures
        is_raw_text(n, 0, quoted),
{
    lemma_raw_safe(n, 0, quoted);
}

/// The text of a valid part of a literal is raw text.
pub proof fn lemma_raw_literal_part(p: LiteralPartView, quoted: bool, nested: bool)
    requires
        valid_literal_part(p, quoted, nested),
    ensures
        is_raw_text(render_literal_part(p), 0, quoted),
{
    match p {
        LiteralPartView::String(t) => lemma_raw_safe(t, 0, quoted),
        LiteralPartView::Escaped(c) => {
            let r = render_literal_part(p);
            assert(r[0] == '\\');
            assert(is_raw_text(r, 2, quoted));
        },
        LiteralPartView::LineContinuation => {
            let r = render_literal_part(p);
            assert(r[0] == '\\');
            assert(is_raw_text(r, 2, quoted));
        },
    }
}

/// The text of valid parts of a literal is raw text.
pub proof fn lemma_raw_literal(parts: Seq<LiteralPartView>, quoted: bool, nested: bool)
    requires
        valid_literal_parts(parts, quoted, nested),
    ensures
        is_raw_text(render_literal(parts), 0, quoted),
    decreases parts.len(),
{
    if parts.len() > 0 {
        let before = parts.drop_last();
        assert forall|k: int| 0 <= k < before.len() implies valid_literal_part(
            #[trigger] before[k],
            quoted,
            nested,
        ) by {
            assert(before[k] == parts[k]);
        }
        assert forall|k: int| 0 <= k < before.len() - 1 implies !(#[trigger] before[k] is String
            && before[k + 1] is String) by {
            assert(before[k] == parts[k]);
            assert(before[k + 1] == parts[k + 1]);
        }
        lemma_raw_literal(before, quoted, nested);
        assert(valid_literal_part(parts.last(), quoted, nested));
        lemma_raw_literal_part(parts.last(), quoted, nested);
        lemma_raw_append(render_literal(before), render_literal_part(parts.last()), 0, quoted);
    }
}

/// The text of a valid part of a pattern is raw text.
pub proof fn lemma_raw_glob_part(p: GlobPartView, quoted: bool, replace: bool)
    requires
        valid_glob_part(p, quoted, replace),
    ensures
        is_raw_text(render_glob_part(p), 0, quoted),
{
    match p {
        GlobPartView::String(t) => lemma_raw_safe(t, 0, quoted),
        GlobPartView::Escaped(c) => {
            let r = render_glob_part(p);
            assert(r[0] == '\\');
            assert(is_raw_text(r, 2, quoted));
        },
        GlobPartView::AnyString => lemma_raw_safe(render_glob_part(p), 0, quoted),
        GlobPartView::AnyChar => lemma_raw_safe(render_glob_part(p), 0, quoted),
        GlobPartView::Range(r) => {
            lemma_raw_safe(seq!['['], 0, quoted);
            lemma_raw_safe(r, 0, quoted);
            lemma_raw_safe(seq![']'], 0, quoted);
            lemma_raw_append3(seq!['['], r, seq![']'], quoted);
        },
    }
}

/// The text of a valid pattern is raw text.
pub proof fn lemma_raw_pattern(p: Seq<GlobPartView>, quoted: bool, replace: bool)
    requires
        valid_pattern(p, quoted, replace),
    ensures
        is_raw_text(render_pattern(p), 0, quoted),
    decreases p.len(),
{
    if p.len() > 0 {
        let before = p.drop_last();
        assert forall|k: int| 0 <= k < before.len() implies valid_glob_part(
            #[trigger] before[k],
            quoted,
            replace,
        ) by {
            assert(before[k] == p[k]);
        }
        assert forall|k: int| 0 <= k < before.len() - 1 implies !(#[trigger] before[k] is String
            && before[k + 1] is String) by {
            assert(before[k] == p[k]);
            assert(before[k + 1] == p[k + 1]);
        }
        lemma_raw_pattern(before, quoted, replace);
        assert(valid_glob_part(p.last(), quoted, replace));
        lemma_raw_glob_part(p.last(), quoted, replace);
        lemma_raw_append(render_pattern(before), render_glob_part(p.last()), 0, quoted);
    }
}

/// All but the last of valid words are valid words.
pub proof fn lemma_valid_words_front(ws: Seq<WordView>, quoted: bool, nested: bool)
    requires
        ws.len() > 0,
        valid_words(ws, quoted, nested),
    ensures
        valid_words(ws.drop_last(), quoted, nested),
        valid_word(ws.last(), quoted, nested),
{
    let before = ws.drop_last();
    assert forall|k: int| 0 <= k < before.len() implies valid_word(
        #[trigger] before[k],
        quoted,
        nested,
    ) by {
        assert(before[k] == ws[k]);
    }
    assert forall|k: int| 0 <= k < before.len() - 1 implies may_follow(
        #[trigger] before[k],
        before[k + 1],
    ) by {
        assert(before[k] == ws[k]);
        assert(before[k + 1] == ws[k + 1]);
    }
}

/// All but the last unit of a valid text inside an expansion are such a text.
pub proof fn lemma_valid_units_front(us: Seq<TextUnitView>, quoted: bool)
    requires
        us.len() > 0,
        valid_nested_text(us, quoted),
    ensures
        valid_nested_text(us.drop_last(), quoted),
        valid_nested_unit(us.last(), quoted),
{
    let before = us.drop_last();
    assert forall|k: int| 0 <= k < before.len() implies valid_nested_unit(
        #[trigger] before[k],
        quoted,
    ) by {
        assert(before[k] == us[k]);
    }
    assert forall|k: int| 0 <= k < before.len() - 1 implies !(#[trigger] before[k] is Unquoted
        && before[k + 1] is Unquoted) by {
        assert(before[k] == us[k]);
        assert(before[k + 1] == us[k + 1]);
    }
}

/// The text of valid words is raw text.
pub proof fn lemma_raw_words(ws: Seq<WordView>, quoted: bool, nested: bool)
    requires
        valid_words(ws, quoted, nested),
    ensures
        is_raw_text(render_words(ws), 0, quoted),
    decreases ws, 0nat,
{
    if ws.len() > 0 {
        lemma_valid_words_front(ws, quoted, nested);
        lemma_raw_words(ws.drop_last(), quoted, nested);
        lemma_raw_word(ws.last(), quoted, nested);
        lemma_raw_append(render_words(ws.drop_last()), render_word(ws.last()), 0, quoted);
    }
}

/// The text of a valid word is raw text.
pub proof fn lemma_raw_word(w: WordView, quoted: bool, nested: bool)
    requires
        valid_word(w, quoted, nested),
    ensures
        is_raw_text(render_word(w), 0, quoted),
    decreases w, 0nat,
{
    match w {
        WordView::Literal(parts) => lemma_raw_literal(parts, quoted, nested),
        WordView::UnbracedVariable(n) => {
            lemma_raw_safe(seq!['$'], 0, quoted);
            lemma_raw_name(n, quoted);
            lemma_raw_append(seq!['$'], n, 0, quoted);
        },
        WordView::BracedVariable(e) => {
            lemma_raw_safe(seq!['$', '{'], 0, quoted);
            lemma_raw_expansion(e, quoted);
            lemma_raw_safe(seq!['}'], 0, quoted);
            lemma_raw_append3(seq!['$', '{'], render_expansion(e), seq!['}'], quoted);
        },
    }
}

/// The text of a valid expansion is raw text.
pub proof fn lemma_raw_expansion(e: BracedExpansionView, quoted: bool)
    requires
        valid_expansion(e, quoted),
    ensures
        is_raw_text(render_expansion(e), 0, quoted),
    decreases e, 0nat,
{
    lemma_raw_name(e.name, quoted);
    match e.modifier {
        Some(ModifierView::Length) => {
            lemma_raw_safe(seq!['#'], 0, quoted);
            lemma_raw_append(seq!['#'], e.name, 0, quoted);
        },
        None => {},
        Some(m) => {
            lemma_raw_modifier(m, quoted);
            lemma_raw_append(e.name, render_modifier(m), 0, quoted);
        },
    }
}

/// The text of a valid modifier is raw text.
pub proof fn lemma_raw_modifier(m: ModifierView, quoted: bool)
    requires
        valid_modifier(m, quoted),
    ensures
        is_raw_text(render_modifier(m), 0, quoted),
    decreases m, 0nat,
{
    match m {
        ModifierView::Substring { offset, length } => {
            lemma_raw_safe(seq![':'], 0, quoted);
            lemma_raw_decimal(offset as nat, quoted);
            lemma_raw_append(seq![':'], decimal(offset as nat), 0, quoted);
            match length {
                Some(l) => {
                    lemma_raw_decimal(l as nat, quoted);
                    lemma_raw_append3(
                        seq![':'] + decimal(offset as nat),
                        seq![':'],
                        decimal(l as nat),
                        quoted,
                    );
                },
                None => {},
            }
        },
        ModifierView::Pattern { op, pattern } => {
            lemma_raw_safe(pattern_op_text(op), 0, quoted);
            lemma_raw_pattern(pattern, quoted, false);
            lemma_raw_append(pattern_op_text(op), render_pattern(pattern), 0, quoted);
        },
        ModifierView::Replace { op, pattern, string } => {
            lemma_raw_safe(replace_op_text(op), 0, quoted);
            lemma_raw_pattern(pattern, quoted, true);
            lemma_raw_safe(seq!['/'], 0, quoted);
            lemma_raw_units(string, quoted);
            lemma_raw_append3(replace_op_text(op), render_pattern(pattern), seq!['/'], quoted);
            lemma_raw_append(
                replace_op_text(op) + render_pattern(pattern) + seq!['/'],
                render_units(string),
                0,
                quoted,
            );
        },
        ModifierView::Text { op, text } => {
            lemma_raw_safe(text_op_text(op), 0, quoted);
            lemma_raw_units(text, quoted);
            lemma_raw_append(text_op_text(op), render_units(text), 0, quoted);
        },
        ModifierView::Length => {},
    }
}

/// The text of a valid text inside an expansion is raw text.
pub proof fn lemma_raw_units(us: Seq<TextUnitView>, quoted: bool)
    requires
        valid_nested_text(us, quoted),
    ensures
        is_raw_text(render_units(us), 0, quoted),
    decreases us, 0nat,
{
    if us.len() > 0 {
        lemma_valid_units_front(us, quoted);
        lemma_raw_units(us.drop_last(), quoted);
        match us.last() {
            TextUnitView::Unquoted(ws) => lemma_raw_words(ws, quoted, true),
            TextUnitView::SingleQuote(r) => {
                lemma_raw_safe(seq!['\''], 0, quoted);
                lemma_raw_safe(r, 0, quoted);
                lemma_raw_append3(seq!['\''], r, seq!['\''], quoted);
            },
            TextUnitView::DoubleQuote(_) => {},
        }
        lemma_raw_append(render_units(us.drop_last()), render_unit(us.last()), 0, quoted);
    }
}

/// The lossless form of a valid unit is well-formed.
pub proof fn lemma_lowered_unit_wf(u: TextUnitView)
    requires
        valid_unit(u),
    ensures
        wf_unit(lower_unit(u)),
{
    match u {
        TextUnitView::Unquoted(ws) => {
            lemma_raw_words(ws, false, false);
            lemma_render_words_first(ws);
            assert(valid_word(ws[0], false, false));
            lemma_word_first(ws[0], false, false);
        },
        TextUnitView::SingleQuote(_) => {},
        TextUnitView::DoubleQuote(ws) => lemma_raw_words(ws, true, false),
    }
}

/// The lossless form of a valid text is well-formed.
pub proof fn lemma_lowered_text_wf(t: Seq<TextUnitView>)
    requires
        valid_text(t),
    ensures
        wf_text(lower_text(t)),
{
    let l = lower_text(t);
    assert forall|i: int| 0 <= i < l.len() implies wf_unit(#[trigger] l[i]) by {
        assert(valid_unit(t[i]));
        lemma_lowered_unit_wf(t[i]);
    }
    assert forall|i: int| 0 <= i < l.len() - 1 implies !(#[trigger] l[i] is Unquoted && l[i
        + 1] is Unquoted) by {
        assert(!(t[i] is Unquoted && t[i + 1] is Unquoted));
    }
}

/// The lossless form of a valid definition is well-formed.
pub proof fn lemma_lowered_definition_wf(d: VariableDefinitionView)
    requires
        valid_definition(d),
    ensures
        wf_definition(lower_definition(d)),
{
    match d.value {
        VariableValueView::String(t) => lemma_lowered_text_wf(t),
    }
}

/// The lossless form of a document of valid definitions is well-formed.
pub proof fn lemma_lowered_definitions_wf(ds: Seq<VariableDefinitionView>)
    requires
        valid_definitions(ds),
    ensures
        wf_tokens(lower_definitions(ds)),
{
    let ts = lower_definitions(ds);
    lemma_lowered_definitions(ds);
    assert forall|i: int| 0 <= i < ts.len() implies wf_token(#[trigger] ts[i]) by {
        let k = i / 2;
        if i % 2 == 0 {
            assert(ts[2 * k] == lst::TokenView::Variable(lower_definition(ds[k])));
            lemma_lowered_definition_wf(ds[k]);
        } else {
            assert(ts[2 * k + 1] == lst::TokenView::Newline);
        }
    }
    assert forall|i: int| 0 <= i < ts.len() - 1 implies may_stand_behind(
        #[trigger] ts[i],
        ts[i + 1],
    ) by {
        let k = i / 2;
        if i % 2 == 0 {
            assert(ts[2 * k + 1] == lst::TokenView::Newline);
        } else {
            assert(ts[2 * k + 1] == lst::TokenView::Newline);
        }
    }
}

} // verus!
