//! Which values of the semantic tree are written the way the grammar
//! reads them: the values that mean the same after they have been
//! written out and read again.

use vstd::prelude::*;
use crate::apml::ast::{
    BracedExpansionView, GlobPartView, LiteralPartView, ModifierView, PatternOp, ReplaceOp,
    TextUnitView, VariableDefinitionView, VariableValueView, WordView,
};
use crate::apml::emit::{glob_class, literal_class};
use crate::apml::text::{in_class, is_digit, is_escapable, is_name_char, is_name_start};

verus! {

/// Characters that can stand in the raw text of a value without a backslash:
/// between double quotes all but the backslash, the newline and the double
/// quote; outside quotes neither the space nor the single quote.
pub open spec fn is_safe(c: char, quoted: bool) -> bool {
    c != '\\' && c != '\n' && c != '"' && (!quoted ==> c != ' ' && c != '\'')
}

/// A name: letters, digits and underscores, at least one.
pub open spec fn is_name(n: Seq<char>) -> bool {
    n.len() > 0 && forall|i: int| 0 <= i < n.len() ==> is_name_char(#[trigger] n[i])
}

/// An identifier: a name that does not start with a digit.
pub open spec fn is_identifier(n: Seq<char>) -> bool {
    is_name(n) && is_name_start(n[0])
}

/// What can follow a `$` without braces: an identifier, or one digit.
pub open spec fn is_variable_name(n: Seq<char>) -> bool {
    is_identifier(n) || (n.len() == 1 && is_digit(n[0]))
}

/// A part of a literal as the grammar reads it: a string part is not empty
/// and holds only characters that stand for themselves; an escaped character
/// is one that a backslash may escape, and not the newline.
pub open spec fn valid_literal_part(p: LiteralPartView, quoted: bool, nested: bool) -> bool {
    match p {
        LiteralPartView::String(t) => t.len() > 0 && forall|i: int|
            0 <= i < t.len() ==> in_class(literal_class(nested), #[trigger] t[i]) && is_safe(
                t[i],
                quoted,
            ),
        LiteralPartView::Escaped(c) => is_escapable(c) && c != '\n',
        LiteralPartView::LineContinuation => true,
    }
}

/// Parts of a literal as the grammar reads them: each is valid, and no
/// string part follows another.
pub open spec fn valid_literal_parts(parts: Seq<LiteralPartView>, quoted: bool, nested: bool)
    -> bool {
    &&& forall|i: int|
        0 <= i < parts.len() ==> valid_literal_part(#[trigger] parts[i], quoted, nested)
    &&& forall|i: int|
        0 <= i < parts.len() - 1 ==> !(#[trigger] parts[i] is String && parts[i + 1] is String)
}

/// A part of a pattern as the grammar reads it.
pub open spec fn valid_glob_part(p: GlobPartView, quoted: bool, replace: bool) -> bool {
    match p {
        GlobPartView::String(t) => t.len() > 0 && forall|i: int|
            0 <= i < t.len() ==> in_class(glob_class(replace), #[trigger] t[i]) && is_safe(
                t[i],
                quoted,
            ),
        GlobPartView::Escaped(c) => is_escapable(c),
        GlobPartView::AnyString => true,
        GlobPartView::AnyChar => true,
        GlobPartView::Range(r) => forall|i: int|
            0 <= i < r.len() ==> (#[trigger] r[i]) != ']' && is_safe(r[i], quoted),
    }
}

/// A pattern as the grammar reads it: each part is valid, and no string
/// part follows another.
pub open spec fn valid_pattern(p: Seq<GlobPartView>, quoted: bool, replace: bool) -> bool {
    &&& forall|i: int| 0 <= i < p.len() ==> valid_glob_part(#[trigger] p[i], quoted, replace)
    &&& forall|i: int| 0 <= i < p.len() - 1 ==> !(#[trigger] p[i] is String && p[i + 1] is String)
}

/// Whether the text of a pattern starts with the character `c`.
pub open spec fn pattern_starts_with(p: Seq<GlobPartView>, c: char) -> bool {
    p.len() > 0 && match p[0] {
        GlobPartView::String(t) => t.len() > 0 && t[0] == c,
        _ => false,
    }
}

/// Whether the text of a word starts with a character of a name.
pub open spec fn starts_like_name(w: WordView) -> bool {
    match w {
        WordView::Literal(parts) => parts.len() > 0 && match parts[0] {
            LiteralPartView::String(t) => t.len() > 0 && is_name_char(t[0]),
            _ => false,
        },
        _ => false,
    }
}

/// Whether `next` can stand behind `w` and be told apart from it: a
/// literal is followed by no literal, and a `$` with an identifier by
/// nothing that would read as more of the identifier.
pub open spec fn may_follow(w: WordView, next: WordView) -> bool {
    match w {
        WordView::Literal(_) => !(next is Literal),
        WordView::UnbracedVariable(n) => n.len() > 0 && is_name_start(n[0]) ==> !starts_like_name(
            next,
        ),
        WordView::BracedVariable(_) => true,
    }
}

/// The operator of a modifier with one pattern, where it is one character
/// that could be written twice.
pub open spec fn single_op_char(op: PatternOp) -> Option<char> {
    match op {
        PatternOp::StripShortestPrefix => Some('#'),
        PatternOp::StripShortestSuffix => Some('%'),
        PatternOp::UpperOnce => Some('^'),
        PatternOp::LowerOnce => Some(','),
        _ => None,
    }
}

/// A word as the grammar reads it.
pub open spec fn valid_word(w: WordView, quoted: bool, nested: bool) -> bool
    decreases w,
{
    match w {
        WordView::Literal(parts) => parts.len() > 0 && valid_literal_parts(parts, quoted, nested),
        WordView::UnbracedVariable(n) => is_variable_name(n),
        WordView::BracedVariable(e) => valid_expansion(e, quoted),
    }
}

/// Words as the grammar reads them: each is valid, and each can be told
/// apart from the next.
pub open spec fn valid_words(ws: Seq<WordView>, quoted: bool, nested: bool) -> bool
    decreases ws,
{
    &&& forall|i: int| 0 <= i < ws.len() ==> valid_word(#[trigger] ws[i], quoted, nested)
    &&& forall|i: int| 0 <= i < ws.len() - 1 ==> may_follow(#[trigger] ws[i], ws[i + 1])
}

/// A braced expansion as the grammar reads it.
pub open spec fn valid_expansion(e: BracedExpansionView, quoted: bool) -> bool
    decreases e,
{
    is_name(e.name) && match e.modifier {
        None => true,
        Some(m) => valid_modifier(m, quoted),
    }
}

/// A modifier as the grammar reads it. An operator of one character is not
/// followed by a pattern whose text would make it another operator.
pub open spec fn valid_modifier(m: ModifierView, quoted: bool) -> bool
    decreases m,
{
    match m {
        ModifierView::Substring { offset, length } => true,
        ModifierView::Pattern { op, pattern } => valid_pattern(pattern, quoted, false) && match single_op_char(
            op,
        ) {
            Some(c) => !pattern_starts_with(pattern, c),
            None => true,
        },
        ModifierView::Replace { op, pattern, string } => valid_pattern(pattern, quoted, true)
            && valid_nested_text(string, quoted) && (op == ReplaceOp::Once ==> pattern.len() > 0
            && !pattern_starts_with(pattern, '#') && !pattern_starts_with(pattern, '%')),
        ModifierView::Text { op, text } => valid_nested_text(text, quoted),
        ModifierView::Length => true,
    }
}

/// A unit of the text inside an expansion as the grammar reads it: words,
/// or, between double quotes only, single-quoted text.
pub open spec fn valid_nested_unit(u: TextUnitView, quoted: bool) -> bool
    decreases u,
{
    match u {
        TextUnitView::Unquoted(ws) => ws.len() > 0 && valid_words(ws, quoted, true),
        TextUnitView::SingleQuote(r) => quoted && forall|i: int|
            0 <= i < r.len() ==> (#[trigger] r[i]) != '\'' && is_safe(r[i], quoted),
        TextUnitView::DoubleQuote(_) => false,
    }
}

/// The text inside an expansion as the grammar reads it: each unit is valid,
/// and no unit of words follows another.
pub open spec fn valid_nested_text(us: Seq<TextUnitView>, quoted: bool) -> bool
    decreases us,
{
    &&& forall|i: int| 0 <= i < us.len() ==> valid_nested_unit(#[trigger] us[i], quoted)
    &&& forall|i: int|
        0 <= i < us.len() - 1 ==> !(#[trigger] us[i] is Unquoted && us[i + 1] is Unquoted)
}

/// A unit of the text of a value as the grammar reads it.
pub open spec fn valid_unit(u: TextUnitView) -> bool {
    match u {
        TextUnitView::Unquoted(ws) => ws.len() > 0 && valid_words(ws, false, false),
        TextUnitView::SingleQuote(r) => forall|i: int|
            0 <= i < r.len() ==> (#[trigger] r[i]) != '\'' && r[i] != '\n',
        TextUnitView::DoubleQuote(ws) => valid_words(ws, true, false),
    }
}

/// The text of a value as the grammar reads it: each unit is valid, and no
/// unquoted unit follows another.
pub open spec fn valid_text(t: Seq<TextUnitView>) -> bool {
    &&& forall|i: int| 0 <= i < t.len() ==> valid_unit(#[trigger] t[i])
    &&& forall|i: int|
        0 <= i < t.len() - 1 ==> !(#[trigger] t[i] is Unquoted && t[i + 1] is Unquoted)
}

/// A value as the grammar reads it.
pub open spec fn valid_value(v: VariableValueView) -> bool {
    match v {
        VariableValueView::String(t) => valid_text(t),
    }
}

/// A definition as the grammar reads it: an identifier and a valid value.
pub open spec fn valid_definition(d: VariableDefinitionView) -> bool {
    is_identifier(d.name) && valid_value(d.value)
}

/// A document of which each definition is valid.
pub open spec fn valid_definitions(ds: Seq<VariableDefinitionView>) -> bool {
    forall|i: int| 0 <= i < ds.len() ==> valid_definition(#[trigger] ds[i])
}

} // verus!
