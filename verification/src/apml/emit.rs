//! From the lossless tree to the semantic one: the grammar of
//! expansions, modifiers and glob patterns inside the raw text of a value.

use vstd::prelude::*;
use std::rc::Rc;
use crate::apml::lst;
use crate::apml::ast::{
    ApmlAst, BracedExpansion, BracedExpansionView, ExpansionModifier, GlobPart, GlobPartView,
    GlobPattern, LiteralPart, LiteralPartView, ModifierView, PatternOp, ReplaceOp, Text, TextOp,
    TextUnit, TextUnitView, VariableDefinition, VariableDefinitionView, VariableValue,
    VariableValueView, Word, WordView, definitions_view, glob_parts_view, literal_parts_view,
    units_view, words_view,
};
use crate::apml::emitted::{
    lemma_emitted_tokens_valid, lemma_emitted_unit_valid, lemma_emitted_units_valid,
};
use crate::apml::text::{
    CharClass, char_at, class_contains, in_class, is_digit, is_digit_char, is_escapable,
    is_escapable_char, is_name_start, is_name_start_char, lemma_run_end_bounds, run_end, scan_run,
    slice_string, to_chars,
};
use crate::apml::valid::{valid_definition, valid_definitions, valid_text, valid_unit, valid_value};
use crate::apml::wellformed::{wf_definition, wf_text, wf_tokens, wf_unit};

verus! {

/// Why the raw text of a value has no meaning.
#[derive(Debug, Clone, Copy, PartialEq, Eq, Hash, Structural)]
pub enum EmitError {
    /// A `$` is followed neither by a name nor by `{`, or a `${` by no name.
    InvalidExpansion,
    /// The name in a braced expansion is followed by no known operator.
    UnknownModifier,
    /// An offset or a length is no number, or too large a one.
    InvalidNumber,
    /// The text ends before the `}` that closes an expansion.
    UnterminatedExpansion,
    /// The pattern of a replacement is not followed by `/`.
    UnterminatedPattern,
    /// A `[` in a pattern has no `]`.
    UnterminatedRange,
    /// A single quote inside an expansion is not closed.
    UnterminatedQuote,
    /// A backslash stands before a letter or a digit, at the end, between
    /// brackets, or between single quotes inside an expansion.
    DisallowedEscape,
}

/// The value of a decimal digit.
pub open spec fn digit_value(c: char) -> nat {
    (c as int - '0' as int) as nat
}

/// The number that decimal digits stand for.
pub open spec fn digits_value(r: Seq<char>) -> nat
    decreases r.len(),
{
    if r.len() == 0 {
        0
    } else {
        digits_value(r.drop_last()) * 10 + digit_value(r.last())
    }
}

/// The number whose digits start at `i`, and where they end.
pub open spec fn parse_number(s: Seq<char>, i: int) -> Result<(usize, int), EmitError> {
    let j = run_end(s, i, CharClass::Digit);
    if 0 <= i < j <= s.len() && digits_value(s.subrange(i, j)) <= usize::MAX {
        Ok((digits_value(s.subrange(i, j)) as usize, j))
    } else {
        Err(EmitError::InvalidNumber)
    }
}

/// The class of the characters that stand for themselves in a literal.
pub open spec fn literal_class(nested: bool) -> CharClass {
    if nested {
        CharClass::NestedLiteral
    } else {
        CharClass::Literal
    }
}

/// The class of the characters that stand for themselves in a pattern.
pub open spec fn glob_class(replace: bool) -> CharClass {
    if replace {
        CharClass::ReplaceGlob
    } else {
        CharClass::Glob
    }
}

/// What a backslash and the character `c` after it are in a literal.
pub open spec fn escaped_part(c: char) -> LiteralPartView {
    if c == '\n' {
        LiteralPartView::LineContinuation
    } else {
        LiteralPartView::Escaped(c)
    }
}

/// The parts of the literal that starts at `i`, after those in `acc`, and
/// where the literal ends: at a `$`, or at a character that ends the words.
pub open spec fn parse_literal(
    s: Seq<char>,
    i: int,
    nested: bool,
    acc: Seq<LiteralPartView>,
) -> Result<(Seq<LiteralPartView>, int), EmitError>
    decreases s.len() - i,
{
    if i < 0 || i >= s.len() {
        Ok((acc, i))
    } else if s[i] == '\\' {
        if i + 1 < s.len() && is_escapable(s[i + 1]) {
            parse_literal(s, i + 2, nested, acc.push(escaped_part(s[i + 1])))
        } else {
            Err(EmitError::DisallowedEscape)
        }
    } else if in_class(literal_class(nested), s[i]) {
        let j = run_end(s, i, literal_class(nested));
        if i < j <= s.len() {
            parse_literal(s, j, nested, acc.push(LiteralPartView::String(s.subrange(i, j))))
        } else {
            Ok((acc, i))
        }
    } else {
        Ok((acc, i))
    }
}

/// The parts of the pattern that starts at `i`, after those in `acc`, and
/// where the pattern ends: at a `}`, in a replacement also at a `/`.
pub open spec fn parse_pattern(
    s: Seq<char>,
    i: int,
    replace: bool,
    acc: Seq<GlobPartView>,
) -> Result<(Seq<GlobPartView>, int), EmitError>
    decreases s.len() - i,
{
    if i < 0 || i >= s.len() {
        Ok((acc, i))
    } else if s[i] == '*' {
        parse_pattern(s, i + 1, replace, acc.push(GlobPartView::AnyString))
    } else if s[i] == '?' {
        parse_pattern(s, i + 1, replace, acc.push(GlobPartView::AnyChar))
    } else if s[i] == '[' {
        let j = run_end(s, i + 1, CharClass::Bracketed);
        if i < j < s.len() && s[j] == ']' {
            parse_pattern(s, j + 1, replace, acc.push(GlobPartView::Range(s.subrange(i + 1, j))))
        } else if i < j < s.len() {
            Err(EmitError::DisallowedEscape)
        } else {
            Err(EmitError::UnterminatedRange)
        }
    } else if s[i] == '\\' {
        if i + 1 < s.len() && is_escapable(s[i + 1]) {
            parse_pattern(s, i + 2, replace, acc.push(GlobPartView::Escaped(s[i + 1])))
        } else {
            Err(EmitError::DisallowedEscape)
        }
    } else if in_class(glob_class(replace), s[i]) {
        let j = run_end(s, i, glob_class(replace));
        if i < j <= s.len() {
            parse_pattern(s, j, replace, acc.push(GlobPartView::String(s.subrange(i, j))))
        } else {
            Ok((acc, i))
        }
    } else {
        Ok((acc, i))
    }
}

/// The modifier whose operator is `c`, once or twice.
pub open spec fn pattern_op(c: char, doubled: bool) -> PatternOp {
    if c == '#' {
        if doubled {
            PatternOp::StripLongestPrefix
        } else {
            PatternOp::StripShortestPrefix
        }
    } else if c == '%' {
        if doubled {
            PatternOp::StripLongestSuffix
        } else {
            PatternOp::StripShortestSuffix
        }
    } else if c == '^' {
        if doubled {
            PatternOp::UpperAll
        } else {
            PatternOp::UpperOnce
        }
    } else {
        if doubled {
            PatternOp::LowerAll
        } else {
            PatternOp::LowerOnce
        }
    }
}

/// The replacing modifier whose operator starts at `j`, where a `/` stands.
pub open spec fn replace_op(s: Seq<char>, j: int) -> ReplaceOp {
    if j + 1 < s.len() && s[j + 1] == '/' {
        ReplaceOp::All
    } else if j + 1 < s.len() && s[j + 1] == '#' {
        ReplaceOp::Prefix
    } else if j + 1 < s.len() && s[j + 1] == '%' {
        ReplaceOp::Suffix
    } else {
        ReplaceOp::Once
    }
}

/// The modifier with a text whose operator is a colon and `c`.
pub open spec fn text_op(c: char) -> TextOp {
    if c == '?' {
        TextOp::ErrorOnUnset
    } else if c == '-' {
        TextOp::WhenUnset
    } else {
        TextOp::WhenSet
    }
}

/// The substring modifier whose offset starts at `i`, and where the modifier ends.
pub open spec fn parse_substring(s: Seq<char>, i: int) -> Result<(ModifierView, int), EmitError> {
    match parse_number(s, i) {
        Ok((offset, k)) => if k < s.len() && s[k] == ':' {
            match parse_number(s, k + 1) {
                Ok((length, k2)) => if k2 < s.len() && s[k2] != '}' {
                    Err(EmitError::InvalidNumber)
                } else {
                    Ok((ModifierView::Substring { offset, length: Some(length) }, k2))
                },
                Err(e) => Err(e),
            }
        } else if k < s.len() && s[k] != '}' {
            Err(EmitError::InvalidNumber)
        } else {
            Ok((ModifierView::Substring { offset, length: None }, k))
        },
        Err(e) => Err(e),
    }
}

/// The words that start at `i`, after those in `acc`, and where they end:
/// at the end of the text; inside braces also at a `}` or at a single quote.
pub open spec fn parse_words(s: Seq<char>, i: int, nested: bool, acc: Seq<WordView>) -> Result<
    (Seq<WordView>, int),
    EmitError,
>
    decreases s.len() - i, 0nat,
{
    if i < 0 || i >= s.len() {
        Ok((acc, i))
    } else if s[i] == '$' {
        if i + 1 < s.len() && s[i + 1] == '{' {
            match parse_expansion(s, i + 2) {
                Ok((e, j)) => if i < j <= s.len() {
                    parse_words(s, j, nested, acc.push(WordView::BracedVariable(e)))
                } else {
                    Err(EmitError::InvalidExpansion)
                },
                Err(e) => Err(e),
            }
        } else if i + 1 < s.len() && is_name_start(s[i + 1]) {
            let j = run_end(s, i + 1, CharClass::Name);
            if i + 1 < j <= s.len() {
                parse_words(
                    s,
                    j,
                    nested,
                    acc.push(WordView::UnbracedVariable(s.subrange(i + 1, j))),
                )
            } else {
                Err(EmitError::InvalidExpansion)
            }
        } else if i + 1 < s.len() && is_digit(s[i + 1]) {
            parse_words(
                s,
                i + 2,
                nested,
                acc.push(WordView::UnbracedVariable(s.subrange(i + 1, i + 2))),
            )
        } else {
            Err(EmitError::InvalidExpansion)
        }
    } else if s[i] == '\\' || in_class(literal_class(nested), s[i]) {
        match parse_literal(s, i, nested, Seq::empty()) {
            Ok((parts, j)) => if i < j <= s.len() {
                parse_words(s, j, nested, acc.push(WordView::Literal(parts)))
            } else {
                Err(EmitError::InvalidExpansion)
            },
            Err(e) => Err(e),
        }
    } else {
        Ok((acc, i))
    }
}

/// The expansion whose text starts at `i`, behind `${`, and the place behind its `}`.
pub open spec fn parse_expansion(s: Seq<char>, i: int) -> Result<
    (BracedExpansionView, int),
    EmitError,
>
    decreases s.len() - i, 0nat,
{
    if 0 <= i < s.len() && s[i] == '#' {
        let j = run_end(s, i + 1, CharClass::Name);
        if !(i + 1 < j) {
            Err(EmitError::InvalidExpansion)
        } else if j >= s.len() {
            Err(EmitError::UnterminatedExpansion)
        } else if s[j] != '}' {
            Err(EmitError::UnknownModifier)
        } else {
            Ok(
                (
                    BracedExpansionView {
                        name: s.subrange(i + 1, j),
                        modifier: Some(ModifierView::Length),
                    },
                    j + 1,
                ),
            )
        }
    } else {
        let j = run_end(s, i, CharClass::Name);
        if !(0 <= i < j) {
            Err(EmitError::InvalidExpansion)
        } else if j >= s.len() {
            Err(EmitError::UnterminatedExpansion)
        } else {
            match parse_modifier(s, j) {
                Ok((modifier, k)) => if j <= k < s.len() && s[k] == '}' {
                    Ok((BracedExpansionView { name: s.subrange(i, j), modifier }, k + 1))
                } else {
                    Err(EmitError::UnterminatedExpansion)
                },
                Err(e) => Err(e),
            }
        }
    }
}

/// The modifier that starts at `j`, behind the name, if there is one, and where it ends.
pub open spec fn parse_modifier(s: Seq<char>, j: int) -> Result<
    (Option<ModifierView>, int),
    EmitError,
>
    recommends
        0 <= j < s.len(),
    decreases s.len() - j, 0nat,
{
    if j < 0 || j >= s.len() {
        Err(EmitError::UnterminatedExpansion)
    } else if s[j] == '}' {
        Ok((None, j))
    } else if s[j] == ':' {
        if j + 1 >= s.len() {
            Err(EmitError::UnterminatedExpansion)
        } else if s[j + 1] == '?' || s[j + 1] == '-' || s[j + 1] == '+' {
            match parse_units(s, j + 2, Seq::empty()) {
                Ok((text, k)) => Ok((Some(ModifierView::Text { op: text_op(s[j + 1]), text }), k)),
                Err(e) => Err(e),
            }
        } else {
            match parse_substring(s, j + 1) {
                Ok((m, k)) => Ok((Some(m), k)),
                Err(e) => Err(e),
            }
        }
    } else if s[j] == '#' || s[j] == '%' || s[j] == '^' || s[j] == ',' {
        let doubled = j + 1 < s.len() && s[j + 1] == s[j];
        let start = if doubled {
            j + 2
        } else {
            j + 1
        };
        match parse_pattern(s, start, false, Seq::empty()) {
            Ok((pattern, k)) => Ok(
                (Some(ModifierView::Pattern { op: pattern_op(s[j], doubled), pattern }), k),
            ),
            Err(e) => Err(e),
        }
    } else if s[j] == '/' {
        let op = replace_op(s, j);
        let start = if op == ReplaceOp::Once {
            j + 1
        } else {
            j + 2
        };
        match parse_pattern(s, start, true, Seq::empty()) {
            Ok((pattern, k)) => if j < k < s.len() && s[k] == '/' {
                match parse_units(s, k + 1, Seq::empty()) {
                    Ok((string, k2)) => Ok(
                        (Some(ModifierView::Replace { op, pattern, string }), k2),
                    ),
                    Err(e) => Err(e),
                }
            } else {
                Err(EmitError::UnterminatedPattern)
            },
            Err(e) => Err(e),
        }
    } else {
        Err(EmitError::UnknownModifier)
    }
}

/// The units of the text inside an expansion that starts at `i`, after those
/// in `acc`, and where the text ends: at a `}`, or at the end.
pub open spec fn parse_units(s: Seq<char>, i: int, acc: Seq<TextUnitView>) -> Result<
    (Seq<TextUnitView>, int),
    EmitError,
>
    decreases s.len() - i, 1nat,
{
    if i < 0 || i >= s.len() || s[i] == '}' {
        Ok((acc, i))
    } else if s[i] == '\'' {
        let j = run_end(s, i + 1, CharClass::NestedQuoted);
        if i < j < s.len() && s[j] == '\'' {
            parse_units(s, j + 1, acc.push(TextUnitView::SingleQuote(s.subrange(i + 1, j))))
        } else if i < j < s.len() {
            Err(EmitError::DisallowedEscape)
        } else {
            Err(EmitError::UnterminatedQuote)
        }
    } else {
        match parse_words(s, i, true, Seq::empty()) {
            Ok((words, j)) => if i < j <= s.len() {
                parse_units(s, j, acc.push(TextUnitView::Unquoted(words)))
            } else {
                Err(EmitError::InvalidExpansion)
            },
            Err(e) => Err(e),
        }
    }
}

/// The words of the raw text of a unit outside braces.
pub open spec fn emit_words(raw: Seq<char>) -> Result<Seq<WordView>, EmitError> {
    match parse_words(raw, 0, false, Seq::empty()) {
        Ok((words, _)) => Ok(words),
        Err(e) => Err(e),
    }
}

/// The meaning of a unit: its kind is kept, and its raw text is read as words.
pub open spec fn emit_unit(u: lst::TextUnitView) -> Result<TextUnitView, EmitError> {
    match u {
        lst::TextUnitView::Unquoted(raw) => match emit_words(raw) {
            Ok(words) => Ok(TextUnitView::Unquoted(words)),
            Err(e) => Err(e),
        },
        lst::TextUnitView::SingleQuote(raw) => Ok(TextUnitView::SingleQuote(raw)),
        lst::TextUnitView::DoubleQuote(raw) => match emit_words(raw) {
            Ok(words) => Ok(TextUnitView::DoubleQuote(words)),
            Err(e) => Err(e),
        },
    }
}

/// The meaning of the units from `i` on, after those in `acc`: that of each
/// unit, or the error of the first unit that has none.
pub open spec fn emit_units(t: Seq<lst::TextUnitView>, i: int, acc: Seq<TextUnitView>) -> Result<
    Seq<TextUnitView>,
    EmitError,
>
    decreases t.len() - i,
{
    if i < 0 || i >= t.len() {
        Ok(acc)
    } else {
        match emit_unit(t[i]) {
            Ok(u) => emit_units(t, i + 1, acc.push(u)),
            Err(e) => Err(e),
        }
    }
}

/// The meaning of a section of text.
pub open spec fn emit_text(t: Seq<lst::TextUnitView>) -> Result<Seq<TextUnitView>, EmitError> {
    emit_units(t, 0, Seq::empty())
}

/// The meaning of a value.
pub open spec fn emit_value(v: lst::VariableValueView) -> Result<VariableValueView, EmitError> {
    match v {
        lst::VariableValueView::String(t) => match emit_text(t) {
            Ok(text) => Ok(VariableValueView::String(text)),
            Err(e) => Err(e),
        },
    }
}

/// The meaning of a definition.
pub open spec fn emit_definition(d: lst::VariableDefinitionView) -> Result<
    VariableDefinitionView,
    EmitError,
> {
    match emit_value(d.value) {
        Ok(value) => Ok(VariableDefinitionView { name: d.name, value }),
        Err(e) => Err(e),
    }
}

/// The meaning of the definitions among the tokens from `i` on, after those
/// in `acc`: that of each definition, or the error of the first that has none.
pub open spec fn emit_tokens(ts: Seq<lst::TokenView>, i: int, acc: Seq<VariableDefinitionView>)
    -> Result<Seq<VariableDefinitionView>, EmitError>
    decreases ts.len() - i,
{
    if i < 0 || i >= ts.len() {
        Ok(acc)
    } else {
        match ts[i] {
            lst::TokenView::Variable(d) => match emit_definition(d) {
                Ok(definition) => emit_tokens(ts, i + 1, acc.push(definition)),
                Err(e) => Err(e),
            },
            _ => emit_tokens(ts, i + 1, acc),
        }
    }
}

/// The meaning of a document: that of its definitions, in order.
pub open spec fn emit_document(ts: Seq<lst::TokenView>) -> Result<
    Seq<VariableDefinitionView>,
    EmitError,
> {
    emit_tokens(ts, 0, Seq::empty())
}

/// The digits of a number stand for no less than any of their prefixes.
pub proof fn lemma_digits_value_prefix(r: Seq<char>, k: int)
    requires
        0 <= k <= r.len(),
    ensures
        digits_value(r.take(k)) <= digits_value(r),
    decreases r.len(),
{
    if k < r.len() {
        assert(r.drop_last().take(k) =~= r.take(k));
        lemma_digits_value_prefix(r.drop_last(), k);
    } else {
        assert(r.take(k) =~= r);
    }
}

/// Reads the number whose digits start at `i`.
fn parse_number_at(s: &Vec<char>, i: usize) -> (r: Result<(usize, usize), EmitError>)
    requires
        i <= s@.len(),
    ensures
        r is Ok ==> i < r->Ok_0.1 <= s@.len(),
        parse_number(s@, i as int) == match r {
            Ok((n, j)) => Ok((n, j as int)),
            Err(e) => Err(e),
        },
{
    let j = scan_run(s, i, CharClass::Digit);
    if j == i {
        return Err(EmitError::InvalidNumber);
    }
    proof {
        lemma_run_end_bounds(s@, i as int, CharClass::Digit);
    }
    let ghost digits = s@.subrange(i as int, j as int);
    let mut n: usize = 0;
    let mut k: usize = i;
    assert(digits.take(0) =~= Seq::empty());
    while k < j
        invariant
            i <= k <= j <= s@.len(),
            j == run_end(s@, i as int, CharClass::Digit),
            digits == s@.subrange(i as int, j as int),
            forall|x: int| i <= x < j ==> is_digit(#[trigger] s@[x]),
            n == digits_value(digits.take(k - i)),
        decreases j - k,
    {
        let c = char_at(s, k);
        assert(is_digit(s@[k as int]));
        let d = (c as u32 - '0' as u32) as usize;
        proof {
            assert(digits.take(k - i + 1).drop_last() =~= digits.take(k - i));
            assert(digits.take(k - i + 1).last() == c);
            assert(d == digit_value(c));
            assert(digits_value(digits.take(k - i + 1)) == n * 10 + d);
            lemma_digits_value_prefix(digits, k - i + 1);
        }
        if n > (usize::MAX - d) / 10 {
            return Err(EmitError::InvalidNumber);
        }
        n = n * 10 + d;
        k += 1;
    }
    assert(digits.take(j - i) =~= digits);
    Ok((n, j))
}

/// Reads the literal that starts at `i`.
fn parse_literal_at(s: &Vec<char>, i: usize, nested: bool) -> (r: Result<
    (Vec<LiteralPart>, usize),
    EmitError,
>)
    requires
        i <= s@.len(),
    ensures
        r is Ok ==> i <= r->Ok_0.1 <= s@.len(),
        r is Ok && i < s@.len() && (s@[i as int] == '\\' || in_class(
            literal_class(nested),
            s@[i as int],
        )) ==> i < r->Ok_0.1,
        parse_literal(s@, i as int, nested, Seq::empty()) == match r {
            Ok((parts, j)) => Ok((literal_parts_view(parts@), j as int)),
            Err(e) => Err(e),
        },
{
    let class = if nested {
        CharClass::NestedLiteral
    } else {
        CharClass::Literal
    };
    let mut parts: Vec<LiteralPart> = Vec::new();
    let mut k: usize = i;
    assert(literal_parts_view(parts@) =~= Seq::empty());
    while k < s.len()
        invariant
            i <= k <= s@.len(),
            class == literal_class(nested),
            parse_literal(s@, i as int, nested, Seq::empty()) == parse_literal(
                s@,
                k as int,
                nested,
                literal_parts_view(parts@),
            ),
        decreases s@.len() - k,
    {
        let ghost before = literal_parts_view(parts@);
        let c = s[k];
        if c == '\\' {
            if k + 1 < s.len() && is_escapable_char(s[k + 1]) {
                let escaped = char_at(s, k + 1);
                if escaped == '\n' {
                    parts.push(LiteralPart::LineContinuation);
                } else {
                    parts.push(LiteralPart::Escaped(escaped));
                }
                assert(literal_parts_view(parts@) =~= before.push(escaped_part(escaped)));
                k += 2;
            } else {
                return Err(EmitError::DisallowedEscape);
            }
        } else if class_contains(class, c) {
            let j = scan_run(s, k, class);
            proof {
                lemma_run_end_bounds(s@, k as int, class);
            }
            parts.push(LiteralPart::String(slice_string(s, k, j)));
            assert(literal_parts_view(parts@) =~= before.push(
                LiteralPartView::String(s@.subrange(k as int, j as int)),
            ));
            k = j;
        } else {
            return Ok((parts, k));
        }
    }
    Ok((parts, k))
}

/// Reads the pattern that starts at `i`.
fn parse_pattern_at(s: &Vec<char>, i: usize, replace: bool) -> (r: Result<
    (GlobPattern, usize),
    EmitError,
>)
    requires
        i <= s@.len(),
    ensures
        r is Ok ==> i <= r->Ok_0.1 <= s@.len(),
        parse_pattern(s@, i as int, replace, Seq::empty()) == match r {
            Ok((pattern, j)) => Ok((pattern@, j as int)),
            Err(e) => Err(e),
        },
{
    let class = if replace {
        CharClass::ReplaceGlob
    } else {
        CharClass::Glob
    };
    let mut parts: Vec<GlobPart> = Vec::new();
    let mut k: usize = i;
    assert(glob_parts_view(parts@) =~= Seq::empty());
    while k < s.len()
        invariant
            i <= k <= s@.len(),
            class == glob_class(replace),
            parse_pattern(s@, i as int, replace, Seq::empty()) == parse_pattern(
                s@,
                k as int,
                replace,
                glob_parts_view(parts@),
            ),
        decreases s@.len() - k,
    {
        let ghost before = glob_parts_view(parts@);
        let c = s[k];
        if c == '*' {
            parts.push(GlobPart::AnyString);
            assert(glob_parts_view(parts@) =~= before.push(GlobPartView::AnyString));
            k += 1;
        } else if c == '?' {
            parts.push(GlobPart::AnyChar);
            assert(glob_parts_view(parts@) =~= before.push(GlobPartView::AnyChar));
            k += 1;
        } else if c == '[' {
            let j = scan_run(s, k + 1, CharClass::Bracketed);
            if j < s.len() && s[j] == ']' {
                parts.push(GlobPart::Range(slice_string(s, k + 1, j)));
                assert(glob_parts_view(parts@) =~= before.push(
                    GlobPartView::Range(s@.subrange(k + 1, j as int)),
                ));
                k = j + 1;
            } else if j < s.len() {
                return Err(EmitError::DisallowedEscape);
            } else {
                return Err(EmitError::UnterminatedRange);
            }
        } else if c == '\\' {
            if k + 1 < s.len() && is_escapable_char(s[k + 1]) {
                parts.push(GlobPart::Escaped(char_at(s, k + 1)));
                assert(glob_parts_view(parts@) =~= before.push(
                    GlobPartView::Escaped(s@[k + 1]),
                ));
                k += 2;
            } else {
                return Err(EmitError::DisallowedEscape);
            }
        } else if class_contains(class, c) {
            let j = scan_run(s, k, class);
            proof {
                lemma_run_end_bounds(s@, k as int, class);
            }
            parts.push(GlobPart::String(slice_string(s, k, j)));
            assert(glob_parts_view(parts@) =~= before.push(
                GlobPartView::String(s@.subrange(k as int, j as int)),
            ));
            k = j;
        } else {
            return Ok((GlobPattern(parts), k));
        }
    }
    Ok((GlobPattern(parts), k))
}

/// The modifier with the operator `op` and the given pattern.
fn pattern_modifier(op: PatternOp, pattern: GlobPattern) -> (m: ExpansionModifier)
    ensures
        m@ == (ModifierView::Pattern { op, pattern: pattern@ }),
{
    let pattern = Rc::new(pattern);
    match op {
        PatternOp::StripShortestPrefix => ExpansionModifier::StripShortestPrefix(pattern),
        PatternOp::StripLongestPrefix => ExpansionModifier::StripLongestPrefix(pattern),
        PatternOp::StripShortestSuffix => ExpansionModifier::StripShortestSuffix(pattern),
        PatternOp::StripLongestSuffix => ExpansionModifier::StripLongestSuffix(pattern),
        PatternOp::UpperOnce => ExpansionModifier::UpperOnce(pattern),
        PatternOp::UpperAll => ExpansionModifier::UpperAll(pattern),
        PatternOp::LowerOnce => ExpansionModifier::LowerOnce(pattern),
        PatternOp::LowerAll => ExpansionModifier::LowerAll(pattern),
    }
}

/// The modifier with the operator `op` that puts `string` in the place of `pattern`.
fn replace_modifier(op: ReplaceOp, pattern: GlobPattern, string: Text) -> (m: ExpansionModifier)
    ensures
        m@ == (ModifierView::Replace { op, pattern: pattern@, string: string@ }),
{
    let pattern = Rc::new(pattern);
    let string = Rc::new(string);
    match op {
        ReplaceOp::Once => ExpansionModifier::ReplaceOnce { pattern, string },
        ReplaceOp::All => ExpansionModifier::ReplaceAll { pattern, string },
        ReplaceOp::Prefix => ExpansionModifier::ReplacePrefix { pattern, string },
        ReplaceOp::Suffix => ExpansionModifier::ReplaceSuffix { pattern, string },
    }
}

/// The modifier with the operator `op` and the given text.
fn text_modifier(op: TextOp, text: Text) -> (m: ExpansionModifier)
    ensures
        m@ == (ModifierView::Text { op, text: text@ }),
{
    let text = Rc::new(text);
    match op {
        TextOp::ErrorOnUnset => ExpansionModifier::ErrorOnUnset(text),
        TextOp::WhenUnset => ExpansionModifier::WhenUnset(text),
        TextOp::WhenSet => ExpansionModifier::WhenSet(text),
    }
}

/// Reads the substring modifier whose offset starts at `i`.
fn parse_substring_at(s: &Vec<char>, i: usize) -> (r: Result<
    (ExpansionModifier, usize),
    EmitError,
>)
    requires
        i <= s@.len(),
    ensures
        r is Ok ==> i < r->Ok_0.1 <= s@.len(),
        parse_substring(s@, i as int) == match r {
            Ok((m, j)) => Ok((m@, j as int)),
            Err(e) => Err(e),
        },
{
    match parse_number_at(s, i) {
        Ok((offset, k)) => {
            if k < s.len() && s[k] == ':' {
                match parse_number_at(s, k + 1) {
                    Ok((length, k2)) => {
                        if k2 < s.len() && s[k2] != '}' {
                            Err(EmitError::InvalidNumber)
                        } else {
                            Ok((ExpansionModifier::Substring { offset, length: Some(length) }, k2))
                        }
                    },
                    Err(e) => Err(e),
                }
            } else if k < s.len() && s[k] != '}' {
                Err(EmitError::InvalidNumber)
            } else {
                Ok((ExpansionModifier::Substring { offset, length: None }, k))
            }
        },
        Err(e) => Err(e),
    }
}

/// The operator that is the character `c`, once or twice.
fn pattern_op_of(c: char, doubled: bool) -> (op: PatternOp)
    ensures
        op == pattern_op(c, doubled),
{
    if c == '#' {
        if doubled {
            PatternOp::StripLongestPrefix
        } else {
            PatternOp::StripShortestPrefix
        }
    } else if c == '%' {
        if doubled {
            PatternOp::StripLongestSuffix
        } else {
            PatternOp::StripShortestSuffix
        }
    } else if c == '^' {
        if doubled {
            PatternOp::UpperAll
        } else {
            PatternOp::UpperOnce
        }
    } else {
        if doubled {
            PatternOp::LowerAll
        } else {
            PatternOp::LowerOnce
        }
    }
}

/// Reads the words that start at `i`.
fn parse_words_at(s: &Vec<char>, i: usize, nested: bool) -> (r: Result<
    (Vec<Word>, usize),
    EmitError,
>)
    requires
        i <= s@.len(),
    ensures
        r is Ok ==> i <= r->Ok_0.1 <= s@.len(),
        r is Ok && i < s@.len() && (s@[i as int] == '$' || s@[i as int] == '\\' || in_class(
            literal_class(nested),
            s@[i as int],
        )) ==> i < r->Ok_0.1,
        parse_words(s@, i as int, nested, Seq::empty()) == match r {
            Ok((words, j)) => Ok((words_view(words@), j as int)),
            Err(e) => Err(e),
        },
    decreases s@.len() - i, 0nat,
{
    let class = if nested {
        CharClass::NestedLiteral
    } else {
        CharClass::Literal
    };
    let len = s.len();
    let mut words: Vec<Word> = Vec::new();
    let mut k: usize = i;
    assert(words_view(words@) =~= Seq::empty());
    while k < len
        invariant
            i <= k <= s@.len(),
            len == s@.len(),
            class == literal_class(nested),
            parse_words(s@, i as int, nested, Seq::empty()) == parse_words(
                s@,
                k as int,
                nested,
                words_view(words@),
            ),
        decreases s@.len() - k,
    {
        let ghost before = words_view(words@);
        let c = s[k];
        if c == '$' {
            if k + 1 < len && s[k + 1] == '{' {
                match parse_expansion_at(s, k + 2) {
                    Ok((expansion, j)) => {
                        let word = Word::BracedVariable(expansion);
                        words.push(word);
                        assert(words_view(words@) =~= before.push(
                            WordView::BracedVariable(expansion@),
                        ));
                        k = j;
                    },
                    Err(e) => {
                        return Err(e);
                    },
                }
            } else if k + 1 < len && is_name_start_char(s[k + 1]) {
                let j = scan_run(s, k + 1, CharClass::Name);
                proof {
                    lemma_run_end_bounds(s@, k + 1, CharClass::Name);
                }
                words.push(Word::UnbracedVariable(slice_string(s, k + 1, j)));
                assert(words_view(words@) =~= before.push(
                    WordView::UnbracedVariable(s@.subrange(k + 1, j as int)),
                ));
                k = j;
            } else if k + 1 < len && is_digit_char(s[k + 1]) {
                words.push(Word::UnbracedVariable(slice_string(s, k + 1, k + 2)));
                assert(words_view(words@) =~= before.push(
                    WordView::UnbracedVariable(s@.subrange(k + 1, k + 2)),
                ));
                k += 2;
            } else {
                return Err(EmitError::InvalidExpansion);
            }
        } else if c == '\\' || class_contains(class, c) {
            match parse_literal_at(s, k, nested) {
                Ok((parts, j)) => {
                    words.push(Word::Literal(parts));
                    assert(words_view(words@) =~= before.push(
                        WordView::Literal(literal_parts_view(parts@)),
                    ));
                    k = j;
                },
                Err(e) => {
                    return Err(e);
                },
            }
        } else {
            return Ok((words, k));
        }
    }
    Ok((words, k))
}

/// Reads the expansion whose text starts at `i`, behind `${`.
fn parse_expansion_at(s: &Vec<char>, i: usize) -> (r: Result<(BracedExpansion, usize), EmitError>)
    requires
        i <= s@.len(),
    ensures
        r is Ok ==> i < r->Ok_0.1 <= s@.len(),
        parse_expansion(s@, i as int) == match r {
            Ok((e, j)) => Ok((e@, j as int)),
            Err(e) => Err(e),
        },
    decreases s@.len() - i, 0nat,
{
    let len = s.len();
    if i < len && s[i] == '#' {
        let j = scan_run(s, i + 1, CharClass::Name);
        if j == i + 1 {
            Err(EmitError::InvalidExpansion)
        } else if j >= len {
            Err(EmitError::UnterminatedExpansion)
        } else if s[j] != '}' {
            Err(EmitError::UnknownModifier)
        } else {
            let expansion = BracedExpansion {
                name: slice_string(s, i + 1, j),
                modifier: Some(ExpansionModifier::Length),
            };
            Ok((expansion, j + 1))
        }
    } else {
        let j = scan_run(s, i, CharClass::Name);
        if j == i {
            Err(EmitError::InvalidExpansion)
        } else if j >= len {
            Err(EmitError::UnterminatedExpansion)
        } else {
            match parse_modifier_at(s, j) {
                Ok((modifier, k)) => {
                    if k < len && s[k] == '}' {
                        let expansion = BracedExpansion { name: slice_string(s, i, j), modifier };
                        Ok((expansion, k + 1))
                    } else {
                        Err(EmitError::UnterminatedExpansion)
                    }
                },
                Err(e) => Err(e),
            }
        }
    }
}

/// Reads the modifier that starts at `j`, behind the name.
fn parse_modifier_at(s: &Vec<char>, j: usize) -> (r: Result<
    (Option<ExpansionModifier>, usize),
    EmitError,
>)
    requires
        j < s@.len(),
    ensures
        r is Ok ==> j <= r->Ok_0.1 <= s@.len(),
        parse_modifier(s@, j as int) == match r {
            Ok((m, k)) => Ok(
                (
                    match m {
                        Some(m) => Some(m@),
                        None => None,
                    },
                    k as int,
                ),
            ),
            Err(e) => Err(e),
        },
    decreases s@.len() - j, 0nat,
{
    let len = s.len();
    let c = s[j];
    if c == '}' {
        Ok((None, j))
    } else if c == ':' {
        if j + 1 >= len {
            Err(EmitError::UnterminatedExpansion)
        } else if s[j + 1] == '?' || s[j + 1] == '-' || s[j + 1] == '+' {
            let op = if s[j + 1] == '?' {
                TextOp::ErrorOnUnset
            } else if s[j + 1] == '-' {
                TextOp::WhenUnset
            } else {
                TextOp::WhenSet
            };
            match parse_units_at(s, j + 2) {
                Ok((text, k)) => Ok((Some(text_modifier(op, text)), k)),
                Err(e) => Err(e),
            }
        } else {
            match parse_substring_at(s, j + 1) {
                Ok((m, k)) => Ok((Some(m), k)),
                Err(e) => Err(e),
            }
        }
    } else if c == '#' || c == '%' || c == '^' || c == ',' {
        let doubled = j + 1 < len && s[j + 1] == c;
        let start = if doubled {
            j + 2
        } else {
            j + 1
        };
        match parse_pattern_at(s, start, false) {
            Ok((pattern, k)) => Ok(
                (Some(pattern_modifier(pattern_op_of(c, doubled), pattern)), k),
            ),
            Err(e) => Err(e),
        }
    } else if c == '/' {
        let op = if j + 1 < len && s[j + 1] == '/' {
            ReplaceOp::All
        } else if j + 1 < len && s[j + 1] == '#' {
            ReplaceOp::Prefix
        } else if j + 1 < len && s[j + 1] == '%' {
            ReplaceOp::Suffix
        } else {
            ReplaceOp::Once
        };
        let start = match op {
            ReplaceOp::Once => j + 1,
            _ => j + 2,
        };
        match parse_pattern_at(s, start, true) {
            Ok((pattern, k)) => {
                if k < len && s[k] == '/' {
                    match parse_units_at(s, k + 1) {
                        Ok((string, k2)) => Ok(
                            (Some(replace_modifier(op, pattern, string)), k2),
                        ),
                        Err(e) => Err(e),
                    }
                } else {
                    Err(EmitError::UnterminatedPattern)
                }
            },
            Err(e) => Err(e),
        }
    } else {
        Err(EmitError::UnknownModifier)
    }
}

/// Reads the text inside an expansion that starts at `i`.
fn parse_units_at(s: &Vec<char>, i: usize) -> (r: Result<(Text, usize), EmitError>)
    requires
        i <= s@.len(),
    ensures
        r is Ok ==> i <= r->Ok_0.1 <= s@.len(),
        parse_units(s@, i as int, Seq::empty()) == match r {
            Ok((text, j)) => Ok((text@, j as int)),
            Err(e) => Err(e),
        },
    decreases s@.len() - i, 1nat,
{
    let len = s.len();
    let mut units: Vec<TextUnit> = Vec::new();
    let mut k: usize = i;
    assert(units_view(units@) =~= Seq::empty());
    while k < len && s[k] != '}'
        invariant
            i <= k <= s@.len(),
            len == s@.len(),
            parse_units(s@, i as int, Seq::empty()) == parse_units(
                s@,
                k as int,
                units_view(units@),
            ),
        decreases s@.len() - k,
    {
        let ghost before = units_view(units@);
        if s[k] == '\'' {
            let j = scan_run(s, k + 1, CharClass::NestedQuoted);
            if j < len && s[j] == '\'' {
                units.push(TextUnit::SingleQuote(slice_string(s, k + 1, j)));
                assert(units_view(units@) =~= before.push(
                    TextUnitView::SingleQuote(s@.subrange(k + 1, j as int)),
                ));
                k = j + 1;
            } else if j < len {
                return Err(EmitError::DisallowedEscape);
            } else {
                return Err(EmitError::UnterminatedQuote);
            }
        } else {
            match parse_words_at(s, k, true) {
                Ok((words, j)) => {
                    units.push(TextUnit::Unquoted(words));
                    assert(units_view(units@) =~= before.push(
                        TextUnitView::Unquoted(words_view(words@)),
                    ));
                    k = j;
                },
                Err(e) => {
                    return Err(e);
                },
            }
        }
    }
    Ok((Text(units), k))
}

/// The result of reading the meaning of a part of the lossless tree.
pub type EmitResult<T> = Result<T, EmitError>;

/// Reads the raw text of a unit outside braces as words.
fn emit_words_from(raw: &String) -> (r: EmitResult<Vec<Word>>)
    ensures
        emit_words(raw@) == match r {
            Ok(words) => Ok(words_view(words@)),
            Err(e) => Err(e),
        },
{
    let chars = to_chars(raw.as_str());
    match parse_words_at(&chars, 0, false) {
        Ok((words, _)) => Ok(words),
        Err(e) => Err(e),
    }
}

impl TextUnit {
    /// The meaning of a unit of the lossless tree, or why it has none.
    pub fn emit_from(unit: &lst::TextUnit) -> (r: EmitResult<TextUnit>)
        ensures
            emit_unit(unit@) == match r {
                Ok(u) => Ok(u@),
                Err(e) => Err(e),
            },
            wf_unit(unit@) && r is Ok ==> valid_unit(r->Ok_0@),
    {
        proof {
            if wf_unit(unit@) && emit_unit(unit@) is Ok {
                lemma_emitted_unit_valid(unit@);
            }
        }
        match unit {
            lst::TextUnit::Unquoted(raw) => match emit_words_from(raw) {
                Ok(words) => Ok(TextUnit::Unquoted(words)),
                Err(e) => Err(e),
            },
            lst::TextUnit::SingleQuote(raw) => Ok(TextUnit::SingleQuote(raw.clone())),
            lst::TextUnit::DoubleQuote(raw) => match emit_words_from(raw) {
                Ok(words) => Ok(TextUnit::DoubleQuote(words)),
                Err(e) => Err(e),
            },
        }
    }
}

impl Text {
    /// The meaning of a section of text of the lossless tree: that of each
    /// unit, or the error of the first unit that has none.
    pub fn emit_from(text: &lst::Text) -> (r: EmitResult<Text>)
        ensures
            emit_text(text@) == match r {
                Ok(t) => Ok(t@),
                Err(e) => Err(e),
            },
            wf_text(text@) && r is Ok ==> valid_text(r->Ok_0@),
    {
        proof {
            if wf_text(text@) && emit_text(text@) is Ok {
                assert(valid_text(Seq::<TextUnitView>::empty()));
                lemma_emitted_units_valid(text@, 0, Seq::empty());
            }
        }
        let mut units: Vec<TextUnit> = Vec::new();
        let mut i: usize = 0;
        assert(units_view(units@) =~= Seq::empty());
        while i < text.0.len()
            invariant
                i <= text.0@.len(),
                emit_text(text@) == emit_units(text@, i as int, units_view(units@)),
            decreases text.0@.len() - i,
        {
            let ghost before = units_view(units@);
            match TextUnit::emit_from(&text.0[i]) {
                Ok(unit) => {
                    units.push(unit);
                    assert(units_view(units@) =~= before.push(unit@));
                },
                Err(e) => {
                    return Err(e);
                },
            }
            i += 1;
        }
        Ok(Text(units))
    }
}

impl VariableValue {
    /// The meaning of a value of the lossless tree, or why it has none.
    pub fn emit_from(value: &lst::VariableValue) -> (r: EmitResult<VariableValue>)
        ensures
            emit_value(value@) == match r {
                Ok(v) => Ok(v@),
                Err(e) => Err(e),
            },
            wf_text(value@->String_0) && r is Ok ==> valid_value(r->Ok_0@),
    {
        match value {
            lst::VariableValue::String(text) => match Text::emit_from(text) {
                Ok(text) => Ok(VariableValue::String(text)),
                Err(e) => Err(e),
            },
        }
    }
}

impl VariableDefinition {
    /// The meaning of a definition of the lossless tree, or why it has none.
    pub fn emit_from(definition: &lst::VariableDefinition) -> (r: EmitResult<VariableDefinition>)
        ensures
            emit_definition(definition@) == match r {
                Ok(d) => Ok(d@),
                Err(e) => Err(e),
            },
            wf_definition(definition@) && r is Ok ==> valid_definition(r->Ok_0@),
    {
        match VariableValue::emit_from(&definition.value) {
            Ok(value) => Ok(VariableDefinition { name: definition.name.clone(), value }),
            Err(e) => Err(e),
        }
    }
}

/// Reads the meaning of the definitions among `tokens`.
pub fn emit_definitions(tokens: &Vec<lst::Token>) -> (r: EmitResult<Vec<VariableDefinition>>)
    ensures
        emit_document(lst::tokens_view(tokens@)) == match r {
            Ok(ds) => Ok(definitions_view(ds@)),
            Err(e) => Err(e),
        },
        wf_tokens(lst::tokens_view(tokens@)) && r is Ok ==> valid_definitions(
            definitions_view(r->Ok_0@),
        ),
{
    proof {
        let ts = lst::tokens_view(tokens@);
        if wf_tokens(ts) && emit_document(ts) is Ok {
            assert(valid_definitions(Seq::<VariableDefinitionView>::empty()));
            lemma_emitted_tokens_valid(ts, 0, Seq::empty());
        }
    }
    let ghost all = lst::tokens_view(tokens@);
    let mut definitions: Vec<VariableDefinition> = Vec::new();
    let mut i: usize = 0;
    assert(definitions_view(definitions@) =~= Seq::empty());
    while i < tokens.len()
        invariant
            i <= tokens@.len(),
            all == lst::tokens_view(tokens@),
            emit_document(all) == emit_tokens(all, i as int, definitions_view(definitions@)),
        decreases tokens@.len() - i,
    {
        let ghost before = definitions_view(definitions@);
        if let lst::Token::Variable(definition) = &tokens[i] {
            match VariableDefinition::emit_from(definition) {
                Ok(definition) => {
                    definitions.push(definition);
                    assert(definitions_view(definitions@) =~= before.push(definition@));
                },
                Err(e) => {
                    return Err(e);
                },
            }
        }
        i += 1;
    }
    Ok(definitions)
}

impl ApmlAst {
    /// The meaning of a document: that of its definitions, in order, or
    /// the error of the first definition that has none.
    pub fn emit_from(lst: &lst::ApmlLst) -> (r: EmitResult<ApmlAst>)
        ensures
            emit_document(lst@) == match r {
                Ok(ast) => Ok(ast@),
                Err(e) => Err(e),
            },
            wf_tokens(lst@) && r is Ok ==> valid_definitions(r->Ok_0@),
    {
        match emit_definitions(&lst.0) {
            Ok(definitions) => Ok(ApmlAst(definitions)),
            Err(e) => Err(e),
        }
    }
}

} // verus!
