//! Tests of validity: whether a value of the semantic tree is written
//! the way the grammar reads it, and whether a lossless tree is one that
//! the parser gives.

use vstd::prelude::*;
use crate::apml::lst;
use crate::apml::ast::{
    ApmlAst, BracedExpansion, ExpansionModifier, GlobPart, GlobPattern, LiteralPart, ModifierView,
    PatternOp, ReplaceOp, Text, TextUnit, VariableDefinition, VariableValue, Word, glob_parts_view,
    literal_parts_view, units_view, words_view,
};
use crate::apml::text::{
    CharClass, class_contains, in_class, is_digit_char, is_escapable_char, is_name_character,
    is_name_start_char, to_chars,
};
use crate::apml::valid::{
    is_identifier, is_name, is_safe, is_variable_name, may_follow, pattern_starts_with,
    starts_like_name, valid_definition, valid_definitions, valid_expansion, valid_glob_part,
    valid_literal_part, valid_literal_parts, valid_modifier, valid_nested_text, valid_nested_unit,
    valid_pattern, valid_text, valid_unit, valid_value, valid_word, valid_words,
};
use crate::apml::wellformed::{
    is_raw_text, may_stand_behind, wf_definition, wf_text, wf_token, wf_tokens, wf_unit,
};

verus! {

/// Says whether `c` can stand in the raw text of a value without a backslash.
fn is_safe_char(c: char, quoted: bool) -> (r: bool)
    ensures
        r == is_safe(c, quoted),
{
    c != '\\' && c != '\n' && c != '"' && (quoted || (c != ' ' && c != '\''))
}

/// Says whether all characters of `t` are of the class `class`.
fn all_of_class(t: &str, class: CharClass) -> (r: bool)
    ensures
        r == forall|i: int| 0 <= i < t@.len() ==> in_class(class, #[trigger] t@[i]),
{
    let chars = to_chars(t);
    let mut i: usize = 0;
    while i < chars.len()
        invariant
            i <= chars@.len(),
            chars@ == t@,
            forall|k: int| 0 <= k < i ==> in_class(class, #[trigger] t@[k]),
        decreases chars@.len() - i,
    {
        if !class_contains(class, chars[i]) {
            assert(!in_class(class, t@[i as int]));
            return false;
        }
        i += 1;
    }
    true
}

/// Says whether all characters of `t` are of the class `class` and can
/// stand in raw text without a backslash.
fn all_of_class_safe(t: &str, class: CharClass, quoted: bool) -> (r: bool)
    ensures
        r == forall|i: int|
            0 <= i < t@.len() ==> in_class(class, #[trigger] t@[i]) && is_safe(t@[i], quoted),
{
    let chars = to_chars(t);
    let mut i: usize = 0;
    while i < chars.len()
        invariant
            i <= chars@.len(),
            chars@ == t@,
            forall|k: int|
                0 <= k < i ==> in_class(class, #[trigger] t@[k]) && is_safe(t@[k], quoted),
        decreases chars@.len() - i,
    {
        if !class_contains(class, chars[i]) || !is_safe_char(chars[i], quoted) {
            assert(!(in_class(class, t@[i as int]) && is_safe(t@[i as int], quoted)));
            return false;
        }
        i += 1;
    }
    true
}

/// The first character of `t`, if there is one.
fn first_char(t: &str) -> (r: Option<char>)
    ensures
        match r {
            Some(c) => t@.len() > 0 && c == t@[0],
            None => t@.len() == 0,
        },
{
    let chars = to_chars(t);
    if chars.len() > 0 {
        Some(chars[0])
    } else {
        None
    }
}

/// Says whether `n` is a name.
pub fn is_name_text(n: &str) -> (r: bool)
    ensures
        r == is_name(n@),
{
    first_char(n).is_some() && all_of_class(n, CharClass::Name)
}

/// Says whether `n` is an identifier.
pub fn is_identifier_text(n: &str) -> (r: bool)
    ensures
        r == is_identifier(n@),
{
    match first_char(n) {
        Some(c) => is_name_start_char(c) && all_of_class(n, CharClass::Name),
        None => false,
    }
}

/// Says whether `n` can follow a `$` without braces.
fn is_variable_name_text(n: &str) -> (r: bool)
    ensures
        r == is_variable_name(n@),
{
    if is_identifier_text(n) {
        true
    } else {
        let chars = to_chars(n);
        chars.len() == 1 && is_digit_char(chars[0])
    }
}

/// Says whether a part of a literal is valid.
fn literal_part_is_valid(p: &LiteralPart, quoted: bool, nested: bool) -> (r: bool)
    ensures
        r == valid_literal_part(p@, quoted, nested),
{
    match p {
        LiteralPart::String(t) => {
            let class = if nested {
                CharClass::NestedLiteral
            } else {
                CharClass::Literal
            };
            let filled = first_char(t.as_str()).is_some();
            let plain = all_of_class_safe(t.as_str(), class, quoted);
            assert(p@->String_0 == t@);
            filled && plain
        },
        LiteralPart::Escaped(c) => is_escapable_char(*c) && *c != '\n',
        LiteralPart::LineContinuation => true,
    }
}

/// Says whether a part of a literal is a string.
fn is_string_part(p: &LiteralPart) -> (r: bool)
    ensures
        r == (p@ is String),
{
    match p {
        LiteralPart::String(_) => true,
        _ => false,
    }
}

/// Says whether a part of a pattern is a string.
fn is_string_glob(p: &GlobPart) -> (r: bool)
    ensures
        r == (p@ is String),
{
    match p {
        GlobPart::String(_) => true,
        _ => false,
    }
}

/// Says whether a unit of text holds words outside quotes.
fn is_unquoted_unit(u: &TextUnit) -> (r: bool)
    ensures
        r == (u@ is Unquoted),
{
    match u {
        TextUnit::Unquoted(_) => true,
        _ => false,
    }
}

/// Says whether a unit of raw text stands outside quotes.
fn is_unquoted_raw(u: &lst::TextUnit) -> (r: bool)
    ensures
        r == (u@ is Unquoted),
{
    match u {
        lst::TextUnit::Unquoted(_) => true,
        _ => false,
    }
}

/// Says whether the parts of a literal are valid.
fn literal_is_valid(parts: &Vec<LiteralPart>, quoted: bool, nested: bool) -> (r: bool)
    ensures
        r == valid_literal_parts(literal_parts_view(parts@), quoted, nested),
{
    let ghost all = literal_parts_view(parts@);
    let mut i: usize = 0;
    while i < parts.len()
        invariant
            i <= parts@.len(),
            all == literal_parts_view(parts@),
            forall|k: int| 0 <= k < i ==> valid_literal_part(#[trigger] all[k], quoted, nested),
            forall|k: int|
                0 <= k < i - 1 ==> !(#[trigger] all[k] is String && all[k + 1] is String),
        decreases parts@.len() - i,
    {
        if !literal_part_is_valid(&parts[i], quoted, nested) {
            assert(!valid_literal_part(all[i as int], quoted, nested));
            return false;
        }
        if i > 0 {
            if is_string_part(&parts[i - 1]) && is_string_part(&parts[i]) {
                assert(all[i - 1] is String && all[i - 1 + 1] is String);
                return false;
            }
        }
        i += 1;
    }
    true
}

/// Says whether all characters of `t` can stand between brackets.
fn is_bracketed_text(t: &str, quoted: bool) -> (ok: bool)
    ensures
        ok == forall|i: int| 0 <= i < t@.len() ==> (#[trigger] t@[i]) != ']' && is_safe(t@[i], quoted),
{
    let ok = all_of_class_safe(t, CharClass::Bracketed, quoted);
    proof {
        if ok {
            assert forall|i: int| 0 <= i < t@.len() implies (#[trigger] t@[i]) != ']' && is_safe(
                t@[i],
                quoted,
            ) by {
                assert(in_class(CharClass::Bracketed, t@[i]));
            }
        }
    }
    ok
}

/// Says whether `t` holds neither a single quote nor a newline.
fn is_single_quoted_text(t: &str) -> (ok: bool)
    ensures
        ok == forall|i: int| 0 <= i < t@.len() ==> (#[trigger] t@[i]) != '\'' && t@[i] != '\n',
{
    let ok = all_of_class(t, CharClass::SingleQuoted);
    proof {
        if ok {
            assert forall|i: int| 0 <= i < t@.len() implies (#[trigger] t@[i]) != '\'' && t@[i]
                != '\n' by {
                assert(in_class(CharClass::SingleQuoted, t@[i]));
            }
        }
    }
    ok
}

/// Says whether all characters of `t` can stand between single quotes inside braces.
fn is_nested_quoted_text(t: &str, quoted: bool) -> (ok: bool)
    ensures
        ok == forall|i: int|
            0 <= i < t@.len() ==> (#[trigger] t@[i]) != '\'' && is_safe(t@[i], quoted),
{
    let ok = all_of_class_safe(t, CharClass::NestedQuoted, quoted);
    proof {
        if ok {
            assert forall|i: int| 0 <= i < t@.len() implies (#[trigger] t@[i]) != '\''
                && is_safe(t@[i], quoted) by {
                assert(in_class(CharClass::NestedQuoted, t@[i]));
            }
        }
    }
    ok
}

/// Says whether `t` holds no newline.
fn is_comment_text(t: &str) -> (ok: bool)
    ensures
        ok == forall|i: int| 0 <= i < t@.len() ==> (#[trigger] t@[i]) != '\n',
{
    let ok = all_of_class(t, CharClass::NotNewline);
    proof {
        if ok {
            assert forall|i: int| 0 <= i < t@.len() implies (#[trigger] t@[i]) != '\n' by {
                assert(in_class(CharClass::NotNewline, t@[i]));
            }
        }
    }
    ok
}

/// Says whether a part of a pattern is valid.
fn glob_part_is_valid(p: &GlobPart, quoted: bool, replace: bool) -> (ok: bool)
    ensures
        ok == valid_glob_part(p@, quoted, replace),
{
    match p {
        GlobPart::String(t) => {
            let class = if replace {
                CharClass::ReplaceGlob
            } else {
                CharClass::Glob
            };
            let filled = first_char(t.as_str()).is_some();
            let plain = all_of_class_safe(t.as_str(), class, quoted);
            assert(p@->String_0 == t@);
            filled && plain
        },
        GlobPart::Escaped(c) => is_escapable_char(*c),
        GlobPart::AnyString => true,
        GlobPart::AnyChar => true,
        GlobPart::Range(text) => {
            assert(p@->Range_0 == text@);
            is_bracketed_text(text.as_str(), quoted)
        },
    }
}

/// Says whether a pattern is valid.
fn pattern_is_valid(pattern: &GlobPattern, quoted: bool, replace: bool) -> (r: bool)
    ensures
        r == valid_pattern(pattern@, quoted, replace),
{
    let parts = &pattern.0;
    let ghost all = pattern@;
    let mut i: usize = 0;
    while i < parts.len()
        invariant
            i <= parts@.len(),
            all == glob_parts_view(parts@),
            all == pattern@,
            forall|k: int| 0 <= k < i ==> valid_glob_part(#[trigger] all[k], quoted, replace),
            forall|k: int|
                0 <= k < i - 1 ==> !(#[trigger] all[k] is String && all[k + 1] is String),
        decreases parts@.len() - i,
    {
        if !glob_part_is_valid(&parts[i], quoted, replace) {
            assert(!valid_glob_part(all[i as int], quoted, replace));
            return false;
        }
        if i > 0 {
            if is_string_glob(&parts[i - 1]) && is_string_glob(&parts[i]) {
                assert(all[i - 1] is String && all[i - 1 + 1] is String);
                return false;
            }
        }
        i += 1;
    }
    true
}

/// Says whether the text of a pattern starts with `c`.
fn pattern_starts(pattern: &GlobPattern, c: char) -> (r: bool)
    ensures
        r == pattern_starts_with(pattern@, c),
{
    if pattern.0.len() == 0 {
        false
    } else {
        assert(pattern@[0] == pattern.0@[0]@);
        match &pattern.0[0] {
            GlobPart::String(t) => match first_char(t.as_str()) {
                Some(first) => first == c,
                None => false,
            },
            _ => false,
        }
    }
}

/// Says whether the text of a word starts with a character of a name.
fn word_starts_like_name(w: &Word) -> (r: bool)
    ensures
        r == starts_like_name(w@),
{
    match w {
        Word::Literal(parts) => {
            if parts.len() == 0 {
                false
            } else {
                assert(literal_parts_view(parts@)[0] == parts@[0]@);
                match &parts[0] {
                    LiteralPart::String(t) => match first_char(t.as_str()) {
                        Some(first) => is_name_character(first),
                        None => false,
                    },
                    _ => false,
                }
            }
        },
        _ => false,
    }
}

/// Says whether `next` can stand behind `w` and be told apart from it.
fn word_may_follow(w: &Word, next: &Word) -> (r: bool)
    ensures
        r == may_follow(w@, next@),
{
    match w {
        Word::Literal(_) => match next {
            Word::Literal(_) => false,
            _ => true,
        },
        Word::UnbracedVariable(n) => match first_char(n.as_str()) {
            Some(first) => !is_name_start_char(first) || !word_starts_like_name(next),
            None => true,
        },
        Word::BracedVariable(_) => true,
    }
}

/// Says whether a modifier with one pattern is valid.
fn pattern_modifier_is_valid(op: PatternOp, pattern: &GlobPattern, quoted: bool) -> (r: bool)
    ensures
        r == valid_modifier(ModifierView::Pattern { op, pattern: pattern@ }, quoted),
{
    if !pattern_is_valid(pattern, quoted, false) {
        return false;
    }
    match op {
        PatternOp::StripShortestPrefix => !pattern_starts(pattern, '#'),
        PatternOp::StripShortestSuffix => !pattern_starts(pattern, '%'),
        PatternOp::UpperOnce => !pattern_starts(pattern, '^'),
        PatternOp::LowerOnce => !pattern_starts(pattern, ','),
        _ => true,
    }
}

/// Says whether a list of words is valid.
fn words_are_valid(words: &Vec<Word>, quoted: bool, nested: bool) -> (r: bool)
    ensures
        r == valid_words(words_view(words@), quoted, nested),
    decreases words, 1nat,
{
    let ghost all = words_view(words@);
    let mut i: usize = 0;
    while i < words.len()
        invariant
            i <= words@.len(),
            all == words_view(words@),
            forall|k: int| 0 <= k < i ==> valid_word(#[trigger] all[k], quoted, nested),
            forall|k: int| 0 <= k < i - 1 ==> may_follow(#[trigger] all[k], all[k + 1]),
        decreases words@.len() - i,
    {
        assert(all[i as int] == words@[i as int]@);
        if !word_is_valid(&words[i], quoted, nested) {
            assert(!valid_word(all[i as int], quoted, nested));
            return false;
        }
        if i > 0 {
            assert(all[i - 1] == words@[i - 1]@);
            if !word_may_follow(&words[i - 1], &words[i]) {
                assert(!may_follow(all[i - 1], all[i - 1 + 1]));
                return false;
            }
        }
        i += 1;
    }
    true
}

/// Says whether a word is valid.
fn word_is_valid(w: &Word, quoted: bool, nested: bool) -> (r: bool)
    ensures
        r == valid_word(w@, quoted, nested),
    decreases w, 0nat,
{
    match w {
        Word::Literal(parts) => parts.len() > 0 && literal_is_valid(parts, quoted, nested),
        Word::UnbracedVariable(n) => is_variable_name_text(n.as_str()),
        Word::BracedVariable(e) => expansion_is_valid(e, quoted),
    }
}

/// Says whether a braced expansion is valid.
fn expansion_is_valid(e: &BracedExpansion, quoted: bool) -> (r: bool)
    ensures
        r == valid_expansion(e@, quoted),
    decreases e, 0nat,
{
    if !is_name_text(e.name.as_str()) {
        return false;
    }
    match &e.modifier {
        None => true,
        Some(m) => modifier_is_valid(m, quoted),
    }
}

/// Says whether a replacement is valid.
fn replace_modifier_is_valid(
    op: ReplaceOp,
    pattern: &GlobPattern,
    string: &Text,
    quoted: bool,
) -> (r: bool)
    ensures
        r == valid_modifier(
            ModifierView::Replace { op, pattern: pattern@, string: string@ },
            quoted,
        ),
    decreases string, 1nat,
{
    if !pattern_is_valid(pattern, quoted, true) {
        return false;
    }
    if !nested_text_is_valid(&string.0, quoted) {
        return false;
    }
    match op {
        ReplaceOp::Once => pattern.0.len() > 0 && !pattern_starts(pattern, '#') && !pattern_starts(
            pattern,
            '%',
        ),
        _ => true,
    }
}

/// Says whether a modifier is valid.
fn modifier_is_valid(m: &ExpansionModifier, quoted: bool) -> (r: bool)
    ensures
        r == valid_modifier(m@, quoted),
    decreases m, 0nat,
{
    match m {
        ExpansionModifier::Substring { offset, length } => true,
        ExpansionModifier::StripShortestPrefix(p) => pattern_modifier_is_valid(
            PatternOp::StripShortestPrefix,
            p,
            quoted,
        ),
        ExpansionModifier::StripLongestPrefix(p) => pattern_modifier_is_valid(
            PatternOp::StripLongestPrefix,
            p,
            quoted,
        ),
        ExpansionModifier::StripShortestSuffix(p) => pattern_modifier_is_valid(
            PatternOp::StripShortestSuffix,
            p,
            quoted,
        ),
        ExpansionModifier::StripLongestSuffix(p) => pattern_modifier_is_valid(
            PatternOp::StripLongestSuffix,
            p,
            quoted,
        ),
        ExpansionModifier::ReplaceOnce { pattern, string } => replace_modifier_is_valid(
            ReplaceOp::Once,
            pattern,
            string,
            quoted,
        ),
        ExpansionModifier::ReplaceAll { pattern, string } => replace_modifier_is_valid(
            ReplaceOp::All,
            pattern,
            string,
            quoted,
        ),
        ExpansionModifier::ReplacePrefix { pattern, string } => replace_modifier_is_valid(
            ReplaceOp::Prefix,
            pattern,
            string,
            quoted,
        ),
        ExpansionModifier::ReplaceSuffix { pattern, string } => replace_modifier_is_valid(
            ReplaceOp::Suffix,
            pattern,
            string,
            quoted,
        ),
        ExpansionModifier::UpperOnce(p) => pattern_modifier_is_valid(
            PatternOp::UpperOnce,
            p,
            quoted,
        ),
        ExpansionModifier::UpperAll(p) => pattern_modifier_is_valid(PatternOp::UpperAll, p, quoted),
        ExpansionModifier::LowerOnce(p) => pattern_modifier_is_valid(
            PatternOp::LowerOnce,
            p,
            quoted,
        ),
        ExpansionModifier::LowerAll(p) => pattern_modifier_is_valid(PatternOp::LowerAll, p, quoted),
        ExpansionModifier::ErrorOnUnset(t) => nested_text_is_valid(&t.0, quoted),
        ExpansionModifier::Length => true,
        ExpansionModifier::WhenUnset(t) => nested_text_is_valid(&t.0, quoted),
        ExpansionModifier::WhenSet(t) => nested_text_is_valid(&t.0, quoted),
    }
}

/// Says whether a unit of the text inside an expansion is valid.
fn nested_unit_is_valid(u: &TextUnit, quoted: bool) -> (r: bool)
    ensures
        r == valid_nested_unit(u@, quoted),
    decreases u, 0nat,
{
    match u {
        TextUnit::Unquoted(ws) => {
            assert(u@->Unquoted_0 == words_view(ws@));
            ws.len() > 0 && words_are_valid(ws, quoted, true)
        },
        TextUnit::SingleQuote(t) => {
            assert(u@->SingleQuote_0 == t@);
            quoted && is_nested_quoted_text(t.as_str(), quoted)
        },
        TextUnit::DoubleQuote(_) => false,
    }
}

/// Says whether the text inside an expansion is valid.
fn nested_text_is_valid(units: &Vec<TextUnit>, quoted: bool) -> (r: bool)
    ensures
        r == valid_nested_text(units_view(units@), quoted),
    decreases units, 1nat,
{
    let ghost all = units_view(units@);
    let mut i: usize = 0;
    while i < units.len()
        invariant
            i <= units@.len(),
            all == units_view(units@),
            forall|k: int| 0 <= k < i ==> valid_nested_unit(#[trigger] all[k], quoted),
            forall|k: int|
                0 <= k < i - 1 ==> !(#[trigger] all[k] is Unquoted && all[k + 1] is Unquoted),
        decreases units@.len() - i,
    {
        assert(all[i as int] == units@[i as int]@);
        if !nested_unit_is_valid(&units[i], quoted) {
            assert(!valid_nested_unit(all[i as int], quoted));
            return false;
        }
        if i > 0 {
            assert(all[i - 1] == units@[i - 1]@);
            if is_unquoted_unit(&units[i - 1]) && is_unquoted_unit(&units[i]) {
                assert(all[i - 1] is Unquoted && all[i - 1 + 1] is Unquoted);
                return false;
            }
        }
        i += 1;
    }
    true
}

impl TextUnit {
    /// Says whether this unit of the text of a value is written the way
    /// the grammar reads it.
    pub fn is_valid(&self) -> (r: bool)
        ensures
            r == valid_unit(self@),
    {
        match self {
            TextUnit::Unquoted(ws) => {
                assert(self@->Unquoted_0 == words_view(ws@));
                ws.len() > 0 && words_are_valid(ws, false, false)
            },
            TextUnit::SingleQuote(t) => {
                assert(self@->SingleQuote_0 == t@);
                is_single_quoted_text(t.as_str())
            },
            TextUnit::DoubleQuote(ws) => {
                assert(self@->DoubleQuote_0 == words_view(ws@));
                words_are_valid(ws, true, false)
            },
        }
    }
}

impl Text {
    /// Says whether this text of a value is written the way the grammar reads it.
    pub fn is_valid(&self) -> (r: bool)
        ensures
            r == valid_text(self@),
    {
        let units = &self.0;
        let ghost all = self@;
        let mut i: usize = 0;
        while i < units.len()
            invariant
                i <= units@.len(),
                all == units_view(units@),
                all == self@,
                forall|k: int| 0 <= k < i ==> valid_unit(#[trigger] all[k]),
                forall|k: int|
                    0 <= k < i - 1 ==> !(#[trigger] all[k] is Unquoted && all[k + 1] is Unquoted),
            decreases units@.len() - i,
        {
            assert(all[i as int] == units@[i as int]@);
            if !units[i].is_valid() {
                assert(!valid_unit(all[i as int]));
                return false;
            }
            if i > 0 {
                assert(all[i - 1] == units@[i - 1]@);
                if is_unquoted_unit(&units[i - 1]) && is_unquoted_unit(&units[i]) {
                    assert(all[i - 1] is Unquoted && all[i - 1 + 1] is Unquoted);
                    return false;
                }
            }
            i += 1;
        }
        true
    }
}

impl VariableValue {
    /// Says whether this value is written the way the grammar reads it.
    pub fn is_valid(&self) -> (r: bool)
        ensures
            r == valid_value(self@),
    {
        match self {
            VariableValue::String(t) => t.is_valid(),
        }
    }
}

impl VariableDefinition {
    /// Says whether this definition is written the way the grammar reads it.
    pub fn is_valid(&self) -> (r: bool)
        ensures
            r == valid_definition(self@),
    {
        is_identifier_text(self.name.as_str()) && self.value.is_valid()
    }
}

impl ApmlAst {
    /// Says whether each definition of this document is valid.
    pub fn is_valid(&self) -> (r: bool)
        ensures
            r == valid_definitions(self@),
    {
        let mut i: usize = 0;
        while i < self.0.len()
            invariant
                i <= self.0@.len(),
                forall|k: int| 0 <= k < i ==> valid_definition(#[trigger] self@[k]),
            decreases self.0@.len() - i,
        {
            if !self.0[i].is_valid() {
                assert(!valid_definition(self@[i as int]));
                return false;
            }
            i += 1;
        }
        true
    }
}

/// Says whether `t` is raw text.
fn is_raw(t: &str, quoted: bool) -> (r: bool)
    ensures
        r == is_raw_text(t@, 0, quoted),
{
    let chars = to_chars(t);
    let len = chars.len();
    let mut i: usize = 0;
    while i < len
        invariant
            i <= len,
            len == chars@.len(),
            chars@ == t@,
            is_raw_text(t@, 0, quoted) == is_raw_text(t@, i as int, quoted),
        decreases len - i,
    {
        if chars[i] == '\\' {
            if len - i < 2 {
                return false;
            }
            i += 2;
        } else {
            if !is_safe_char(chars[i], quoted) {
                return false;
            }
            i += 1;
        }
    }
    true
}

impl lst::TextUnit {
    /// Says whether this unit is one that the parser gives.
    pub fn is_well_formed(&self) -> (r: bool)
        ensures
            r == wf_unit(self@),
    {
        match self {
            lst::TextUnit::Unquoted(t) => {
                assert(self@->Unquoted_0 == t@);
                let filled = first_char(t.as_str()).is_some();
                let raw = is_raw(t.as_str(), false);
                filled && raw
            },
            lst::TextUnit::SingleQuote(t) => {
                assert(self@->SingleQuote_0 == t@);
                is_single_quoted_text(t.as_str())
            },
            lst::TextUnit::DoubleQuote(t) => {
                assert(self@->DoubleQuote_0 == t@);
                is_raw(t.as_str(), true)
            },
        }
    }
}

impl lst::Text {
    /// Says whether this text is one that the parser gives.
    pub fn is_well_formed(&self) -> (r: bool)
        ensures
            r == wf_text(self@),
    {
        let units = &self.0;
        let ghost all = self@;
        let mut i: usize = 0;
        while i < units.len()
            invariant
                i <= units@.len(),
                all == lst::units_view(units@),
                all == self@,
                forall|k: int| 0 <= k < i ==> wf_unit(#[trigger] all[k]),
                forall|k: int|
                    0 <= k < i - 1 ==> !(#[trigger] all[k] is Unquoted && all[k + 1] is Unquoted),
            decreases units@.len() - i,
        {
            assert(all[i as int] == units@[i as int]@);
            if !units[i].is_well_formed() {
                assert(!wf_unit(all[i as int]));
                return false;
            }
            if i > 0 {
                if is_unquoted_raw(&units[i - 1]) && is_unquoted_raw(&units[i]) {
                    assert(all[i - 1] is Unquoted && all[i - 1 + 1] is Unquoted);
                    return false;
                }
            }
            i += 1;
        }
        true
    }
}

impl lst::VariableDefinition {
    /// Says whether this definition is one that the parser gives.
    pub fn is_well_formed(&self) -> (r: bool)
        ensures
            r == wf_definition(self@),
    {
        is_identifier_text(self.name.as_str()) && match &self.value {
            lst::VariableValue::String(t) => t.is_well_formed(),
        }
    }
}

impl lst::Token {
    /// Says whether this token is one that the parser gives.
    pub fn is_well_formed(&self) -> (r: bool)
        ensures
            r == wf_token(self@),
    {
        match self {
            lst::Token::Space => true,
            lst::Token::Newline => true,
            lst::Token::Comment(c) => {
                assert(self@->Comment_0 == c@);
                is_comment_text(c.as_str())
            },
            lst::Token::Variable(d) => d.is_well_formed(),
        }
    }

    /// Says whether `next` can stand behind this token.
    fn admits(&self, next: &lst::Token) -> (r: bool)
        ensures
            r == may_stand_behind(self@, next@),
    {
        match self {
            lst::Token::Space => true,
            lst::Token::Newline => true,
            lst::Token::Comment(_) => match next {
                lst::Token::Newline => true,
                _ => false,
            },
            lst::Token::Variable(_) => match next {
                lst::Token::Space => true,
                lst::Token::Newline => true,
                _ => false,
            },
        }
    }
}

impl lst::ApmlLst {
    /// Says whether this tree is one that the parser gives: whether it is
    /// read back from the text that it renders to.
    pub fn is_well_formed(&self) -> (r: bool)
        ensures
            r == wf_tokens(self@),
    {
        let tokens = &self.0;
        let ghost all = self@;
        let mut i: usize = 0;
        while i < tokens.len()
            invariant
                i <= tokens@.len(),
                all == lst::tokens_view(tokens@),
                all == self@,
                forall|k: int| 0 <= k < i ==> wf_token(#[trigger] all[k]),
                forall|k: int| 0 <= k < i - 1 ==> may_stand_behind(#[trigger] all[k], all[k + 1]),
            decreases tokens@.len() - i,
        {
            assert(all[i as int] == tokens@[i as int]@);
            if !tokens[i].is_well_formed() {
                assert(!wf_token(all[i as int]));
                return false;
            }
            if i > 0 {
                if !tokens[i - 1].admits(&tokens[i]) {
                    assert(!may_stand_behind(all[i - 1], all[i - 1 + 1]));
                    return false;
                }
            }
            i += 1;
        }
        true
    }
}

} // verus!
