//! How the semantic tree is written as source text.

use vstd::prelude::*;
use vstd::string::StringExecFns;
use crate::apml::ast::{
    ApmlAst, BracedExpansion, BracedExpansionView, ExpansionModifier, GlobPart, GlobPartView,
    GlobPattern, LiteralPart, LiteralPartView, ModifierView, PatternOp, ReplaceOp, Text, TextOp,
    TextUnit, TextUnitView, VariableDefinition, VariableDefinitionView, VariableValue,
    VariableValueView, Word, WordView, literal_parts_view, units_view, words_view,
};

verus! {

/// The character of a decimal digit.
pub open spec fn digit_char(d: nat) -> char {
    if d == 0 {
        '0'
    } else if d == 1 {
        '1'
    } else if d == 2 {
        '2'
    } else if d == 3 {
        '3'
    } else if d == 4 {
        '4'
    } else if d == 5 {
        '5'
    } else if d == 6 {
        '6'
    } else if d == 7 {
        '7'
    } else if d == 8 {
        '8'
    } else {
        '9'
    }
}

/// A number in decimal digits, without leading zeros.
pub open spec fn decimal(n: nat) -> Seq<char>
    decreases n,
{
    if n < 10 {
        seq![digit_char(n)]
    } else {
        decimal(n / 10).push(digit_char(n % 10))
    }
}

/// The source text of a part of a glob pattern.
pub open spec fn render_glob_part(p: GlobPartView) -> Seq<char> {
    match p {
        GlobPartView::String(s) => s,
        GlobPartView::Escaped(c) => seq!['\\', c],
        GlobPartView::AnyString => seq!['*'],
        GlobPartView::AnyChar => seq!['?'],
        GlobPartView::Range(r) => seq!['['] + r + seq![']'],
    }
}

/// The source text of a glob pattern: that of its parts, in order.
pub open spec fn render_pattern(p: Seq<GlobPartView>) -> Seq<char>
    decreases p.len(),
{
    if p.len() == 0 {
        Seq::empty()
    } else {
        render_pattern(p.drop_last()) + render_glob_part(p.last())
    }
}

/// The source text of a part of a literal.
pub open spec fn render_literal_part(p: LiteralPartView) -> Seq<char> {
    match p {
        LiteralPartView::String(s) => s,
        LiteralPartView::Escaped(c) => seq!['\\', c],
        LiteralPartView::LineContinuation => seq!['\\', '\n'],
    }
}

/// The source text of a literal: that of its parts, in order.
pub open spec fn render_literal(p: Seq<LiteralPartView>) -> Seq<char>
    decreases p.len(),
{
    if p.len() == 0 {
        Seq::empty()
    } else {
        render_literal(p.drop_last()) + render_literal_part(p.last())
    }
}

/// The operator of a modifier that takes one pattern.
pub open spec fn pattern_op_text(op: PatternOp) -> Seq<char> {
    match op {
        PatternOp::StripShortestPrefix => seq!['#'],
        PatternOp::StripLongestPrefix => seq!['#', '#'],
        PatternOp::StripShortestSuffix => seq!['%'],
        PatternOp::StripLongestSuffix => seq!['%', '%'],
        PatternOp::UpperOnce => seq!['^'],
        PatternOp::UpperAll => seq!['^', '^'],
        PatternOp::LowerOnce => seq![','],
        PatternOp::LowerAll => seq![',', ','],
    }
}

/// The operator of a modifier that replaces.
pub open spec fn replace_op_text(op: ReplaceOp) -> Seq<char> {
    match op {
        ReplaceOp::Once => seq!['/'],
        ReplaceOp::All => seq!['/', '/'],
        ReplaceOp::Prefix => seq!['/', '#'],
        ReplaceOp::Suffix => seq!['/', '%'],
    }
}

/// The operator of a modifier that takes one text.
pub open spec fn text_op_text(op: TextOp) -> Seq<char> {
    match op {
        TextOp::ErrorOnUnset => seq![':', '?'],
        TextOp::WhenUnset => seq![':', '-'],
        TextOp::WhenSet => seq![':', '+'],
    }
}

/// The source text of the bounds of a substring modifier.
pub open spec fn render_substring(offset: usize, length: Option<usize>) -> Seq<char> {
    match length {
        None => seq![':'] + decimal(offset as nat),
        Some(l) => seq![':'] + decimal(offset as nat) + seq![':'] + decimal(l as nat),
    }
}

/// The source text of a word.
pub open spec fn render_word(w: WordView) -> Seq<char>
    decreases w,
{
    match w {
        WordView::Literal(parts) => render_literal(parts),
        WordView::UnbracedVariable(name) => seq!['$'] + name,
        WordView::BracedVariable(e) => seq!['$', '{'] + render_expansion(e) + seq!['}'],
    }
}

/// The source text of a list of words: that of each word, in order.
pub open spec fn render_words(ws: Seq<WordView>) -> Seq<char>
    decreases ws,
{
    if ws.len() == 0 {
        Seq::empty()
    } else {
        render_words(ws.drop_last()) + render_word(ws.last())
    }
}

/// The source text between the braces of an expansion.
pub open spec fn render_expansion(e: BracedExpansionView) -> Seq<char>
    decreases e,
{
    match e.modifier {
        Some(ModifierView::Length) => seq!['#'] + e.name,
        None => e.name,
        Some(m) => e.name + render_modifier(m),
    }
}

/// The source text of a modifier. The length modifier has none of its own:
/// it is written before the name.
pub open spec fn render_modifier(m: ModifierView) -> Seq<char>
    decreases m,
{
    match m {
        ModifierView::Substring { offset, length } => render_substring(offset, length),
        ModifierView::Pattern { op, pattern } => pattern_op_text(op) + render_pattern(pattern),
        ModifierView::Replace { op, pattern, string } => replace_op_text(op) + render_pattern(
            pattern,
        ) + seq!['/'] + render_units(string),
        ModifierView::Text { op, text } => text_op_text(op) + render_units(text),
        ModifierView::Length => Seq::empty(),
    }
}

/// The source text of a unit of text.
pub open spec fn render_unit(u: TextUnitView) -> Seq<char>
    decreases u,
{
    match u {
        TextUnitView::Unquoted(ws) => render_words(ws),
        TextUnitView::SingleQuote(s) => seq!['\''] + s + seq!['\''],
        TextUnitView::DoubleQuote(ws) => seq!['"'] + render_words(ws) + seq!['"'],
    }
}

/// The source text of a section of text: that of each unit, in order.
pub open spec fn render_units(us: Seq<TextUnitView>) -> Seq<char>
    decreases us,
{
    if us.len() == 0 {
        Seq::empty()
    } else {
        render_units(us.drop_last()) + render_unit(us.last())
    }
}

/// The source text of a value.
pub open spec fn render_value(v: VariableValueView) -> Seq<char> {
    match v {
        VariableValueView::String(t) => render_units(t),
    }
}

/// The source text of a definition.
pub open spec fn render_definition(d: VariableDefinitionView) -> Seq<char> {
    d.name + seq!['='] + render_value(d.value)
}

/// The source text of a document: one definition on each line.
pub open spec fn render_definitions(ds: Seq<VariableDefinitionView>) -> Seq<char>
    decreases ds.len(),
{
    if ds.len() == 0 {
        Seq::empty()
    } else {
        render_definitions(ds.drop_last()) + render_definition(ds.last()) + seq!['\n']
    }
}

/// The text of a pattern with one more part is the text of the pattern, then that of the part.
pub proof fn lemma_render_pattern_push(p: Seq<GlobPartView>, x: GlobPartView)
    ensures
        render_pattern(p.push(x)) == render_pattern(p) + render_glob_part(x),
{
    assert(p.push(x).drop_last() =~= p);
}

/// The text of a literal with one more part is the text of the literal, then that of the part.
pub proof fn lemma_render_literal_push(p: Seq<LiteralPartView>, x: LiteralPartView)
    ensures
        render_literal(p.push(x)) == render_literal(p) + render_literal_part(x),
{
    assert(p.push(x).drop_last() =~= p);
}

/// The text of a list with one more word is the text of the list, then that of the word.
pub proof fn lemma_render_words_push(ws: Seq<WordView>, w: WordView)
    ensures
        render_words(ws.push(w)) == render_words(ws) + render_word(w),
{
    assert(ws.push(w).drop_last() =~= ws);
}

/// The text of a section with one more unit is the text of the section, then that of the unit.
pub proof fn lemma_render_units_push(us: Seq<TextUnitView>, u: TextUnitView)
    ensures
        render_units(us.push(u)) == render_units(us) + render_unit(u),
{
    assert(us.push(u).drop_last() =~= us);
}

/// The character of the digit `d`.
fn digit_to_char(d: usize) -> (c: char)
    requires
        d < 10,
    ensures
        c == digit_char(d as nat),
{
    if d == 0 {
        '0'
    } else if d == 1 {
        '1'
    } else if d == 2 {
        '2'
    } else if d == 3 {
        '3'
    } else if d == 4 {
        '4'
    } else if d == 5 {
        '5'
    } else if d == 6 {
        '6'
    } else if d == 7 {
        '7'
    } else if d == 8 {
        '8'
    } else {
        '9'
    }
}

/// Appends `n` in decimal digits to `out`.
pub fn push_decimal(out: &mut String, n: usize)
    ensures
        final(out)@ == old(out)@ + decimal(n as nat),
    decreases n,
{
    if n >= 10 {
        push_decimal(out, n / 10);
    }
    out.push(digit_to_char(n % 10));
    assert(out@ =~= old(out)@ + decimal(n as nat));
}

impl GlobPart {
    /// Appends the source text of this part to `out`.
    pub fn render_into(&self, out: &mut String)
        ensures
            final(out)@ == old(out)@ + render_glob_part(self@),
    {
        match self {
            GlobPart::String(s) => {
                out.append(s.as_str());
            },
            GlobPart::Escaped(c) => {
                out.push('\\');
                out.push(*c);
            },
            GlobPart::AnyString => {
                out.push('*');
            },
            GlobPart::AnyChar => {
                out.push('?');
            },
            GlobPart::Range(r) => {
                out.push('[');
                out.append(r.as_str());
                out.push(']');
            },
        }
        assert(out@ =~= old(out)@ + render_glob_part(self@));
    }

    /// The source text of this part.
    pub fn to_string(&self) -> (r: String)
        ensures
            r@ == render_glob_part(self@),
    {
        let mut out = String::new();
        self.render_into(&mut out);
        assert(out@ =~= render_glob_part(self@));
        out
    }
}

impl GlobPattern {
    /// Appends the source text of this pattern to `out`.
    pub fn render_into(&self, out: &mut String)
        ensures
            final(out)@ == old(out)@ + render_pattern(self@),
    {
        let mut i: usize = 0;
        assert(self@.take(0) =~= Seq::empty());
        assert(out@ =~= old(out)@ + render_pattern(self@.take(0)));
        while i < self.0.len()
            invariant
                i <= self.0@.len(),
                out@ == old(out)@ + render_pattern(self@.take(i as int)),
            decreases self.0@.len() - i,
        {
            self.0[i].render_into(out);
            proof {
                assert(self@.take(i as int + 1) =~= self@.take(i as int).push(self.0@[i as int]@));
                lemma_render_pattern_push(self@.take(i as int), self.0@[i as int]@);
                assert(out@ =~= old(out)@ + render_pattern(self@.take(i as int + 1)));
            }
            i += 1;
        }
        assert(self@.take(i as int) =~= self@);
    }

    /// The source text of this pattern.
    pub fn to_string(&self) -> (r: String)
        ensures
            r@ == render_pattern(self@),
    {
        let mut out = String::new();
        self.render_into(&mut out);
        assert(out@ =~= render_pattern(self@));
        out
    }
}

impl LiteralPart {
    /// Appends the source text of this part to `out`.
    pub fn render_into(&self, out: &mut String)
        ensures
            final(out)@ == old(out)@ + render_literal_part(self@),
    {
        match self {
            LiteralPart::String(s) => {
                out.append(s.as_str());
            },
            LiteralPart::Escaped(c) => {
                out.push('\\');
                out.push(*c);
            },
            LiteralPart::LineContinuation => {
                out.push('\\');
                out.push('\n');
            },
        }
        assert(out@ =~= old(out)@ + render_literal_part(self@));
    }

    /// The source text of this part.
    pub fn to_string(&self) -> (r: String)
        ensures
            r@ == render_literal_part(self@),
    {
        let mut out = String::new();
        self.render_into(&mut out);
        assert(out@ =~= render_literal_part(self@));
        out
    }
}

/// Appends the source text of the parts of a literal to `out`.
fn render_literal_into(parts: &Vec<LiteralPart>, out: &mut String)
    ensures
        final(out)@ == old(out)@ + render_literal(literal_parts_view(parts@)),
{
    let ghost all = literal_parts_view(parts@);
    let mut i: usize = 0;
    assert(all.take(0) =~= Seq::empty());
    assert(out@ =~= old(out)@ + render_literal(all.take(0)));
    while i < parts.len()
        invariant
            i <= parts@.len(),
            all == literal_parts_view(parts@),
            out@ == old(out)@ + render_literal(all.take(i as int)),
        decreases parts@.len() - i,
    {
        parts[i].render_into(out);
        proof {
            assert(all.take(i as int + 1) =~= all.take(i as int).push(parts@[i as int]@));
            lemma_render_literal_push(all.take(i as int), parts@[i as int]@);
            assert(out@ =~= old(out)@ + render_literal(all.take(i as int + 1)));
        }
        i += 1;
    }
    assert(all.take(i as int) =~= all);
}

/// Appends the source text of a list of words to `out`.
pub fn render_words_into(words: &Vec<Word>, out: &mut String)
    ensures
        final(out)@ == old(out)@ + render_words(words_view(words@)),
    decreases words,
{
    let ghost all = words_view(words@);
    let mut i: usize = 0;
    assert(all.take(0) =~= Seq::empty());
    assert(out@ =~= old(out)@ + render_words(all.take(0)));
    while i < words.len()
        invariant
            i <= words@.len(),
            all == words_view(words@),
            out@ == old(out)@ + render_words(all.take(i as int)),
        decreases words@.len() - i,
    {
        words[i].render_into(out);
        proof {
            assert(all.take(i as int + 1) =~= all.take(i as int).push(words@[i as int]@));
            lemma_render_words_push(all.take(i as int), words@[i as int]@);
            assert(out@ =~= old(out)@ + render_words(all.take(i as int + 1)));
        }
        i += 1;
    }
    assert(all.take(i as int) =~= all);
}

/// Appends the source text of a list of units to `out`.
fn render_units_into(units: &Vec<TextUnit>, out: &mut String)
    ensures
        final(out)@ == old(out)@ + render_units(units_view(units@)),
    decreases units,
{
    let ghost all = units_view(units@);
    let mut i: usize = 0;
    assert(all.take(0) =~= Seq::empty());
    assert(out@ =~= old(out)@ + render_units(all.take(0)));
    while i < units.len()
        invariant
            i <= units@.len(),
            all == units_view(units@),
            out@ == old(out)@ + render_units(all.take(i as int)),
        decreases units@.len() - i,
    {
        units[i].render_into(out);
        proof {
            assert(all.take(i as int + 1) =~= all.take(i as int).push(units@[i as int]@));
            lemma_render_units_push(all.take(i as int), units@[i as int]@);
            assert(out@ =~= old(out)@ + render_units(all.take(i as int + 1)));
        }
        i += 1;
    }
    assert(all.take(i as int) =~= all);
}

impl Word {
    /// Appends the source text of this word to `out`.
    pub fn render_into(&self, out: &mut String)
        ensures
            final(out)@ == old(out)@ + render_word(self@),
        decreases self,
    {
        match self {
            Word::Literal(parts) => {
                render_literal_into(parts, out);
            },
            Word::UnbracedVariable(name) => {
                out.push('$');
                out.append(name.as_str());
            },
            Word::BracedVariable(e) => {
                out.push('$');
                out.push('{');
                e.render_into(out);
                out.push('}');
            },
        }
        assert(out@ =~= old(out)@ + render_word(self@));
    }

    /// The source text of this word.
    pub fn to_string(&self) -> (r: String)
        ensures
            r@ == render_word(self@),
    {
        let mut out = String::new();
        self.render_into(&mut out);
        assert(out@ =~= render_word(self@));
        out
    }
}

impl BracedExpansion {
    /// Appends the source text of this expansion, without its braces, to `out`.
    pub fn render_into(&self, out: &mut String)
        ensures
            final(out)@ == old(out)@ + render_expansion(self@),
        decreases self,
    {
        match &self.modifier {
            Some(ExpansionModifier::Length) => {
                out.push('#');
                out.append(self.name.as_str());
            },
            None => {
                out.append(self.name.as_str());
            },
            Some(modifier) => {
                out.append(self.name.as_str());
                modifier.render_into(out);
            },
        }
        assert(out@ =~= old(out)@ + render_expansion(self@));
    }

    /// The source text of this expansion, without its braces.
    pub fn to_string(&self) -> (r: String)
        ensures
            r@ == render_expansion(self@),
    {
        let mut out = String::new();
        self.render_into(&mut out);
        assert(out@ =~= render_expansion(self@));
        out
    }
}

impl PatternOp {
    /// Appends the operator to `out`.
    pub fn render_into(&self, out: &mut String)
        ensures
            final(out)@ == old(out)@ + pattern_op_text(*self),
    {
        match self {
            PatternOp::StripShortestPrefix => {
                out.push('#');
            },
            PatternOp::StripLongestPrefix => {
                out.push('#');
                out.push('#');
            },
            PatternOp::StripShortestSuffix => {
                out.push('%');
            },
            PatternOp::StripLongestSuffix => {
                out.push('%');
                out.push('%');
            },
            PatternOp::UpperOnce => {
                out.push('^');
            },
            PatternOp::UpperAll => {
                out.push('^');
                out.push('^');
            },
            PatternOp::LowerOnce => {
                out.push(',');
            },
            PatternOp::LowerAll => {
                out.push(',');
                out.push(',');
            },
        }
        assert(out@ =~= old(out)@ + pattern_op_text(*self));
    }
}

impl ReplaceOp {
    /// Appends the operator to `out`.
    pub fn render_into(&self, out: &mut String)
        ensures
            final(out)@ == old(out)@ + replace_op_text(*self),
    {
        out.push('/');
        match self {
            ReplaceOp::Once => {},
            ReplaceOp::All => {
                out.push('/');
            },
            ReplaceOp::Prefix => {
                out.push('#');
            },
            ReplaceOp::Suffix => {
                out.push('%');
            },
        }
        assert(out@ =~= old(out)@ + replace_op_text(*self));
    }
}

impl TextOp {
    /// Appends the operator to `out`.
    pub fn render_into(&self, out: &mut String)
        ensures
            final(out)@ == old(out)@ + text_op_text(*self),
    {
        out.push(':');
        match self {
            TextOp::ErrorOnUnset => {
                out.push('?');
            },
            TextOp::WhenUnset => {
                out.push('-');
            },
            TextOp::WhenSet => {
                out.push('+');
            },
        }
        assert(out@ =~= old(out)@ + text_op_text(*self));
    }
}

/// Appends a modifier that takes one pattern to `out`.
fn render_pattern_modifier(op: PatternOp, pattern: &GlobPattern, out: &mut String)
    ensures
        final(out)@ == old(out)@ + render_modifier(
            ModifierView::Pattern { op, pattern: pattern@ },
        ),
{
    op.render_into(out);
    pattern.render_into(out);
    assert(out@ =~= old(out)@ + render_modifier(ModifierView::Pattern { op, pattern: pattern@ }));
}

/// Appends a modifier that replaces to `out`.
fn render_replace_modifier(op: ReplaceOp, pattern: &GlobPattern, string: &Text, out: &mut String)
    ensures
        final(out)@ == old(out)@ + render_modifier(
            ModifierView::Replace { op, pattern: pattern@, string: string@ },
        ),
    decreases string,
{
    op.render_into(out);
    pattern.render_into(out);
    out.push('/');
    render_units_into(&string.0, out);
    assert(out@ =~= old(out)@ + render_modifier(
        ModifierView::Replace { op, pattern: pattern@, string: string@ },
    ));
}

/// Appends a modifier that takes one text to `out`.
fn render_text_modifier(op: TextOp, text: &Text, out: &mut String)
    ensures
        final(out)@ == old(out)@ + render_modifier(ModifierView::Text { op, text: text@ }),
    decreases text,
{
    op.render_into(out);
    render_units_into(&text.0, out);
    assert(out@ =~= old(out)@ + render_modifier(ModifierView::Text { op, text: text@ }));
}

impl ExpansionModifier {
    /// Appends the source text of this modifier to `out`.
    ///
    /// The length modifier is written before the name of its expansion and
    /// has no text of its own.
    pub fn render_into(&self, out: &mut String)
        requires
            self@ != ModifierView::Length,
        ensures
            final(out)@ == old(out)@ + render_modifier(self@),
        decreases self,
    {
        match self {
            ExpansionModifier::Substring { offset, length } => {
                out.push(':');
                push_decimal(out, *offset);
                match length {
                    None => {},
                    Some(length) => {
                        out.push(':');
                        push_decimal(out, *length);
                    },
                }
                assert(out@ =~= old(out)@ + render_substring(*offset, *length));
            },
            ExpansionModifier::StripShortestPrefix(pattern) => {
                render_pattern_modifier(PatternOp::StripShortestPrefix, pattern, out);
            },
            ExpansionModifier::StripLongestPrefix(pattern) => {
                render_pattern_modifier(PatternOp::StripLongestPrefix, pattern, out);
            },
            ExpansionModifier::StripShortestSuffix(pattern) => {
                render_pattern_modifier(PatternOp::StripShortestSuffix, pattern, out);
            },
            ExpansionModifier::StripLongestSuffix(pattern) => {
                render_pattern_modifier(PatternOp::StripLongestSuffix, pattern, out);
            },
            ExpansionModifier::ReplaceOnce { pattern, string } => {
                render_replace_modifier(ReplaceOp::Once, pattern, string, out);
            },
            ExpansionModifier::ReplaceAll { pattern, string } => {
                render_replace_modifier(ReplaceOp::All, pattern, string, out);
            },
            ExpansionModifier::ReplacePrefix { pattern, string } => {
                render_replace_modifier(ReplaceOp::Prefix, pattern, string, out);
            },
            ExpansionModifier::ReplaceSuffix { pattern, string } => {
                render_replace_modifier(ReplaceOp::Suffix, pattern, string, out);
            },
            ExpansionModifier::UpperOnce(pattern) => {
                render_pattern_modifier(PatternOp::UpperOnce, pattern, out);
            },
            ExpansionModifier::UpperAll(pattern) => {
                render_pattern_modifier(PatternOp::UpperAll, pattern, out);
            },
            ExpansionModifier::LowerOnce(pattern) => {
                render_pattern_modifier(PatternOp::LowerOnce, pattern, out);
            },
            ExpansionModifier::LowerAll(pattern) => {
                render_pattern_modifier(PatternOp::LowerAll, pattern, out);
            },
            ExpansionModifier::ErrorOnUnset(text) => {
                render_text_modifier(TextOp::ErrorOnUnset, text, out);
            },
            ExpansionModifier::Length => {},
            ExpansionModifier::WhenUnset(text) => {
                render_text_modifier(TextOp::WhenUnset, text, out);
            },
            ExpansionModifier::WhenSet(text) => {
                render_text_modifier(TextOp::WhenSet, text, out);
            },
        }
    }

    /// The source text of this modifier.
    pub fn to_string(&self) -> (r: String)
        requires
            self@ != ModifierView::Length,
        ensures
            r@ == render_modifier(self@),
    {
        let mut out = String::new();
        self.render_into(&mut out);
        assert(out@ =~= render_modifier(self@));
        out
    }
}

impl TextUnit {
    /// Appends the source text of this unit to `out`.
    pub fn render_into(&self, out: &mut String)
        ensures
            final(out)@ == old(out)@ + render_unit(self@),
        decreases self,
    {
        match self {
            TextUnit::Unquoted(words) => {
                render_words_into(words, out);
            },
            TextUnit::SingleQuote(text) => {
                out.push('\'');
                out.append(text.as_str());
                out.push('\'');
            },
            TextUnit::DoubleQuote(words) => {
                out.push('"');
                render_words_into(words, out);
                out.push('"');
            },
        }
        assert(out@ =~= old(out)@ + render_unit(self@));
    }

    /// The source text of this unit.
    pub fn to_string(&self) -> (r: String)
        ensures
            r@ == render_unit(self@),
    {
        let mut out = String::new();
        self.render_into(&mut out);
        assert(out@ =~= render_unit(self@));
        out
    }
}

impl Text {
    /// Appends the source text of this section to `out`.
    pub fn render_into(&self, out: &mut String)
        ensures
            final(out)@ == old(out)@ + render_units(self@),
    {
        render_units_into(&self.0, out);
    }

    /// The source text of this section.
    pub fn to_string(&self) -> (r: String)
        ensures
            r@ == render_units(self@),
    {
        let mut out = String::new();
        self.render_into(&mut out);
        assert(out@ =~= render_units(self@));
        out
    }
}

impl VariableValue {
    /// Appends the source text of this value to `out`.
    pub fn render_into(&self, out: &mut String)
        ensures
            final(out)@ == old(out)@ + render_value(self@),
    {
        match self {
            VariableValue::String(text) => text.render_into(out),
        }
    }

    /// The source text of this value.
    pub fn to_string(&self) -> (r: String)
        ensures
            r@ == render_value(self@),
    {
        let mut out = String::new();
        self.render_into(&mut out);
        assert(out@ =~= render_value(self@));
        out
    }
}

impl VariableDefinition {
    /// Appends the source text of this definition to `out`.
    pub fn render_into(&self, out: &mut String)
        ensures
            final(out)@ == old(out)@ + render_definition(self@),
    {
        out.append(self.name.as_str());
        out.push('=');
        self.value.render_into(out);
        assert(out@ =~= old(out)@ + render_definition(self@));
    }

    /// The source text of this definition.
    pub fn to_string(&self) -> (r: String)
        ensures
            r@ == render_definition(self@),
    {
        let mut out = String::new();
        self.render_into(&mut out);
        assert(out@ =~= render_definition(self@));
        out
    }
}

impl ApmlAst {
    /// The source text of the document: one definition on each line.
    pub fn to_string(&self) -> (r: String)
        ensures
            r@ == render_definitions(self@),
    {
        let mut out = String::new();
        let mut i: usize = 0;
        assert(self@.take(0) =~= Seq::empty());
        while i < self.0.len()
            invariant
                i <= self.0@.len(),
                out@ == render_definitions(self@.take(i as int)),
            decreases self.0@.len() - i,
        {
            self.0[i].render_into(&mut out);
            out.push('\n');
            proof {
                let t = self@.take(i as int + 1);
                assert(t.drop_last() =~= self@.take(i as int));
                assert(t.last() == self.0@[i as int]@);
                assert(out@ =~= render_definitions(t));
            }
            i += 1;
        }
        assert(self@.take(i as int) =~= self@);
        out
    }
}

} // verus!
