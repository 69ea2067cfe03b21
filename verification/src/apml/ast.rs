//! The semantic tree: text whose expansions, modifiers and glob patterns
//! are told apart, and how it is written as source text.

use vstd::prelude::*;
use std::rc::Rc;

verus! {

/// A document as its definitions, in order.
#[derive(Debug, Clone, PartialEq, Eq, Hash)]
pub struct ApmlAst(pub Vec<VariableDefinition>);

/// A variable definition.
#[derive(Debug, Clone, PartialEq, Eq, Hash)]
pub struct VariableDefinition {
    /// Name of the variable.
    pub name: String,
    /// Value of the variable.
    pub value: VariableValue,
}

/// Value of a variable.
#[derive(Debug, Clone, PartialEq, Eq, Hash)]
pub enum VariableValue {
    /// A string value.
    String(Text),
}

/// A section of text.
///
/// Text is made up of several text units.
/// For example:
/// - `abc'123'` is made up of an unquoted unit `abc` and a single-quoted unit `123`.
/// - `"abc$0"` is made up of one double-quoted unit.
#[derive(Debug, Clone, PartialEq, Eq, Hash)]
pub struct Text(pub Vec<TextUnit>);

/// A unit of text.
#[derive(Debug, Clone, PartialEq, Eq, Hash)]
pub enum TextUnit {
    /// An unquoted text unit (`"<words>"`).
    Unquoted(Vec<Word>),
    /// A single-quoted text unit (`"'<text>'"`).
    SingleQuote(String),
    /// A double-quoted text unit (`"\"<words>\""`).
    DoubleQuote(Vec<Word>),
}

/// A word is a part of a text unit.
#[derive(Debug, Clone, PartialEq, Eq, Hash)]
pub enum Word {
    /// A literal string (`"<parts>"`).
    Literal(Vec<LiteralPart>),
    /// An unbraced variable expansion (`"$<var>"`).
    UnbracedVariable(String),
    /// A braced variable expansion (`"${<expansion>}"`).
    BracedVariable(BracedExpansion),
}

/// An element of literal words.
#[derive(Debug, Clone, PartialEq, Eq, Hash)]
pub enum LiteralPart {
    /// A string (`"<text>"`).
    String(String),
    /// An escaped character (`"\\<char>"`).
    Escaped(char),
    /// A backslash before a newline: the two are read as nothing (`"\\\n"`).
    LineContinuation,
}

/// A braced variable expansion (`"<name>[modifier]"`).
///
/// Note that for [`ExpansionModifier::Length`], the format is `"#<name>"`.
#[derive(Debug, Clone, PartialEq, Eq, Hash)]
pub struct BracedExpansion {
    /// Name of the variable.
    pub name: String,
    /// Modifier to apply to the expanded value.
    pub modifier: Option<ExpansionModifier>,
}

/// A modifier in the braced variable expansion.
#[derive(Debug, Clone, PartialEq, Eq, Hash)]
pub enum ExpansionModifier {
    /// Reference to a substring (`":offset"` or `":offset:length"`).
    ///
    /// The range is [offset, (offset+length)) (indexing from zero).
    Substring {
        /// Offset.
        offset: usize,
        /// Length.
        length: Option<usize>,
    },
    /// Stripping the shortest matching prefix (`"#<pattern>"`).
    StripShortestPrefix(Rc<GlobPattern>),
    /// Stripping the longest matching prefix (`"##<pattern>"`).
    StripLongestPrefix(Rc<GlobPattern>),
    /// Stripping the shortest matching suffix (`"%<pattern>"`).
    StripShortestSuffix(Rc<GlobPattern>),
    /// Stripping the longest matching suffix (`"%%<pattern>"`).
    StripLongestSuffix(Rc<GlobPattern>),
    /// Replacing the first match of a pattern with a text (`"/<pattern>/<string>"`).
    ReplaceOnce { pattern: Rc<GlobPattern>, string: Rc<Text> },
    /// Replacing the all matches of a pattern with a text (`"//<pattern>/<string>"`).
    ReplaceAll { pattern: Rc<GlobPattern>, string: Rc<Text> },
    /// Replacing the prefix of a pattern with a text (`"/#<pattern>/<string>"`).
    ReplacePrefix { pattern: Rc<GlobPattern>, string: Rc<Text> },
    /// Replacing the suffix of a pattern with a text (`"/%<pattern>/<string>"`).
    ReplaceSuffix { pattern: Rc<GlobPattern>, string: Rc<Text> },
    /// Upper-casify the first match of a pattern (`"^<pattern>"`).
    UpperOnce(Rc<GlobPattern>),
    /// Upper-casify the all matches of a pattern (`"^^<pattern>"`).
    UpperAll(Rc<GlobPattern>),
    /// Lower-casify the first match of a pattern (`",<pattern>"`).
    LowerOnce(Rc<GlobPattern>),
    /// Lower-casify the all matches of a pattern (`",,<pattern>"`).
    LowerAll(Rc<GlobPattern>),
    /// Producing errors when the variable is unset or null (`":?<text>"`).
    ErrorOnUnset(Rc<Text>),
    /// Returning the length of the variable.
    ///
    /// Note that this modifier uses a special format, see [`BracedExpansion`].
    Length,
    /// Returning a text when the variable is unset or null (`":-<text>"`).
    WhenUnset(Rc<Text>),
    /// Returning a text when the variable is set (`":+<text>"`).
    WhenSet(Rc<Text>),
}

/// A glob pattern.
#[derive(Debug, Clone, PartialEq, Eq, Hash)]
pub struct GlobPattern(pub Vec<GlobPart>);

/// An element of glob patterns.
#[derive(Debug, Clone, PartialEq, Eq, Hash)]
pub enum GlobPart {
    /// Matches a fixed string (`"<text>"`).
    String(String),
    /// Matches an escaped character (`"\\<char>"`).
    Escaped(char),
    /// Matches any string (`'*'`).
    AnyString,
    /// Matches any single character (`'?'`).
    AnyChar,
    /// Matches a characters range (`"[<range>]"`).
    Range(String),
}

/// The modifiers that take one pattern.
#[derive(Debug, Clone, Copy, PartialEq, Eq, Hash, Structural)]
pub enum PatternOp {
    StripShortestPrefix,
    StripLongestPrefix,
    StripShortestSuffix,
    StripLongestSuffix,
    UpperOnce,
    UpperAll,
    LowerOnce,
    LowerAll,
}

/// The modifiers that take a pattern and a text to put in its place.
#[derive(Debug, Clone, Copy, PartialEq, Eq, Hash, Structural)]
pub enum ReplaceOp {
    Once,
    All,
    Prefix,
    Suffix,
}

/// The modifiers that take one text.
#[derive(Debug, Clone, Copy, PartialEq, Eq, Hash, Structural)]
pub enum TextOp {
    ErrorOnUnset,
    WhenUnset,
    WhenSet,
}

/// What a [`GlobPart`] holds.
pub ghost enum GlobPartView {
    String(Seq<char>),
    Escaped(char),
    AnyString,
    AnyChar,
    Range(Seq<char>),
}

/// What a [`LiteralPart`] holds.
pub ghost enum LiteralPartView {
    String(Seq<char>),
    Escaped(char),
    LineContinuation,
}

/// What a [`Word`] holds.
pub ghost enum WordView {
    Literal(Seq<LiteralPartView>),
    UnbracedVariable(Seq<char>),
    BracedVariable(BracedExpansionView),
}

/// What a [`BracedExpansion`] holds.
pub ghost struct BracedExpansionView {
    pub name: Seq<char>,
    pub modifier: Option<ModifierView>,
}

/// What an [`ExpansionModifier`] holds: the modifiers that take the same
/// arguments are one case each, told apart by their operator.
#[allow(inconsistent_fields)]
pub ghost enum ModifierView {
    Substring { offset: usize, length: Option<usize> },
    Pattern { op: PatternOp, pattern: Seq<GlobPartView> },
    Replace { op: ReplaceOp, pattern: Seq<GlobPartView>, string: Seq<TextUnitView> },
    Text { op: TextOp, text: Seq<TextUnitView> },
    Length,
}

/// What a [`TextUnit`] holds.
pub ghost enum TextUnitView {
    Unquoted(Seq<WordView>),
    SingleQuote(Seq<char>),
    DoubleQuote(Seq<WordView>),
}

/// What a [`VariableValue`] holds.
pub ghost enum VariableValueView {
    String(Seq<TextUnitView>),
}

/// What a [`VariableDefinition`] holds.
pub ghost struct VariableDefinitionView {
    pub name: Seq<char>,
    pub value: VariableValueView,
}

impl View for GlobPart {
    type V = GlobPartView;

    open spec fn view(&self) -> GlobPartView {
        match self {
            GlobPart::String(s) => GlobPartView::String(s@),
            GlobPart::Escaped(c) => GlobPartView::Escaped(*c),
            GlobPart::AnyString => GlobPartView::AnyString,
            GlobPart::AnyChar => GlobPartView::AnyChar,
            GlobPart::Range(s) => GlobPartView::Range(s@),
        }
    }
}

/// The views of the parts of a vector, in order.
pub open spec fn glob_parts_view(v: Seq<GlobPart>) -> Seq<GlobPartView> {
    Seq::new(v.len(), |i: int| v[i]@)
}

impl View for GlobPattern {
    type V = Seq<GlobPartView>;

    open spec fn view(&self) -> Seq<GlobPartView> {
        glob_parts_view(self.0@)
    }
}

impl View for LiteralPart {
    type V = LiteralPartView;

    open spec fn view(&self) -> LiteralPartView {
        match self {
            LiteralPart::String(s) => LiteralPartView::String(s@),
            LiteralPart::Escaped(c) => LiteralPartView::Escaped(*c),
            LiteralPart::LineContinuation => LiteralPartView::LineContinuation,
        }
    }
}

/// The views of the parts of a vector, in order.
pub open spec fn literal_parts_view(v: Seq<LiteralPart>) -> Seq<LiteralPartView> {
    Seq::new(v.len(), |i: int| v[i]@)
}

/// The view of a word.
pub open spec fn word_view(w: Word) -> WordView
    decreases w,
{
    match w {
        Word::Literal(parts) => WordView::Literal(literal_parts_view(parts@)),
        Word::UnbracedVariable(name) => WordView::UnbracedVariable(name@),
        Word::BracedVariable(e) => WordView::BracedVariable(
            BracedExpansionView {
                name: e.name@,
                modifier: match e.modifier {
                    Some(m) => Some(modifier_view(m)),
                    None => None,
                },
            },
        ),
    }
}

/// The views of the words of a vector, in order.
pub open spec fn words_view(v: Seq<Word>) -> Seq<WordView>
    decreases v,
{
    Seq::new(
        v.len(),
        |i: int|
            if 0 <= i < v.len() {
                word_view(v[i])
            } else {
                arbitrary()
            },
    )
}

/// The view of a unit of text.
pub open spec fn unit_view(u: TextUnit) -> TextUnitView
    decreases u,
{
    match u {
        TextUnit::Unquoted(ws) => TextUnitView::Unquoted(words_view(ws@)),
        TextUnit::SingleQuote(s) => TextUnitView::SingleQuote(s@),
        TextUnit::DoubleQuote(ws) => TextUnitView::DoubleQuote(words_view(ws@)),
    }
}

/// The views of the units of a vector, in order.
pub open spec fn units_view(v: Seq<TextUnit>) -> Seq<TextUnitView>
    decreases v,
{
    Seq::new(
        v.len(),
        |i: int|
            if 0 <= i < v.len() {
                unit_view(v[i])
            } else {
                arbitrary()
            },
    )
}

/// The view of a modifier.
pub open spec fn modifier_view(m: ExpansionModifier) -> ModifierView
    decreases m,
{
    match m {
        ExpansionModifier::Substring { offset, length } => ModifierView::Substring {
            offset,
            length,
        },
        ExpansionModifier::StripShortestPrefix(p) => ModifierView::Pattern {
            op: PatternOp::StripShortestPrefix,
            pattern: p@,
        },
        ExpansionModifier::StripLongestPrefix(p) => ModifierView::Pattern {
            op: PatternOp::StripLongestPrefix,
            pattern: p@,
        },
        ExpansionModifier::StripShortestSuffix(p) => ModifierView::Pattern {
            op: PatternOp::StripShortestSuffix,
            pattern: p@,
        },
        ExpansionModifier::StripLongestSuffix(p) => ModifierView::Pattern {
            op: PatternOp::StripLongestSuffix,
            pattern: p@,
        },
        ExpansionModifier::ReplaceOnce { pattern, string } => ModifierView::Replace {
            op: ReplaceOp::Once,
            pattern: pattern@,
            string: units_view(string.0@),
        },
        ExpansionModifier::ReplaceAll { pattern, string } => ModifierView::Replace {
            op: ReplaceOp::All,
            pattern: pattern@,
            string: units_view(string.0@),
        },
        ExpansionModifier::ReplacePrefix { pattern, string } => ModifierView::Replace {
            op: ReplaceOp::Prefix,
            pattern: pattern@,
            string: units_view(string.0@),
        },
        ExpansionModifier::ReplaceSuffix { pattern, string } => ModifierView::Replace {
            op: ReplaceOp::Suffix,
            pattern: pattern@,
            string: units_view(string.0@),
        },
        ExpansionModifier::UpperOnce(p) => ModifierView::Pattern {
            op: PatternOp::UpperOnce,
            pattern: p@,
        },
        ExpansionModifier::UpperAll(p) => ModifierView::Pattern {
            op: PatternOp::UpperAll,
            pattern: p@,
        },
        ExpansionModifier::LowerOnce(p) => ModifierView::Pattern {
            op: PatternOp::LowerOnce,
            pattern: p@,
        },
        ExpansionModifier::LowerAll(p) => ModifierView::Pattern {
            op: PatternOp::LowerAll,
            pattern: p@,
        },
        ExpansionModifier::ErrorOnUnset(t) => ModifierView::Text {
            op: TextOp::ErrorOnUnset,
            text: units_view(t.0@),
        },
        ExpansionModifier::Length => ModifierView::Length,
        ExpansionModifier::WhenUnset(t) => ModifierView::Text {
            op: TextOp::WhenUnset,
            text: units_view(t.0@),
        },
        ExpansionModifier::WhenSet(t) => ModifierView::Text {
            op: TextOp::WhenSet,
            text: units_view(t.0@),
        },
    }
}

impl View for Word {
    type V = WordView;

    open spec fn view(&self) -> WordView {
        word_view(*self)
    }
}

impl View for ExpansionModifier {
    type V = ModifierView;

    open spec fn view(&self) -> ModifierView {
        modifier_view(*self)
    }
}

impl View for BracedExpansion {
    type V = BracedExpansionView;

    open spec fn view(&self) -> BracedExpansionView {
        BracedExpansionView {
            name: self.name@,
            modifier: match self.modifier {
                Some(m) => Some(m@),
                None => None,
            },
        }
    }
}

impl View for TextUnit {
    type V = TextUnitView;

    open spec fn view(&self) -> TextUnitView {
        unit_view(*self)
    }
}

impl View for Text {
    type V = Seq<TextUnitView>;

    open spec fn view(&self) -> Seq<TextUnitView> {
        units_view(self.0@)
    }
}

impl View for VariableValue {
    type V = VariableValueView;

    open spec fn view(&self) -> VariableValueView {
        match self {
            VariableValue::String(t) => VariableValueView::String(t@),
        }
    }
}

impl View for VariableDefinition {
    type V = VariableDefinitionView;

    open spec fn view(&self) -> VariableDefinitionView {
        VariableDefinitionView { name: self.name@, value: self.value@ }
    }
}

/// The views of the definitions of a vector, in order.
pub open spec fn definitions_view(v: Seq<VariableDefinition>) -> Seq<VariableDefinitionView> {
    Seq::new(v.len(), |i: int| v[i]@)
}

impl View for ApmlAst {
    type V = Seq<VariableDefinitionView>;

    open spec fn view(&self) -> Seq<VariableDefinitionView> {
        definitions_view(self.0@)
    }
}

} // verus!
