//! The lossless syntax tree: a sequence of tokens whose texts, put
//! together in order, are the source text.

use vstd::prelude::*;
use vstd::string::StringExecFns;

verus! {

/// A lossless syntax tree, a list of tokens.
#[derive(Debug, Clone, PartialEq, Eq, Hash)]
pub struct ApmlLst(pub Vec<Token>);

/// A token of the lossless syntax tree.
#[derive(Debug, Clone, PartialEq, Eq, Hash)]
pub enum Token {
    /// A space character (`' '`).
    Space,
    /// A newline character (`'\n'`).
    Newline,
    /// A comment (`"#<text>"`).
    Comment(String),
    /// A variable definition (`"<name>=<value>"`).
    Variable(VariableDefinition),
}

/// A variable definition (`"<name><op><value>"`).
#[derive(Debug, Clone, PartialEq, Eq, Hash)]
pub struct VariableDefinition {
    /// Name of the variable.
    pub name: String,
    /// The assignment operator.
    pub op: VariableOp,
    /// Value of the variable.
    pub value: VariableValue,
}

/// The operator between the name and the value of a definition.
#[derive(Debug, Clone, Copy, PartialEq, Eq, Hash, Structural)]
pub enum VariableOp {
    /// Plain assignment (`'='`).
    Assignment,
}

/// The value of a variable, as written.
#[derive(Debug, Clone, PartialEq, Eq, Hash)]
pub enum VariableValue {
    /// A string value.
    String(Text),
}

/// A section of text: quoted and unquoted units that follow each other without a gap.
#[derive(Debug, Clone, PartialEq, Eq, Hash)]
pub struct Text(pub Vec<TextUnit>);

/// A unit of text. Each holds its raw text: expansions are not told apart here.
#[derive(Debug, Clone, PartialEq, Eq, Hash)]
pub enum TextUnit {
    /// Text outside quotes.
    Unquoted(String),
    /// The text between two single quotes.
    SingleQuote(String),
    /// The text between two double quotes.
    DoubleQuote(String),
}

/// What a [`TextUnit`] holds.
pub ghost enum TextUnitView {
    Unquoted(Seq<char>),
    SingleQuote(Seq<char>),
    DoubleQuote(Seq<char>),
}

/// What a [`VariableValue`] holds.
pub ghost enum VariableValueView {
    String(Seq<TextUnitView>),
}

/// What a [`VariableDefinition`] holds.
pub ghost struct VariableDefinitionView {
    pub name: Seq<char>,
    pub op: VariableOp,
    pub value: VariableValueView,
}

/// What a [`Token`] holds.
pub ghost enum TokenView {
    Space,
    Newline,
    Comment(Seq<char>),
    Variable(VariableDefinitionView),
}

impl View for TextUnit {
    type V = TextUnitView;

    open spec fn view(&self) -> TextUnitView {
        match self {
            TextUnit::Unquoted(s) => TextUnitView::Unquoted(s@),
            TextUnit::SingleQuote(s) => TextUnitView::SingleQuote(s@),
            TextUnit::DoubleQuote(s) => TextUnitView::DoubleQuote(s@),
        }
    }
}

/// The views of the units of a vector, in order.
pub open spec fn units_view(v: Seq<TextUnit>) -> Seq<TextUnitView> {
    Seq::new(v.len(), |i: int| v[i]@)
}

impl View for Text {
    type V = Seq<TextUnitView>;

    open spec fn view(&self) -> Seq<TextUnitView> {
        units_view(self.0@)
    }
}

impl View for VariableValue {
    type V = VariableValueView;

    open spec fn view(&self) -> VariableValueView {
        match self {
            VariableValue::String(t) => VariableValueView::String(t@),
        }
    }
}

impl View for VariableDefinition {
    type V = VariableDefinitionView;

    open spec fn view(&self) -> VariableDefinitionView {
        VariableDefinitionView { name: self.name@, op: self.op, value: self.value@ }
    }
}

impl View for Token {
    type V = TokenView;

    open spec fn view(&self) -> TokenView {
        match self {
            Token::Space => TokenView::Space,
            Token::Newline => TokenView::Newline,
            Token::Comment(s) => TokenView::Comment(s@),
            Token::Variable(d) => TokenView::Variable(d@),
        }
    }
}

/// The views of the tokens of a vector, in order.
pub open spec fn tokens_view(v: Seq<Token>) -> Seq<TokenView> {
    Seq::new(v.len(), |i: int| v[i]@)
}

impl View for ApmlLst {
    type V = Seq<TokenView>;

    open spec fn view(&self) -> Seq<TokenView> {
        tokens_view(self.0@)
    }
}

/// The source text of a unit of text.
pub open spec fn render_unit(u: TextUnitView) -> Seq<char> {
    match u {
        TextUnitView::Unquoted(s) => s,
        TextUnitView::SingleQuote(s) => seq!['\''] + s + seq!['\''],
        TextUnitView::DoubleQuote(s) => seq!['"'] + s + seq!['"'],
    }
}

/// The source text of a section of text: that of its units, in order.
pub open spec fn render_text(t: Seq<TextUnitView>) -> Seq<char>
    decreases t.len(),
{
    if t.len() == 0 {
        Seq::empty()
    } else {
        render_text(t.drop_last()) + render_unit(t.last())
    }
}

/// The source text of a value.
pub open spec fn render_value(v: VariableValueView) -> Seq<char> {
    match v {
        VariableValueView::String(t) => render_text(t),
    }
}

/// The source text of an assignment operator.
pub open spec fn render_op(op: VariableOp) -> Seq<char> {
    match op {
        VariableOp::Assignment => seq!['='],
    }
}

/// The source text of a definition: name, operator, value.
pub open spec fn render_definition(d: VariableDefinitionView) -> Seq<char> {
    d.name + render_op(d.op) + render_value(d.value)
}

/// The source text of a token.
pub open spec fn render_token(t: TokenView) -> Seq<char> {
    match t {
        TokenView::Space => seq![' '],
        TokenView::Newline => seq!['\n'],
        TokenView::Comment(s) => seq!['#'] + s,
        TokenView::Variable(d) => render_definition(d),
    }
}

/// The source text of a list of tokens: that of each token, in order.
pub open spec fn render_tokens(ts: Seq<TokenView>) -> Seq<char>
    decreases ts.len(),
{
    if ts.len() == 0 {
        Seq::empty()
    } else {
        render_tokens(ts.drop_last()) + render_token(ts.last())
    }
}

impl TextUnit {
    /// Appends the source text of this unit to `out`.
    pub fn render_into(&self, out: &mut String)
        ensures
            final(out)@ == old(out)@ + render_unit(self@),
    {
        match self {
            TextUnit::Unquoted(s) => {
                out.append(s.as_str());
            },
            TextUnit::SingleQuote(s) => {
                out.push('\'');
                out.append(s.as_str());
                out.push('\'');
            },
            TextUnit::DoubleQuote(s) => {
                out.push('"');
                out.append(s.as_str());
                out.push('"');
            },
        }
        assert(out@ =~= old(out)@ + render_unit(self@));
    }

    /// The source text of this unit.
    pub fn to_string(&self) -> (r: String)
        ensures
            r@ == render_unit(self@),
    {
        let mut out = String::new();
        self.render_into(&mut out);
        assert(out@ =~= render_unit(self@));
        out
    }
}

impl Text {
    /// Appends the source text of this section to `out`.
    pub fn render_into(&self, out: &mut String)
        ensures
            final(out)@ == old(out)@ + render_text(self@),
    {
        let mut i: usize = 0;
        assert(self@.take(0) =~= Seq::empty());
        assert(out@ =~= old(out)@ + render_text(self@.take(0)));
        while i < self.0.len()
            invariant
                i <= self.0@.len(),
                out@ == old(out)@ + render_text(self@.take(i as int)),
            decreases self.0@.len() - i,
        {
            self.0[i].render_into(out);
            proof {
                let t = self@.take(i as int + 1);
                assert(t.drop_last() =~= self@.take(i as int));
                assert(t.last() == self.0@[i as int]@);
                assert(out@ =~= old(out)@ + render_text(t));
            }
            i += 1;
        }
        assert(self@.take(i as int) =~= self@);
    }

    /// The source text of this section.
    pub fn to_string(&self) -> (r: String)
        ensures
            r@ == render_text(self@),
    {
        let mut out = String::new();
        self.render_into(&mut out);
        assert(out@ =~= render_text(self@));
        out
    }
}

impl VariableValue {
    /// Appends the source text of this value to `out`.
    pub fn render_into(&self, out: &mut String)
        ensures
            final(out)@ == old(out)@ + render_value(self@),
    {
        match self {
            VariableValue::String(t) => t.render_into(out),
        }
    }

    /// The source text of this value.
    pub fn to_string(&self) -> (r: String)
        ensures
            r@ == render_value(self@),
    {
        let mut out = String::new();
        self.render_into(&mut out);
        assert(out@ =~= render_value(self@));
        out
    }
}

impl VariableOp {
    /// The source text of this operator.
    pub fn as_str(&self) -> (r: &'static str)
        ensures
            r@ == render_op(*self),
    {
        match self {
            VariableOp::Assignment => {
                proof {
                    reveal_strlit("=");
                }
                assert("="@ =~= seq!['=']);
                "="
            },
        }
    }
}

impl VariableDefinition {
    /// Appends the source text of this definition to `out`.
    pub fn render_into(&self, out: &mut String)
        ensures
            final(out)@ == old(out)@ + render_definition(self@),
    {
        out.append(self.name.as_str());
        out.append(self.op.as_str());
        self.value.render_into(out);
        assert(out@ =~= old(out)@ + render_definition(self@));
    }

    /// The source text of this definition.
    pub fn to_string(&self) -> (r: String)
        ensures
            r@ == render_definition(self@),
    {
        let mut out = String::new();
        self.render_into(&mut out);
        assert(out@ =~= render_definition(self@));
        out
    }
}

impl Token {
    /// Appends the source text of this token to `out`.
    pub fn render_into(&self, out: &mut String)
        ensures
            final(out)@ == old(out)@ + render_token(self@),
    {
        match self {
            Token::Space => {
                out.push(' ');
            },
            Token::Newline => {
                out.push('\n');
            },
            Token::Comment(s) => {
                out.push('#');
                out.append(s.as_str());
            },
            Token::Variable(d) => {
                d.render_into(out);
            },
        }
        assert(out@ =~= old(out)@ + render_token(self@));
    }

    /// The source text of this token.
    pub fn to_string(&self) -> (r: String)
        ensures
            r@ == render_token(self@),
    {
        let mut out = String::new();
        self.render_into(&mut out);
        assert(out@ =~= render_token(self@));
        out
    }
}

impl ApmlLst {
    /// The source text of the tree: the texts of its tokens, in order.
    pub fn to_string(&self) -> (r: String)
        ensures
            r@ == render_tokens(self@),
    {
        let mut out = String::new();
        let mut i: usize = 0;
        assert(self@.take(0) =~= Seq::empty());
        while i < self.0.len()
            invariant
                i <= self.0@.len(),
                out@ == render_tokens(self@.take(i as int)),
            decreases self.0@.len() - i,
        {
            self.0[i].render_into(&mut out);
            proof {
                let t = self@.take(i as int + 1);
                assert(t.drop_last() =~= self@.take(i as int));
                assert(t.last() == self.0@[i as int]@);
            }
            i += 1;
        }
        assert(self@.take(i as int) =~= self@);
        out
    }
}

} // verus!
