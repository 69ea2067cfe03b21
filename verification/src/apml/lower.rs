//! From the semantic tree to the lossless one: each value is written
//! out in the one way that the renderer knows.

use vstd::prelude::*;
use crate::apml::lst;
use crate::apml::ast::{
    ApmlAst, Text, TextUnit, TextUnitView, VariableDefinition, VariableDefinitionView,
    VariableValue, VariableValueView, words_view,
};
use crate::apml::raw::{
    lemma_lowered_definition_wf, lemma_lowered_definitions_wf, lemma_lowered_text_wf,
    lemma_lowered_unit_wf,
};
use crate::apml::render::{render_words, render_words_into};
use crate::apml::valid::{valid_definition, valid_definitions, valid_text, valid_unit, valid_value};
use crate::apml::wellformed::{wf_definition, wf_text, wf_tokens, wf_unit};

verus! {

/// The lossless form of a unit: its kind is kept, and its words are written out.
pub open spec fn lower_unit(u: TextUnitView) -> lst::TextUnitView {
    match u {
        TextUnitView::Unquoted(ws) => lst::TextUnitView::Unquoted(render_words(ws)),
        TextUnitView::SingleQuote(s) => lst::TextUnitView::SingleQuote(s),
        TextUnitView::DoubleQuote(ws) => lst::TextUnitView::DoubleQuote(render_words(ws)),
    }
}

/// The lossless form of a section of text: that of each unit, in order.
pub open spec fn lower_text(t: Seq<TextUnitView>) -> Seq<lst::TextUnitView> {
    Seq::new(t.len(), |i: int| lower_unit(t[i]))
}

/// The lossless form of a value.
pub open spec fn lower_value(v: VariableValueView) -> lst::VariableValueView {
    match v {
        VariableValueView::String(t) => lst::VariableValueView::String(lower_text(t)),
    }
}

/// The lossless form of a definition: a plain assignment.
pub open spec fn lower_definition(d: VariableDefinitionView) -> lst::VariableDefinitionView {
    lst::VariableDefinitionView {
        name: d.name,
        op: lst::VariableOp::Assignment,
        value: lower_value(d.value),
    }
}

/// The lossless form of a document: each definition on a line of its own.
pub open spec fn lower_definitions(ds: Seq<VariableDefinitionView>) -> Seq<lst::TokenView>
    decreases ds.len(),
{
    if ds.len() == 0 {
        Seq::empty()
    } else {
        lower_definitions(ds.drop_last()).push(
            lst::TokenView::Variable(lower_definition(ds.last())),
        ).push(lst::TokenView::Newline)
    }
}

impl TextUnit {
    /// The lossless form of this unit.
    pub fn lower(&self) -> (r: lst::TextUnit)
        ensures
            r@ == lower_unit(self@),
            valid_unit(self@) ==> wf_unit(r@),
    {
        proof {
            if valid_unit(self@) {
                lemma_lowered_unit_wf(self@);
            }
        }
        match self {
            TextUnit::Unquoted(words) => {
                let mut raw = String::new();
                render_words_into(words, &mut raw);
                assert(raw@ =~= render_words(words_view(words@)));
                lst::TextUnit::Unquoted(raw)
            },
            TextUnit::SingleQuote(text) => lst::TextUnit::SingleQuote(text.clone()),
            TextUnit::DoubleQuote(words) => {
                let mut raw = String::new();
                render_words_into(words, &mut raw);
                assert(raw@ =~= render_words(words_view(words@)));
                lst::TextUnit::DoubleQuote(raw)
            },
        }
    }
}

impl Text {
    /// The lossless form of this section of text.
    pub fn lower(&self) -> (r: lst::Text)
        ensures
            r@ == lower_text(self@),
            valid_text(self@) ==> wf_text(r@),
    {
        proof {
            if valid_text(self@) {
                lemma_lowered_text_wf(self@);
            }
        }
        let mut units: Vec<lst::TextUnit> = Vec::new();
        let mut i: usize = 0;
        while i < self.0.len()
            invariant
                i <= self.0@.len(),
                units@.len() == i,
                forall|k: int| 0 <= k < i ==> (#[trigger] units@[k])@ == lower_unit(self@[k]),
            decreases self.0@.len() - i,
        {
            units.push(self.0[i].lower());
            i += 1;
        }
        assert(lst::units_view(units@) =~= lower_text(self@));
        lst::Text(units)
    }
}

impl VariableValue {
    /// The lossless form of this value.
    pub fn lower(&self) -> (r: lst::VariableValue)
        ensures
            r@ == lower_value(self@),
            valid_value(self@) ==> wf_text(r@->String_0),
    {
        match self {
            VariableValue::String(text) => lst::VariableValue::String(text.lower()),
        }
    }
}

impl VariableDefinition {
    /// The lossless form of this definition.
    pub fn lower(&self) -> (r: lst::VariableDefinition)
        ensures
            r@ == lower_definition(self@),
            valid_definition(self@) ==> wf_definition(r@),
    {
        proof {
            if valid_definition(self@) {
                lemma_lowered_definition_wf(self@);
            }
        }
        lst::VariableDefinition {
            name: self.name.clone(),
            op: lst::VariableOp::Assignment,
            value: self.value.lower(),
        }
    }
}

impl ApmlAst {
    /// The lossless form of this document.
    pub fn lower(&self) -> (r: lst::ApmlLst)
        ensures
            r@ == lower_definitions(self@),
            valid_definitions(self@) ==> wf_tokens(r@),
    {
        proof {
            if valid_definitions(self@) {
                lemma_lowered_definitions_wf(self@);
            }
        }
        let mut tokens: Vec<lst::Token> = Vec::new();
        let mut i: usize = 0;
        assert(self@.take(0) =~= Seq::empty());
        assert(lst::tokens_view(tokens@) =~= Seq::empty());
        while i < self.0.len()
            invariant
                i <= self.0@.len(),
                lst::tokens_view(tokens@) == lower_definitions(self@.take(i as int)),
            decreases self.0@.len() - i,
        {
            let ghost before = lst::tokens_view(tokens@);
            let definition = self.0[i].lower();
            tokens.push(lst::Token::Variable(definition));
            tokens.push(lst::Token::Newline);
            proof {
                let t = self@.take(i as int + 1);
                assert(t.drop_last() =~= self@.take(i as int));
                assert(t.last() == self.0@[i as int]@);
                assert(lst::tokens_view(tokens@) =~= before.push(
                    lst::TokenView::Variable(definition@),
                ).push(lst::TokenView::Newline));
            }
            i += 1;
        }
        assert(self@.take(i as int) =~= self@);
        lst::ApmlLst(tokens)
    }
}

} // verus!
