//! What holds between the two trees: a valid value of the semantic tree
//! is read back, from the lossless form it is lowered to, as it was.

use vstd::prelude::*;
use crate::apml::lst;
use crate::apml::ast::{TextUnitView, VariableDefinitionView, VariableValueView, WordView};
use crate::apml::emit::{
    EmitError, emit_definition, emit_document, emit_text, emit_tokens, emit_unit, emit_units,
    emit_value, emit_words,
};
use crate::apml::emitted::{
    lemma_emitted_definition_valid, lemma_emitted_tokens_valid, lemma_emitted_units_valid,
};
use crate::apml::lower::{lower_definition, lower_definitions, lower_text, lower_unit, lower_value};
use crate::apml::parse::{ParseError, parse_document, parse_units};
use crate::apml::raw::{
    lemma_lowered_definition_wf, lemma_lowered_definitions_wf, lemma_lowered_text_wf,
};
use crate::apml::render::render_words;
use crate::apml::reparse::{lemma_parse_text, lemma_render_then_parse};
use crate::apml::roundtrip::lemma_parse_words;
use crate::apml::valid::{
    valid_definition, valid_definitions, valid_text, valid_unit, valid_value, valid_words,
};
use crate::apml::wellformed::{wf_definition, wf_text, wf_tokens};

verus! {

/// The words of a unit, written out, are read back as they were.
pub proof fn lemma_emit_rendered_words(ws: Seq<WordView>, quoted: bool)
    requires
        valid_words(ws, quoted, false),
    ensures
        emit_words(render_words(ws)) == Ok::<Seq<WordView>, EmitError>(ws),
{
    let s = render_words(ws);
    assert(s.subrange(0, s.len() as int) =~= s);
    lemma_parse_words(s, 0, quoted, false, ws, Seq::empty());
    assert(Seq::<WordView>::empty() + ws =~= ws);
}

/// A valid unit is read back from its lossless form as it was.
pub proof fn lemma_emit_lowered_unit(u: TextUnitView)
    requires
        valid_unit(u),
    ensures
        emit_unit(lower_unit(u)) == Ok::<TextUnitView, EmitError>(u),
{
    match u {
        TextUnitView::Unquoted(ws) => lemma_emit_rendered_words(ws, false),
        TextUnitView::SingleQuote(_) => {},
        TextUnitView::DoubleQuote(ws) => lemma_emit_rendered_words(ws, true),
    }
}

/// The units of a valid text from `i` on are read back as they were.
proof fn lemma_emit_lowered_units(t: Seq<TextUnitView>, i: int)
    requires
        valid_text(t),
        0 <= i <= t.len(),
    ensures
        emit_units(lower_text(t), i, t.take(i)) == Ok::<Seq<TextUnitView>, EmitError>(t),
    decreases t.len() - i,
{
    if i < t.len() {
        lemma_emit_lowered_unit(t[i]);
        assert(t.take(i).push(t[i]) =~= t.take(i + 1));
        lemma_emit_lowered_units(t, i + 1);
    } else {
        assert(t.take(i) =~= t);
    }
}

/// A valid text is read back from its lossless form as it was.
pub proof fn lemma_emit_lowered_text(t: Seq<TextUnitView>)
    requires
        valid_text(t),
    ensures
        emit_text(lower_text(t)) == Ok::<Seq<TextUnitView>, EmitError>(t),
{
    assert(t.take(0) =~= Seq::empty());
    lemma_emit_lowered_units(t, 0);
}

/// A valid value is read back from its lossless form as it was.
pub proof fn lemma_emit_lowered_value(v: VariableValueView)
    requires
        valid_value(v),
    ensures
        emit_value(lower_value(v)) == Ok::<VariableValueView, EmitError>(v),
{
    match v {
        VariableValueView::String(t) => lemma_emit_lowered_text(t),
    }
}

/// A valid definition is read back from its lossless form as it was.
pub proof fn lemma_emit_lowered_definition(d: VariableDefinitionView)
    requires
        valid_definition(d),
    ensures
        emit_definition(lower_definition(d)) == Ok::<VariableDefinitionView, EmitError>(d),
{
    lemma_emit_lowered_value(d.value);
}

/// The lossless form of a document holds two tokens for each definition:
/// the definition, and a newline.
pub proof fn lemma_lowered_definitions(ds: Seq<VariableDefinitionView>)
    ensures
        lower_definitions(ds).len() == 2 * ds.len(),
        forall|k: int|
            0 <= k < ds.len() ==> #[trigger] lower_definitions(ds)[2 * k]
                == lst::TokenView::Variable(lower_definition(ds[k])),
        forall|k: int|
            0 <= k < ds.len() ==> #[trigger] lower_definitions(ds)[2 * k + 1]
                == lst::TokenView::Newline,
    decreases ds.len(),
{
    if ds.len() > 0 {
        lemma_lowered_definitions(ds.drop_last());
        let before = lower_definitions(ds.drop_last());
        let all = lower_definitions(ds);
        assert forall|k: int| 0 <= k < ds.len() implies #[trigger] all[2 * k]
            == lst::TokenView::Variable(lower_definition(ds[k])) && all[2 * k + 1]
            == lst::TokenView::Newline by {
            if k < ds.len() - 1 {
                assert(all[2 * k] == before[2 * k]);
                assert(all[2 * k + 1] == before[2 * k + 1]);
                assert(ds.drop_last()[k] == ds[k]);
            }
        }
    }
}

/// The definitions of a valid document from the `k`th on are read back as they were.
proof fn lemma_emit_lowered_tokens(ds: Seq<VariableDefinitionView>, k: int)
    requires
        valid_definitions(ds),
        0 <= k <= ds.len(),
    ensures
        emit_tokens(lower_definitions(ds), 2 * k, ds.take(k)) == Ok::<
            Seq<VariableDefinitionView>,
            EmitError,
        >(ds),
    decreases ds.len() - k,
{
    let ts = lower_definitions(ds);
    lemma_lowered_definitions(ds);
    if k < ds.len() {
        lemma_emit_lowered_definition(ds[k]);
        assert(ts[2 * k] == lst::TokenView::Variable(lower_definition(ds[k])));
        assert(ts[2 * k + 1] == lst::TokenView::Newline);
        assert(ds.take(k).push(ds[k]) =~= ds.take(k + 1));
        lemma_emit_lowered_tokens(ds, k + 1);
        assert(emit_tokens(ts, 2 * k + 1, ds.take(k + 1)) == emit_tokens(
            ts,
            2 * (k + 1),
            ds.take(k + 1),
        ));
    } else {
        assert(ds.take(k) =~= ds);
    }
}

/// A document of valid definitions is read back from its lossless form as it was.
pub proof fn lemma_emit_lowered_document(ds: Seq<VariableDefinitionView>)
    requires
        valid_definitions(ds),
    ensures
        emit_document(lower_definitions(ds)) == Ok::<Seq<VariableDefinitionView>, EmitError>(ds),
{
    assert(ds.take(0) =~= Seq::empty());
    lemma_emit_lowered_tokens(ds, 0);
}

/// The source text of the lossless form of a valid value is read by the
/// parser, whole, as that lossless form.
pub proof fn lemma_parse_lowered_value(v: VariableValueView)
    requires
        valid_value(v),
    ensures
        parse_units(lst::render_value(lower_value(v)), 0, Seq::empty()) == Ok::<
            (Seq<lst::TextUnitView>, int),
            ParseError,
        >((lower_value(v)->String_0, lst::render_value(lower_value(v)).len() as int)),
{
    let t = v->String_0;
    let s = lst::render_value(lower_value(v));
    lemma_lowered_text_wf(t);
    assert(s.subrange(0, s.len() as int) =~= s);
    lemma_parse_text(s, 0, lower_text(t), Seq::empty());
    assert(Seq::<lst::TextUnitView>::empty() + lower_text(t) =~= lower_text(t));
}

/// The source text of the lossless form of a valid definition is a
/// document of one token: that lossless form.
pub proof fn lemma_parse_lowered_definition(d: VariableDefinitionView)
    requires
        valid_definition(d),
    ensures
        parse_document(lst::render_definition(lower_definition(d))) == Ok::<
            Seq<lst::TokenView>,
            ParseError,
        >(seq![lst::TokenView::Variable(lower_definition(d))]),
{
    let token = lst::TokenView::Variable(lower_definition(d));
    let ts = seq![token];
    lemma_lowered_definition_wf(d);
    assert(ts.drop_last() =~= Seq::empty());
    assert(lst::render_tokens(ts.drop_last()) =~= Seq::empty());
    assert(ts.last() == token);
    assert(lst::render_tokens(ts) =~= lst::render_token(token));
    assert(wf_tokens(ts));
    lemma_render_then_parse(ts);
}

/// The source text of the lossless form of a document of valid
/// definitions is a document, and its tokens are that lossless form.
pub proof fn lemma_parse_lowered_document(ds: Seq<VariableDefinitionView>)
    requires
        valid_definitions(ds),
    ensures
        parse_document(lst::render_tokens(lower_definitions(ds))) == Ok::<
            Seq<lst::TokenView>,
            ParseError,
        >(lower_definitions(ds)),
{
    lemma_lowered_definitions_wf(ds);
    lemma_render_then_parse(lower_definitions(ds));
}

/// The meaning of a well-formed value is valid: it is read back from its
/// own lossless form.
pub proof fn lemma_emitted_value_valid(v: lst::VariableValueView)
    requires
        wf_text(v->String_0),
        emit_value(v) is Ok,
    ensures
        valid_value(emit_value(v)->Ok_0),
        emit_value(lower_value(emit_value(v)->Ok_0)) == emit_value(v),
{
    assert(valid_text(Seq::<TextUnitView>::empty()));
    lemma_emitted_units_valid(v->String_0, 0, Seq::empty());
    lemma_emit_lowered_value(emit_value(v)->Ok_0);
}

/// The meaning of a well-formed definition is valid: it is read back from
/// its own lossless form.
pub proof fn lemma_emitted_definition_is_valid(d: lst::VariableDefinitionView)
    requires
        wf_definition(d),
        emit_definition(d) is Ok,
    ensures
        valid_definition(emit_definition(d)->Ok_0),
        emit_definition(lower_definition(emit_definition(d)->Ok_0)) == emit_definition(d),
{
    lemma_emitted_definition_valid(d);
    lemma_emit_lowered_definition(emit_definition(d)->Ok_0);
}

/// The meaning of a well-formed token list is a document of valid
/// definitions: it is read back from its own lossless form.
pub proof fn lemma_emitted_document_valid(ts: Seq<lst::TokenView>)
    requires
        wf_tokens(ts),
        emit_document(ts) is Ok,
    ensures
        valid_definitions(emit_document(ts)->Ok_0),
        emit_document(lower_definitions(emit_document(ts)->Ok_0)) == emit_document(ts),
{
    assert(valid_definitions(Seq::<VariableDefinitionView>::empty()));
    lemma_emitted_tokens_valid(ts, 0, Seq::empty());
    lemma_emit_lowered_document(emit_document(ts)->Ok_0);
}

} // verus!
