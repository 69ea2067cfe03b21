//! Which token lists are trees of a text: the lists that the parser
//! gives back when it reads what they render to.

use vstd::prelude::*;
use crate::apml::lst::{TextUnitView, TokenView, VariableDefinitionView, VariableValueView};
use crate::apml::valid::{is_identifier, is_safe};

verus! {

/// Whether `r` from `i` on is made of characters that stand for themselves
/// and of pairs of a backslash and one more character.
pub open spec fn is_raw_text(r: Seq<char>, i: int, quoted: bool) -> bool
    decreases r.len() - i,
{
    if i < 0 || i >= r.len() {
        true
    } else if r[i] == '\\' {
        i + 1 < r.len() && is_raw_text(r, i + 2, quoted)
    } else {
        is_safe(r[i], quoted) && is_raw_text(r, i + 1, quoted)
    }
}

/// A unit as the parser gives it: unquoted text is not empty, and no raw
/// text holds what would end it.
pub open spec fn wf_unit(u: TextUnitView) -> bool {
    match u {
        TextUnitView::Unquoted(r) => r.len() > 0 && is_raw_text(r, 0, false),
        TextUnitView::SingleQuote(r) => forall|i: int|
            0 <= i < r.len() ==> (#[trigger] r[i]) != '\'' && r[i] != '\n',
        TextUnitView::DoubleQuote(r) => is_raw_text(r, 0, true),
    }
}

/// A text as the parser gives it: no unquoted unit follows another.
pub open spec fn wf_text(t: Seq<TextUnitView>) -> bool {
    &&& forall|i: int| 0 <= i < t.len() ==> wf_unit(#[trigger] t[i])
    &&& forall|i: int|
        0 <= i < t.len() - 1 ==> !(#[trigger] t[i] is Unquoted && t[i + 1] is Unquoted)
}

/// A definition as the parser gives it: its name is an identifier.
pub open spec fn wf_definition(d: VariableDefinitionView) -> bool {
    is_identifier(d.name) && match d.value {
        VariableValueView::String(t) => wf_text(t),
    }
}

/// A token as the parser gives it: a comment holds no newline.
pub open spec fn wf_token(t: TokenView) -> bool {
    match t {
        TokenView::Space => true,
        TokenView::Newline => true,
        TokenView::Comment(c) => forall|i: int| 0 <= i < c.len() ==> (#[trigger] c[i]) != '\n',
        TokenView::Variable(d) => wf_definition(d),
    }
}

/// Whether `next` can stand behind `t`: a comment runs to the end of its
/// line, and a definition is followed by a space or by the end of its line.
pub open spec fn may_stand_behind(t: TokenView, next: TokenView) -> bool {
    match t {
        TokenView::Space => true,
        TokenView::Newline => true,
        TokenView::Comment(_) => next is Newline,
        TokenView::Variable(_) => next is Space || next is Newline,
    }
}

/// A token list as the parser gives it.
pub open spec fn wf_tokens(ts: Seq<TokenView>) -> bool {
    &&& forall|i: int| 0 <= i < ts.len() ==> wf_token(#[trigger] ts[i])
    &&& forall|i: int| 0 <= i < ts.len() - 1 ==> may_stand_behind(#[trigger] ts[i], ts[i + 1])
}

} // verus!
