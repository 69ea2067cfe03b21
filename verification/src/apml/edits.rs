//! The edits keep a tree well-formed: what the editor makes of a
//! well-formed token list is a well-formed token list.

use vstd::prelude::*;
use crate::apml::ast;
use crate::apml::editor::{
    assignment_of, comment_lines_start, find_variable, lemma_find_from, lemma_line_end, line_after,
    removal_end, removal_start, with_end_newline, with_line, with_line_at_end, with_replaced,
    without_variable,
};
use crate::apml::lst::TokenView;
use crate::apml::parsed::lemma_wf_tokens_push;
use crate::apml::raw::lemma_lowered_text_wf;
use crate::apml::valid::{is_identifier, valid_value};
use crate::apml::wellformed::{may_stand_behind, wf_token, wf_tokens};

verus! {

/// Two well-formed token lists, of which the second can stand behind the
/// first, make one well-formed list.
pub proof fn lemma_wf_concat(a: Seq<TokenView>, b: Seq<TokenView>)
    requires
        wf_tokens(a),
        wf_tokens(b),
        a.len() > 0 && b.len() > 0 ==> may_stand_behind(a.last(), b[0]),
    ensures
        wf_tokens(a + b),
{
    let all = a + b;
    assert forall|k: int| 0 <= k < all.len() implies wf_token(#[trigger] all[k]) by {
        if k < a.len() {
            assert(all[k] == a[k]);
        } else {
            assert(all[k] == b[k - a.len()]);
        }
    }
    assert forall|k: int| 0 <= k < all.len() - 1 implies may_stand_behind(
        #[trigger] all[k],
        all[k + 1],
    ) by {
        if k + 1 < a.len() {
            assert(all[k] == a[k]);
            assert(all[k + 1] == a[k + 1]);
        } else if k < a.len() {
            assert(all[k] == a.last());
            assert(all[k + 1] == b[0]);
        } else {
            assert(all[k] == b[k - a.len()]);
            assert(all[k + 1] == b[k - a.len() + 1]);
        }
    }
}

/// The start and the end of a well-formed token list are well-formed.
pub proof fn lemma_wf_parts(ts: Seq<TokenView>, k: int)
    requires
        wf_tokens(ts),
        0 <= k <= ts.len(),
    ensures
        wf_tokens(ts.take(k)),
        wf_tokens(ts.skip(k)),
{
    let a = ts.take(k);
    let b = ts.skip(k);
    assert forall|x: int| 0 <= x < a.len() implies wf_token(#[trigger] a[x]) by {
        assert(a[x] == ts[x]);
    }
    assert forall|x: int| 0 <= x < a.len() - 1 implies may_stand_behind(
        #[trigger] a[x],
        a[x + 1],
    ) by {
        assert(a[x] == ts[x]);
        assert(a[x + 1] == ts[x + 1]);
    }
    assert forall|x: int| 0 <= x < b.len() implies wf_token(#[trigger] b[x]) by {
        assert(b[x] == ts[k + x]);
    }
    assert forall|x: int| 0 <= x < b.len() - 1 implies may_stand_behind(
        #[trigger] b[x],
        b[x + 1],
    ) by {
        assert(b[x] == ts[k + x]);
        assert(b[x + 1] == ts[k + x + 1]);
    }
}

/// In a well-formed token list a space or a newline stands before each
/// definition that is not the first token.
pub proof fn lemma_before_variable(ts: Seq<TokenView>, index: int)
    requires
        wf_tokens(ts),
        0 < index < ts.len(),
        ts[index] is Variable,
    ensures
        ts[index - 1] is Space || ts[index - 1] is Newline,
{
    assert(may_stand_behind(ts[index - 1], ts[index - 1 + 1]));
}

/// A well-formed token list stays well-formed where a newline is added at its end.
pub proof fn lemma_with_end_newline_wf(ts: Seq<TokenView>)
    requires
        wf_tokens(ts),
    ensures
        wf_tokens(with_end_newline(ts)),
        with_end_newline(ts).len() > 0 ==> with_end_newline(ts).last() is Newline,
{
    if !(ts.len() == 0 || ts.last() is Newline) {
        lemma_wf_tokens_push(ts, TokenView::Newline);
    }
}

/// A well-formed token list stays well-formed where a line with a
/// well-formed token is added at its end.
pub proof fn lemma_with_line_at_end_wf(ts: Seq<TokenView>, token: TokenView)
    requires
        wf_tokens(ts),
        wf_token(token),
    ensures
        wf_tokens(with_line_at_end(ts, token)),
{
    lemma_with_end_newline_wf(ts);
    let a = with_end_newline(ts);
    lemma_wf_tokens_push(a, token);
    lemma_wf_tokens_push(a.push(token), TokenView::Newline);
}

/// A well-formed token list stays well-formed where a line with a
/// well-formed token is added.
pub proof fn lemma_with_line_wf(ts: Seq<TokenView>, token: TokenView, after: Option<Seq<char>>)
    requires
        wf_tokens(ts),
        wf_token(token),
    ensures
        wf_tokens(with_line(ts, token, after)),
{
    lemma_with_line_at_end_wf(ts, token);
    if after is Some && line_after(ts, after->0) is Some {
        let at = line_after(ts, after->0)->0;
        let index = find_variable(ts, after->0)->0;
        lemma_find_from(ts, after->0, 0);
        lemma_line_end(ts, index);
        lemma_wf_parts(ts, at);
        let a = ts.take(at);
        assert(a.last() == ts[at - 1]);
        lemma_wf_tokens_push(a, token);
        lemma_wf_tokens_push(a.push(token), TokenView::Newline);
        lemma_wf_concat(a.push(token).push(TokenView::Newline), ts.skip(at));
    }
}

/// A well-formed token list stays well-formed where a definition is
/// replaced by a well-formed definition, or such a definition is added.
pub proof fn lemma_with_replaced_wf(ts: Seq<TokenView>, name: Seq<char>, token: TokenView)
    requires
        wf_tokens(ts),
        wf_token(token),
        token is Variable,
    ensures
        wf_tokens(with_replaced(ts, name, token)),
{
    lemma_with_line_at_end_wf(ts, token);
    if find_variable(ts, name) is Some {
        let index = find_variable(ts, name)->0;
        lemma_find_from(ts, name, 0);
        let all = ts.update(index, token);
        assert forall|k: int| 0 <= k < all.len() implies wf_token(#[trigger] all[k]) by {
            if k != index {
                assert(all[k] == ts[k]);
            }
        }
        assert forall|k: int| 0 <= k < all.len() - 1 implies may_stand_behind(
            #[trigger] all[k],
            all[k + 1],
        ) by {
            assert(may_stand_behind(ts[k], ts[k + 1]));
            if k + 1 == index {
                lemma_before_variable(ts, index);
            }
        }
    }
}

/// Where the run of comment lines before `start` begins, the tokens begin,
/// or a line begins.
pub proof fn lemma_comment_lines_start(ts: Seq<TokenView>, start: int)
    requires
        0 <= start <= ts.len(),
    ensures
        0 <= comment_lines_start(ts, start) <= start,
        comment_lines_start(ts, start) < start ==> comment_lines_start(ts, start) == 0
            || ts[comment_lines_start(ts, start) - 1] is Newline,
    decreases start,
{
    if 2 <= start && ts[start - 1] is Newline && ts[start - 2] is Comment && (start == 2
        || ts[start - 3] is Newline) {
        lemma_comment_lines_start(ts, start - 2);
    }
}

/// A well-formed token list stays well-formed where a definition is removed.
pub proof fn lemma_without_variable_wf(ts: Seq<TokenView>, index: int)
    requires
        wf_tokens(ts),
        0 <= index < ts.len(),
        ts[index] is Variable,
    ensures
        0 <= removal_start(ts, index) <= index < removal_end(ts, index) <= ts.len(),
        wf_tokens(without_variable(ts, index)),
{
    let start = removal_start(ts, index);
    let end = removal_end(ts, index);
    lemma_line_end(ts, index);
    lemma_comment_lines_start(ts, index);
    lemma_wf_parts(ts, start);
    lemma_wf_parts(ts, end);
    let a = ts.take(start);
    let b = ts.skip(end);
    if a.len() > 0 && b.len() > 0 {
        assert(a.last() == ts[start - 1]);
        if start == index {
            lemma_before_variable(ts, index);
        }
    }
    lemma_wf_concat(a, b);
}

/// The token of an assignment of a valid value to an identifier is well-formed.
pub proof fn lemma_assignment_wf(name: Seq<char>, value: ast::VariableValueView)
    requires
        is_identifier(name),
        valid_value(value),
    ensures
        wf_token(assignment_of(name, value)),
        assignment_of(name, value) is Variable,
{
    lemma_lowered_text_wf(value->String_0);
}

} // verus!
