//! What the grammar finds in a text is a well-formed token list.

use vstd::prelude::*;
use crate::apml::lst::{TextUnitView, TokenView};
use crate::apml::parse::{
    double_quote_end, is_unquoted_plain, lemma_double_quote_end_bounds, lemma_unquoted_end_bounds,
    parse_document, parse_token, parse_tokens, parse_units, unquoted_end,
};
use crate::apml::reparse::{ends_token, ends_unquoted, ends_value};
use crate::apml::text::{CharClass, in_class, is_name_char, lemma_run_end_bounds, run_end};
use crate::apml::valid::is_identifier;
use crate::apml::wellformed::{is_raw_text, may_stand_behind, wf_text, wf_token, wf_tokens, wf_unit};

verus! {

/// Unquoted text that the grammar scans is raw text.
pub proof fn lemma_unquoted_is_raw(s: Seq<char>, i: int, k: int)
    requires
        0 <= i <= k <= s.len(),
        unquoted_end(s, k) is Some,
    ensures
        k <= unquoted_end(s, k)->0 <= s.len(),
        is_raw_text(s.subrange(i, unquoted_end(s, k)->0), k - i, false),
        ends_unquoted(s, unquoted_end(s, k)->0),
    decreases s.len() - k,
{
    let j = unquoted_end(s, k)->0;
    lemma_unquoted_end_bounds(s, k);
    let r = s.subrange(i, j);
    if k < s.len() {
        if s[k] == '\\' {
            lemma_unquoted_is_raw(s, i, k + 2);
            assert(r[k - i] == s[k]);
        } else if is_unquoted_plain(s[k]) {
            lemma_unquoted_is_raw(s, i, k + 1);
            assert(r[k - i] == s[k]);
        }
    }
}

/// Double-quoted text that the grammar scans is raw text.
pub proof fn lemma_double_quoted_is_raw(s: Seq<char>, i: int, k: int)
    requires
        0 <= i <= k <= s.len(),
        double_quote_end(s, k) is Some,
    ensures
        k <= double_quote_end(s, k)->0 < s.len(),
        is_raw_text(s.subrange(i, double_quote_end(s, k)->0), k - i, true),
    decreases s.len() - k,
{
    let j = double_quote_end(s, k)->0;
    lemma_double_quote_end_bounds(s, k);
    let r = s.subrange(i, j);
    if k < s.len() && s[k] != '"' {
        if s[k] == '\\' {
            lemma_double_quoted_is_raw(s, i, k + 2);
            assert(r[k - i] == s[k]);
        } else {
            lemma_double_quoted_is_raw(s, i, k + 1);
            assert(r[k - i] == s[k]);
        }
    }
}

/// A well-formed text with one more well-formed unit is well-formed, unless
/// both the unit and the one before it are unquoted.
pub proof fn lemma_wf_text_push(t: Seq<TextUnitView>, u: TextUnitView)
    requires
        wf_text(t),
        wf_unit(u),
        t.len() > 0 && t.last() is Unquoted ==> !(u is Unquoted),
    ensures
        wf_text(t.push(u)),
{
    let all = t.push(u);
    assert forall|k: int| 0 <= k < all.len() implies wf_unit(#[trigger] all[k]) by {
        if k < t.len() {
            assert(all[k] == t[k]);
        }
    }
    assert forall|k: int| 0 <= k < all.len() - 1 implies !(#[trigger] all[k] is Unquoted
        && all[k + 1] is Unquoted) by {
        assert(all[k] == t[k]);
        if k + 1 < t.len() {
            assert(all[k + 1] == t[k + 1]);
        }
    }
}

/// The units that the grammar finds are a well-formed text, and end where a value ends.
pub proof fn lemma_parsed_units_wf(s: Seq<char>, i: int, acc: Seq<TextUnitView>)
    requires
        0 <= i <= s.len(),
        parse_units(s, i, acc) is Ok,
        wf_text(acc),
        acc.len() > 0 && acc.last() is Unquoted ==> ends_unquoted(s, i),
    ensures
        wf_text(parse_units(s, i, acc)->Ok_0.0),
        i <= parse_units(s, i, acc)->Ok_0.1 <= s.len(),
        ends_value(s, parse_units(s, i, acc)->Ok_0.1),
    decreases s.len() - i,
{
    if i >= s.len() || s[i] == ' ' || s[i] == '\n' {
    } else if s[i] == '\'' {
        let j = run_end(s, i + 1, CharClass::SingleQuoted);
        let u = TextUnitView::SingleQuote(s.subrange(i + 1, j));
        lemma_run_end_bounds(s, i + 1, CharClass::SingleQuoted);
        assert(wf_unit(u)) by {
            let r = s.subrange(i + 1, j);
            assert forall|k: int| 0 <= k < r.len() implies (#[trigger] r[k]) != '\'' && r[k]
                != '\n' by {
                assert(in_class(CharClass::SingleQuoted, s[i + 1 + k]));
            }
        }
        lemma_wf_text_push(acc, u);
        lemma_parsed_units_wf(s, j + 1, acc.push(u));
    } else if s[i] == '"' {
        let j = double_quote_end(s, i + 1)->0;
        let u = TextUnitView::DoubleQuote(s.subrange(i + 1, j));
        lemma_double_quoted_is_raw(s, i + 1, i + 1);
        lemma_wf_text_push(acc, u);
        lemma_parsed_units_wf(s, j + 1, acc.push(u));
    } else {
        let j = unquoted_end(s, i)->0;
        let u = TextUnitView::Unquoted(s.subrange(i, j));
        lemma_unquoted_is_raw(s, i, i);
        lemma_wf_text_push(acc, u);
        lemma_parsed_units_wf(s, j, acc.push(u));
    }
}

/// The token that the grammar finds is well-formed, and ends where such a token ends.
pub proof fn lemma_parsed_token_wf(s: Seq<char>, i: int)
    requires
        0 <= i < s.len(),
        parse_token(s, i) is Ok,
    ensures
        wf_token(parse_token(s, i)->Ok_0.0),
        i < parse_token(s, i)->Ok_0.1 <= s.len(),
        ends_token(s, parse_token(s, i)->Ok_0.1, parse_token(s, i)->Ok_0.0),
{
    if s[i] == ' ' || s[i] == '\n' {
    } else if s[i] == '#' {
        let j = run_end(s, i + 1, CharClass::NotNewline);
        lemma_run_end_bounds(s, i + 1, CharClass::NotNewline);
        let c = s.subrange(i + 1, j);
        assert forall|k: int| 0 <= k < c.len() implies (#[trigger] c[k]) != '\n' by {
            assert(in_class(CharClass::NotNewline, s[i + 1 + k]));
        }
    } else {
        let k = run_end(s, i, CharClass::Name);
        lemma_run_end_bounds(s, i, CharClass::Name);
        let name = s.subrange(i, k);
        assert(is_identifier(name)) by {
            assert forall|x: int| 0 <= x < name.len() implies is_name_char(
                #[trigger] name[x],
            ) by {
                assert(in_class(CharClass::Name, s[i + x]));
            }
            assert(name[0] == s[i]);
        }
        lemma_parsed_units_wf(s, k + 1, Seq::empty());
    }
}

/// A well-formed token list with one more well-formed token, which can
/// stand behind the last, is well-formed.
pub proof fn lemma_wf_tokens_push(ts: Seq<TokenView>, t: TokenView)
    requires
        wf_tokens(ts),
        wf_token(t),
        ts.len() > 0 ==> may_stand_behind(ts.last(), t),
    ensures
        wf_tokens(ts.push(t)),
{
    let all = ts.push(t);
    assert forall|k: int| 0 <= k < all.len() implies wf_token(#[trigger] all[k]) by {
        if k < ts.len() {
            assert(all[k] == ts[k]);
        }
    }
    assert forall|k: int| 0 <= k < all.len() - 1 implies may_stand_behind(
        #[trigger] all[k],
        all[k + 1],
    ) by {
        assert(all[k] == ts[k]);
        if k + 1 < ts.len() {
            assert(all[k + 1] == ts[k + 1]);
        }
    }
}

/// The tokens that the grammar finds from `i` on, behind a well-formed
/// list whose last token ends at `i`, make a well-formed list.
pub proof fn lemma_parsed_tokens_wf(s: Seq<char>, i: int, acc: Seq<TokenView>)
    requires
        0 <= i <= s.len(),
        parse_tokens(s, i, acc) is Ok,
        wf_tokens(acc),
        acc.len() > 0 ==> ends_token(s, i, acc.last()),
    ensures
        wf_tokens(parse_tokens(s, i, acc)->Ok_0),
    decreases s.len() - i,
{
    if i < s.len() {
        let (t, j) = parse_token(s, i)->Ok_0;
        lemma_parsed_token_wf(s, i);
        assert(acc.len() > 0 ==> may_stand_behind(acc.last(), t));
        lemma_wf_tokens_push(acc, t);
        lemma_parsed_tokens_wf(s, j, acc.push(t));
    }
}

/// The tokens of a document are a well-formed list.
pub proof fn lemma_parsed_document_wf(s: Seq<char>)
    requires
        parse_document(s) is Ok,
    ensures
        wf_tokens(parse_document(s)->Ok_0),
{
    lemma_parsed_tokens_wf(s, 0, Seq::empty());
}

} // verus!
