//! What a well-formed token list renders to is read back as that list.

use vstd::prelude::*;
use crate::apml::lst::{
    TextUnitView, TokenView, VariableDefinitionView, render_definition, render_text, render_token,
    render_tokens, render_unit,
};
use crate::apml::parse::{
    ParseError, double_quote_end, is_unquoted_plain, parse_document, parse_token, parse_tokens,
    parse_units, unquoted_end,
};
use crate::apml::roundtrip::lemma_name_run;
use crate::apml::text::{
    CharClass, has_at, in_class, lemma_has_at_index, lemma_has_at_split, lemma_run_end_is,
};
use crate::apml::wellformed::{
    is_raw_text, may_stand_behind, wf_definition, wf_text, wf_token, wf_tokens, wf_unit,
};

verus! {

/// The source text of a section is that of its first unit, then that of the rest.
pub proof fn lemma_render_text_first(t: Seq<TextUnitView>)
    requires
        t.len() > 0,
    ensures
        render_text(t) == render_unit(t[0]) + render_text(t.drop_first()),
    decreases t.len(),
{
    if t.len() == 1 {
        assert(t.drop_last() =~= Seq::empty());
        assert(t.drop_first() =~= Seq::empty());
        assert(render_text(t) =~= render_unit(t[0]) + render_text(t.drop_first()));
    } else {
        lemma_render_text_first(t.drop_last());
        assert(t.drop_last().drop_first() =~= t.drop_first().drop_last());
        assert(t.drop_first().last() == t.last());
        assert(render_text(t) =~= render_unit(t[0]) + render_text(t.drop_first()));
    }
}

/// The source text of a token list is that of its first token, then that of the rest.
pub proof fn lemma_render_tokens_first(ts: Seq<TokenView>)
    requires
        ts.len() > 0,
    ensures
        render_tokens(ts) == render_token(ts[0]) + render_tokens(ts.drop_first()),
    decreases ts.len(),
{
    if ts.len() == 1 {
        assert(ts.drop_last() =~= Seq::empty());
        assert(ts.drop_first() =~= Seq::empty());
        assert(render_tokens(ts) =~= render_token(ts[0]) + render_tokens(ts.drop_first()));
    } else {
        lemma_render_tokens_first(ts.drop_last());
        assert(ts.drop_last().drop_first() =~= ts.drop_first().drop_last());
        assert(ts.drop_first().last() == ts.last());
        assert(render_tokens(ts) =~= render_token(ts[0]) + render_tokens(ts.drop_first()));
    }
}

/// Whether the character at `e`, if there is one, ends unquoted text.
pub open spec fn ends_unquoted(s: Seq<char>, e: int) -> bool {
    e < s.len() ==> s[e] != '\\' && !is_unquoted_plain(s[e])
}

/// Whether the character at `e`, if there is one, ends a value.
pub open spec fn ends_value(s: Seq<char>, e: int) -> bool {
    e < s.len() ==> s[e] == ' ' || s[e] == '\n'
}

/// Raw unquoted text that stands in a text, followed by what ends it, is
/// scanned to its end.
pub proof fn lemma_scan_unquoted(s: Seq<char>, i: int, r: Seq<char>, k: int)
    requires
        has_at(s, i, r),
        0 <= k <= r.len(),
        is_raw_text(r, k, false),
        ends_unquoted(s, i + r.len()),
    ensures
        unquoted_end(s, i + k) == Some(i + r.len()),
    decreases r.len() - k,
{
    if k < r.len() {
        lemma_has_at_index(s, i, r);
        assert(s[i + k] == r[k]);
        if r[k] == '\\' {
            lemma_scan_unquoted(s, i, r, k + 2);
        } else {
            lemma_scan_unquoted(s, i, r, k + 1);
        }
    }
}

/// Raw text that stands in a text, followed by a double quote, is scanned
/// up to that quote.
pub proof fn lemma_scan_double_quote(s: Seq<char>, i: int, r: Seq<char>, k: int)
    requires
        has_at(s, i, r + seq!['"']),
        0 <= k <= r.len(),
        is_raw_text(r, k, true),
    ensures
        double_quote_end(s, i + k) == Some(i + r.len()),
    decreases r.len() - k,
{
    lemma_has_at_index(s, i, r + seq!['"']);
    assert(s[i + k] == (r + seq!['"'])[k]);
    if k < r.len() {
        assert(s[i + k] == r[k]);
        if r[k] == '\\' {
            lemma_scan_double_quote(s, i, r, k + 2);
        } else {
            lemma_scan_double_quote(s, i, r, k + 1);
        }
    }
}

/// How the source text of a well-formed unit starts.
pub proof fn lemma_unit_first(u: TextUnitView)
    requires
        wf_unit(u),
    ensures
        render_unit(u).len() > 0,
        render_unit(u)[0] != ' ',
        render_unit(u)[0] != '\n',
        u is SingleQuote <==> render_unit(u)[0] == '\'',
        u is DoubleQuote <==> render_unit(u)[0] == '"',
{
}

/// The grammar reads the source text of one well-formed unit as that unit.
pub proof fn lemma_parse_unit(s: Seq<char>, i: int, u: TextUnitView, acc: Seq<TextUnitView>)
    requires
        has_at(s, i, render_unit(u)),
        wf_unit(u),
        u is Unquoted ==> ends_unquoted(s, i + render_unit(u).len()),
    ensures
        parse_units(s, i, acc) == parse_units(s, i + render_unit(u).len(), acc.push(u)),
{
    let text = render_unit(u);
    lemma_unit_first(u);
    lemma_has_at_index(s, i, text);
    assert(s[i + 0] == text[0]);
    match u {
        TextUnitView::Unquoted(r) => {
            lemma_scan_unquoted(s, i, r, 0);
        },
        TextUnitView::SingleQuote(r) => {
            assert(text[r.len() as int + 1] == '\'');
            assert(s[i + (r.len() + 1)] == text[r.len() as int + 1]);
            assert forall|x: int| i + 1 <= x < i + 1 + r.len() implies in_class(
                CharClass::SingleQuoted,
                #[trigger] s[x],
            ) by {
                assert(s[i + (x - i)] == text[x - i]);
                assert(text[x - i] == r[x - i - 1]);
            }
            lemma_run_end_is(s, i + 1, i + 1 + r.len(), CharClass::SingleQuoted);
            let inner = s.subrange(i + 1, i + 1 + r.len());
            assert forall|k: int| 0 <= k < r.len() implies inner[k] == r[k] by {
                assert(s[i + (k + 1)] == text[k + 1]);
                assert(text[k + 1] == r[k]);
            }
            assert(inner =~= r);
        },
        TextUnitView::DoubleQuote(r) => {
            assert(text =~= seq!['"'] + (r + seq!['"']));
            lemma_has_at_split(s, i, seq!['"'], r + seq!['"']);
            lemma_scan_double_quote(s, i + 1, r, 0);
            lemma_has_at_split(s, i + 1, r, seq!['"']);
        },
    }
}

/// What is left of a well-formed text behind its first unit is well-formed.
pub proof fn lemma_wf_text_rest(t: Seq<TextUnitView>)
    requires
        t.len() > 0,
        wf_text(t),
    ensures
        wf_unit(t[0]),
        wf_text(t.drop_first()),
        t.len() > 1 ==> !(t[0] is Unquoted && t.drop_first()[0] is Unquoted),
{
    let rest = t.drop_first();
    assert forall|k: int| 0 <= k < rest.len() implies wf_unit(#[trigger] rest[k]) by {
        assert(rest[k] == t[k + 1]);
    }
    assert forall|k: int| 0 <= k < rest.len() - 1 implies !(#[trigger] rest[k] is Unquoted
        && rest[k + 1] is Unquoted) by {
        assert(rest[k] == t[k + 1]);
        assert(rest[k + 1] == t[k + 2]);
    }
    if t.len() > 1 {
        assert(rest[0] == t[1]);
        assert(!(t[0] is Unquoted && t[0int + 1] is Unquoted));
    }
}

/// The grammar reads the source text of a well-formed text as that text.
pub proof fn lemma_parse_text(s: Seq<char>, i: int, t: Seq<TextUnitView>, acc: Seq<TextUnitView>)
    requires
        has_at(s, i, render_text(t)),
        wf_text(t),
        ends_value(s, i + render_text(t).len()),
    ensures
        parse_units(s, i, acc) == Ok::<(Seq<TextUnitView>, int), ParseError>(
            (acc + t, i + render_text(t).len()),
        ),
    decreases t.len(),
{
    if t.len() == 0 {
        assert(acc + t =~= acc);
    } else {
        let first = t[0];
        let rest = t.drop_first();
        lemma_render_text_first(t);
        lemma_has_at_split(s, i, render_unit(first), render_text(rest));
        let j = i + render_unit(first).len();
        lemma_wf_text_rest(t);
        assert(acc.push(first) + rest =~= acc + t);
        if rest.len() > 0 {
            lemma_render_text_first(rest);
            lemma_unit_first(rest[0]);
            lemma_has_at_index(s, j, render_text(rest));
            assert(s[j + 0] == render_text(rest)[0]);
            assert(render_text(rest)[0] == render_unit(rest[0])[0]);
        } else {
            assert(render_text(rest) =~= Seq::empty());
        }
        lemma_parse_unit(s, i, first, acc);
        lemma_parse_text(s, j, rest, acc.push(first));
    }
}

/// Whether the character at `e`, if there is one, ends the token `t`.
pub open spec fn ends_token(s: Seq<char>, e: int, t: TokenView) -> bool {
    match t {
        TokenView::Space => true,
        TokenView::Newline => true,
        TokenView::Comment(_) => e < s.len() ==> s[e] == '\n',
        TokenView::Variable(_) => ends_value(s, e),
    }
}

/// The grammar reads the source text of a well-formed definition as that definition.
pub proof fn lemma_parse_definition(s: Seq<char>, i: int, d: VariableDefinitionView)
    requires
        has_at(s, i, render_definition(d)),
        wf_definition(d),
        ends_value(s, i + render_definition(d).len()),
    ensures
        parse_token(s, i) == Ok::<(TokenView, int), ParseError>(
            (TokenView::Variable(d), i + render_definition(d).len()),
        ),
{
    let units = d.value->String_0;
    let value = render_text(units);
    assert(render_definition(d) =~= d.name + (seq!['='] + value));
    lemma_has_at_split(s, i, d.name, seq!['='] + value);
    let k = i + d.name.len();
    lemma_has_at_split(s, k, seq!['='], value);
    lemma_has_at_index(s, k, seq!['=']);
    assert(s[k + 0] == seq!['='][0]);
    lemma_name_run(s, i, d.name);
    lemma_has_at_index(s, i, d.name);
    assert(s[i + 0] == d.name[0]);
    lemma_parse_text(s, k + 1, units, Seq::empty());
    assert(Seq::<TextUnitView>::empty() + units =~= units);
}

/// The grammar reads the source text of one well-formed token as that token.
pub proof fn lemma_parse_one_token(s: Seq<char>, i: int, t: TokenView)
    requires
        has_at(s, i, render_token(t)),
        wf_token(t),
        ends_token(s, i + render_token(t).len(), t),
    ensures
        render_token(t).len() > 0,
        parse_token(s, i) == Ok::<(TokenView, int), ParseError>((t, i + render_token(t).len())),
{
    let text = render_token(t);
    match t {
        TokenView::Space => {
            lemma_has_at_index(s, i, text);
            assert(s[i + 0] == text[0]);
        },
        TokenView::Newline => {
            lemma_has_at_index(s, i, text);
            assert(s[i + 0] == text[0]);
        },
        TokenView::Comment(c) => {
            lemma_has_at_index(s, i, text);
            assert(s[i + 0] == text[0]);
            assert forall|x: int| i + 1 <= x < i + 1 + c.len() implies in_class(
                CharClass::NotNewline,
                #[trigger] s[x],
            ) by {
                assert(s[i + (x - i)] == text[x - i]);
                assert(text[x - i] == c[x - i - 1]);
            }
            lemma_run_end_is(s, i + 1, i + 1 + c.len(), CharClass::NotNewline);
            let inner = s.subrange(i + 1, i + 1 + c.len());
            assert forall|k: int| 0 <= k < c.len() implies inner[k] == c[k] by {
                assert(s[i + (k + 1)] == text[k + 1]);
                assert(text[k + 1] == c[k]);
            }
            assert(inner =~= c);
        },
        TokenView::Variable(d) => {
            lemma_parse_definition(s, i, d);
        },
    }
}

/// What is left of a well-formed token list behind its first token is well-formed.
pub proof fn lemma_wf_tokens_rest(ts: Seq<TokenView>)
    requires
        ts.len() > 0,
        wf_tokens(ts),
    ensures
        wf_token(ts[0]),
        wf_tokens(ts.drop_first()),
        ts.len() > 1 ==> may_stand_behind(ts[0], ts.drop_first()[0]),
{
    let rest = ts.drop_first();
    assert forall|k: int| 0 <= k < rest.len() implies wf_token(#[trigger] rest[k]) by {
        assert(rest[k] == ts[k + 1]);
    }
    assert forall|k: int| 0 <= k < rest.len() - 1 implies may_stand_behind(
        #[trigger] rest[k],
        rest[k + 1],
    ) by {
        assert(rest[k] == ts[k + 1]);
        assert(rest[k + 1] == ts[k + 2]);
    }
    if ts.len() > 1 {
        assert(rest[0] == ts[1]);
        assert(may_stand_behind(ts[0], ts[0int + 1]));
    }
}

/// The grammar reads the source text of a well-formed token list, where it
/// stands at the end of a text, as that list.
pub proof fn lemma_parse_rendered_tokens(
    s: Seq<char>,
    i: int,
    ts: Seq<TokenView>,
    acc: Seq<TokenView>,
)
    requires
        has_at(s, i, render_tokens(ts)),
        i + render_tokens(ts).len() == s.len(),
        wf_tokens(ts),
    ensures
        parse_tokens(s, i, acc) == Ok::<Seq<TokenView>, ParseError>(acc + ts),
    decreases ts.len(),
{
    if ts.len() == 0 {
        assert(acc + ts =~= acc);
    } else {
        let first = ts[0];
        let rest = ts.drop_first();
        lemma_render_tokens_first(ts);
        lemma_has_at_split(s, i, render_token(first), render_tokens(rest));
        let j = i + render_token(first).len();
        lemma_wf_tokens_rest(ts);
        assert(acc.push(first) + rest =~= acc + ts);
        if rest.len() > 0 {
            lemma_render_tokens_first(rest);
            lemma_has_at_index(s, j, render_tokens(rest));
            assert(render_token(rest[0]).len() > 0 ==> s[j + 0] == render_tokens(rest)[0]);
            if rest[0] is Newline || rest[0] is Space {
                assert(render_tokens(rest)[0] == render_token(rest[0])[0]);
            }
        } else {
            assert(render_tokens(rest) =~= Seq::empty());
        }
        lemma_parse_one_token(s, i, first);
        lemma_parse_rendered_tokens(s, j, rest, acc.push(first));
    }
}

/// What a well-formed token list renders to is a document, and its tokens
/// are those of the list.
pub proof fn lemma_render_then_parse(ts: Seq<TokenView>)
    requires
        wf_tokens(ts),
    ensures
        parse_document(render_tokens(ts)) == Ok::<Seq<TokenView>, ParseError>(ts),
{
    let s = render_tokens(ts);
    assert(s.subrange(0, s.len() as int) =~= s);
    lemma_parse_rendered_tokens(s, 0, ts, Seq::empty());
    assert(Seq::<TokenView>::empty() + ts =~= ts);
}

/// Two well-formed token lists that render to the same text are the same list.
pub proof fn lemma_render_injective(a: Seq<TokenView>, b: Seq<TokenView>)
    requires
        wf_tokens(a),
        wf_tokens(b),
        render_tokens(a) == render_tokens(b),
    ensures
        a == b,
{
    lemma_render_then_parse(a);
    lemma_render_then_parse(b);
}

} // verus!
