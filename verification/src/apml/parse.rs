//! The grammar of source text, and the parser that turns text into a
//! lossless syntax tree.

use vstd::prelude::*;
use crate::apml::lst::{
    ApmlLst, Text, TextUnit, TextUnitView, Token, TokenView, VariableDefinition,
    VariableDefinitionView, VariableOp, VariableValue, VariableValueView, render_text, render_token,
    render_tokens, render_unit, tokens_view, units_view,
};
use crate::apml::parsed::lemma_parsed_document_wf;
use crate::apml::reparse::lemma_render_then_parse;
use crate::apml::text::{
    CharClass, is_name_start, is_name_start_char, lemma_run_end_bounds, run_end, scan_run,
    slice_string, to_chars,
};
use crate::apml::wellformed::wf_tokens;

verus! {

/// Why a text is no document.
#[derive(Debug, Clone, Copy, PartialEq, Eq, Hash, Structural)]
pub enum ParseError {
    /// A quote is still open where the line or the text ends.
    UnterminatedQuote,
    /// A line is neither blank, nor a comment, nor a definition.
    MalformedLine,
}

/// Characters that stand for themselves outside quotes.
pub open spec fn is_unquoted_plain(c: char) -> bool {
    c != ' ' && c != '\n' && c != '\'' && c != '"' && c != '\\'
}

/// Where the unquoted text that starts at `i` ends: before the first space,
/// newline or quote that no backslash precedes. `None` where the text ends
/// with a backslash that escapes nothing.
pub open spec fn unquoted_end(s: Seq<char>, i: int) -> Option<int>
    decreases s.len() - i,
{
    if i < 0 || i >= s.len() {
        Some(i)
    } else if s[i] == '\\' {
        if i + 1 < s.len() {
            unquoted_end(s, i + 2)
        } else {
            None
        }
    } else if is_unquoted_plain(s[i]) {
        unquoted_end(s, i + 1)
    } else {
        Some(i)
    }
}

/// Where the double quote that closes the text starting at `i` stands: the
/// first one that no backslash precedes. `None` where a newline or the end
/// of the text comes first.
pub open spec fn double_quote_end(s: Seq<char>, i: int) -> Option<int>
    decreases s.len() - i,
{
    if i < 0 || i >= s.len() {
        None
    } else if s[i] == '"' {
        Some(i)
    } else if s[i] == '\n' {
        None
    } else if s[i] == '\\' {
        if i + 1 < s.len() {
            double_quote_end(s, i + 2)
        } else {
            None
        }
    } else {
        double_quote_end(s, i + 1)
    }
}

/// The units of a value that starts at `i`, after those in `acc`, and where the value ends:
/// at a space, at a newline, or at the end of the text.
pub open spec fn parse_units(s: Seq<char>, i: int, acc: Seq<TextUnitView>) -> Result<
    (Seq<TextUnitView>, int),
    ParseError,
>
    decreases s.len() - i,
{
    if i < 0 || i >= s.len() || s[i] == ' ' || s[i] == '\n' {
        Ok((acc, i))
    } else if s[i] == '\'' {
        let j = run_end(s, i + 1, CharClass::SingleQuoted);
        if i < j < s.len() && s[j] == '\'' {
            parse_units(s, j + 1, acc.push(TextUnitView::SingleQuote(s.subrange(i + 1, j))))
        } else {
            Err(ParseError::UnterminatedQuote)
        }
    } else if s[i] == '"' {
        match double_quote_end(s, i + 1) {
            Some(j) if i < j < s.len() => parse_units(
                s,
                j + 1,
                acc.push(TextUnitView::DoubleQuote(s.subrange(i + 1, j))),
            ),
            _ => Err(ParseError::UnterminatedQuote),
        }
    } else {
        match unquoted_end(s, i) {
            Some(j) if i < j <= s.len() => parse_units(
                s,
                j,
                acc.push(TextUnitView::Unquoted(s.subrange(i, j))),
            ),
            _ => Err(ParseError::MalformedLine),
        }
    }
}

/// The token that starts at `i`, and where it ends.
pub open spec fn parse_token(s: Seq<char>, i: int) -> Result<(TokenView, int), ParseError>
    recommends
        0 <= i < s.len(),
{
    if s[i] == ' ' {
        Ok((TokenView::Space, i + 1))
    } else if s[i] == '\n' {
        Ok((TokenView::Newline, i + 1))
    } else if s[i] == '#' {
        let j = run_end(s, i + 1, CharClass::NotNewline);
        Ok((TokenView::Comment(s.subrange(i + 1, j)), j))
    } else if is_name_start(s[i]) {
        let k = run_end(s, i, CharClass::Name);
        if k < s.len() && s[k] == '=' {
            match parse_units(s, k + 1, Seq::empty()) {
                Ok((units, j)) => Ok(
                    (
                        TokenView::Variable(
                            VariableDefinitionView {
                                name: s.subrange(i, k),
                                op: VariableOp::Assignment,
                                value: VariableValueView::String(units),
                            },
                        ),
                        j,
                    ),
                ),
                Err(e) => Err(e),
            }
        } else {
            Err(ParseError::MalformedLine)
        }
    } else {
        Err(ParseError::MalformedLine)
    }
}

/// The tokens of the text from `i` on, after those in `acc`.
pub open spec fn parse_tokens(s: Seq<char>, i: int, acc: Seq<TokenView>) -> Result<
    Seq<TokenView>,
    ParseError,
>
    decreases s.len() - i,
{
    if i < 0 || i >= s.len() {
        Ok(acc)
    } else {
        match parse_token(s, i) {
            Ok((t, j)) if i < j <= s.len() => parse_tokens(s, j, acc.push(t)),
            Ok(_) => Err(ParseError::MalformedLine),
            Err(e) => Err(e),
        }
    }
}

/// The tokens of a whole text, or why it has none.
pub open spec fn parse_document(s: Seq<char>) -> Result<Seq<TokenView>, ParseError> {
    parse_tokens(s, 0, Seq::empty())
}

/// Unquoted text ends within the text, and behind its start where it starts
/// with a backslash or with a character that stands for itself.
pub proof fn lemma_unquoted_end_bounds(s: Seq<char>, i: int)
    requires
        0 <= i <= s.len(),
    ensures
        match unquoted_end(s, i) {
            Some(j) => i <= j <= s.len() && (i < s.len() && (s[i] == '\\' || is_unquoted_plain(
                s[i],
            )) ==> i < j),
            None => true,
        },
    decreases s.len() - i,
{
    if i < s.len() {
        if s[i] == '\\' {
            if i + 1 < s.len() {
                lemma_unquoted_end_bounds(s, i + 2);
            }
        } else if is_unquoted_plain(s[i]) {
            lemma_unquoted_end_bounds(s, i + 1);
        }
    }
}

/// Where the end of double-quoted text is found, a double quote stands.
pub proof fn lemma_double_quote_end_bounds(s: Seq<char>, i: int)
    requires
        0 <= i <= s.len(),
    ensures
        match double_quote_end(s, i) {
            Some(j) => i <= j < s.len() && s[j] == '"',
            None => true,
        },
    decreases s.len() - i,
{
    if i < s.len() && s[i] != '"' && s[i] != '\n' {
        if s[i] == '\\' {
            if i + 1 < s.len() {
                lemma_double_quote_end_bounds(s, i + 2);
            }
        } else {
            lemma_double_quote_end_bounds(s, i + 1);
        }
    }
}

/// The text of a section with one more unit is the text of the section, then that of the unit.
pub proof fn lemma_render_text_push(t: Seq<TextUnitView>, u: TextUnitView)
    ensures
        render_text(t.push(u)) == render_text(t) + render_unit(u),
{
    assert(t.push(u).drop_last() =~= t);
}

/// The text of a list with one more token is the text of the list, then that of the token.
pub proof fn lemma_render_tokens_push(ts: Seq<TokenView>, t: TokenView)
    ensures
        render_tokens(ts.push(t)) == render_tokens(ts) + render_token(t),
{
    assert(ts.push(t).drop_last() =~= ts);
}

/// The units that the grammar finds between `i` and `j` render to the text between `i` and `j`.
pub proof fn lemma_parse_units_render(s: Seq<char>, start: int, i: int, acc: Seq<TextUnitView>)
    requires
        0 <= start <= i <= s.len(),
        render_text(acc) == s.subrange(start, i),
        parse_units(s, i, acc) is Ok,
    ensures
        i <= parse_units(s, i, acc)->Ok_0.1 <= s.len(),
        render_text(parse_units(s, i, acc)->Ok_0.0) == s.subrange(
            start,
            parse_units(s, i, acc)->Ok_0.1,
        ),
    decreases s.len() - i,
{
    if i >= s.len() || s[i] == ' ' || s[i] == '\n' {
    } else if s[i] == '\'' {
        let j = run_end(s, i + 1, CharClass::SingleQuoted);
        let u = TextUnitView::SingleQuote(s.subrange(i + 1, j));
        lemma_render_text_push(acc, u);
        assert(render_text(acc.push(u)) =~= s.subrange(start, j + 1));
        lemma_parse_units_render(s, start, j + 1, acc.push(u));
    } else if s[i] == '"' {
        let j = double_quote_end(s, i + 1)->0;
        let u = TextUnitView::DoubleQuote(s.subrange(i + 1, j));
        lemma_double_quote_end_bounds(s, i + 1);
        lemma_render_text_push(acc, u);
        assert(render_text(acc.push(u)) =~= s.subrange(start, j + 1));
        lemma_parse_units_render(s, start, j + 1, acc.push(u));
    } else {
        let j = unquoted_end(s, i)->0;
        let u = TextUnitView::Unquoted(s.subrange(i, j));
        lemma_render_text_push(acc, u);
        assert(render_text(acc.push(u)) =~= s.subrange(start, j));
        lemma_parse_units_render(s, start, j, acc.push(u));
    }
}

/// A token that the grammar finds from `i` to `j` renders to the text between `i` and `j`.
pub proof fn lemma_parse_token_render(s: Seq<char>, i: int)
    requires
        0 <= i < s.len(),
        parse_token(s, i) is Ok,
    ensures
        i < parse_token(s, i)->Ok_0.1 <= s.len(),
        render_token(parse_token(s, i)->Ok_0.0) == s.subrange(i, parse_token(s, i)->Ok_0.1),
{
    let (t, j) = parse_token(s, i)->Ok_0;
    if s[i] == ' ' || s[i] == '\n' {
        assert(render_token(t) =~= s.subrange(i, j));
    } else if s[i] == '#' {
        lemma_run_end_bounds(s, i + 1, CharClass::NotNewline);
        assert(render_token(t) =~= s.subrange(i, j));
    } else {
        let k = run_end(s, i, CharClass::Name);
        lemma_run_end_bounds(s, i, CharClass::Name);
        assert(render_text(Seq::empty()) =~= s.subrange(k + 1, k + 1));
        lemma_parse_units_render(s, k + 1, k + 1, Seq::empty());
        assert(render_token(t) =~= s.subrange(i, j));
    }
}

/// The tokens that the grammar finds in a text render to that text.
pub proof fn lemma_parse_tokens_render(s: Seq<char>, i: int, acc: Seq<TokenView>)
    requires
        0 <= i <= s.len(),
        render_tokens(acc) == s.subrange(0, i),
        parse_tokens(s, i, acc) is Ok,
    ensures
        render_tokens(parse_tokens(s, i, acc)->Ok_0) == s,
    decreases s.len() - i,
{
    if i >= s.len() {
        assert(s.subrange(0, i) =~= s);
    } else {
        let (t, j) = parse_token(s, i)->Ok_0;
        lemma_parse_token_render(s, i);
        lemma_render_tokens_push(acc, t);
        assert(render_tokens(acc.push(t)) =~= s.subrange(0, j));
        lemma_parse_tokens_render(s, j, acc.push(t));
    }
}

/// Round trip: the tokens of a text that is a document render to that very text.
pub proof fn lemma_parse_then_render(s: Seq<char>)
    requires
        parse_document(s) is Ok,
    ensures
        render_tokens(parse_document(s)->Ok_0) == s,
{
    assert(render_tokens(Seq::empty()) =~= s.subrange(0, 0));
    lemma_parse_tokens_render(s, 0, Seq::empty());
}

/// Finds where the unquoted text that starts at `i` ends.
fn scan_unquoted(s: &Vec<char>, i: usize) -> (r: Option<usize>)
    requires
        i <= s@.len(),
    ensures
        r is Some ==> i <= r->0 <= s@.len(),
        unquoted_end(s@, i as int) == match r {
            Some(j) => Some(j as int),
            None => None,
        },
{
    let mut j: usize = i;
    while j < s.len() && s[j] != ' ' && s[j] != '\n' && s[j] != '\'' && s[j] != '"'
        invariant
            i <= j <= s@.len(),
            unquoted_end(s@, i as int) == unquoted_end(s@, j as int),
        decreases s@.len() - j,
    {
        if s[j] == '\\' {
            if j + 1 < s.len() {
                j += 2;
            } else {
                return None;
            }
        } else {
            j += 1;
        }
    }
    Some(j)
}

/// Finds the double quote that closes the text starting at `i`.
fn scan_double_quote(s: &Vec<char>, i: usize) -> (r: Option<usize>)
    requires
        i <= s@.len(),
    ensures
        r is Some ==> i <= r->0 < s@.len(),
        double_quote_end(s@, i as int) == match r {
            Some(j) => Some(j as int),
            None => None,
        },
{
    let mut j: usize = i;
    while j < s.len() && s[j] != '"'
        invariant
            i <= j <= s@.len(),
            double_quote_end(s@, i as int) == double_quote_end(s@, j as int),
        decreases s@.len() - j,
    {
        if s[j] == '\n' {
            return None;
        } else if s[j] == '\\' {
            if j + 1 < s.len() {
                j += 2;
            } else {
                return None;
            }
        } else {
            j += 1;
        }
    }
    if j < s.len() {
        Some(j)
    } else {
        None
    }
}

/// Reads the value that starts at `start`, and says where it ends.
fn parse_value_at(s: &Vec<char>, start: usize) -> (r: Result<(Text, usize), ParseError>)
    requires
        start <= s@.len(),
    ensures
        r is Ok ==> start <= r->Ok_0.1 <= s@.len(),
        parse_units(s@, start as int, Seq::empty()) == match r {
            Ok((t, j)) => Ok((t@, j as int)),
            Err(e) => Err(e),
        },
{
    let mut units: Vec<TextUnit> = Vec::new();
    let mut i: usize = start;
    assert(units_view(units@) =~= Seq::empty());
    while i < s.len() && s[i] != ' ' && s[i] != '\n'
        invariant
            start <= i <= s@.len(),
            parse_units(s@, start as int, Seq::empty()) == parse_units(
                s@,
                i as int,
                units_view(units@),
            ),
        decreases s@.len() - i,
    {
        let ghost before = units_view(units@);
        if s[i] == '\'' {
            let j = scan_run(s, i + 1, CharClass::SingleQuoted);
            if j < s.len() && s[j] == '\'' {
                units.push(TextUnit::SingleQuote(slice_string(s, i + 1, j)));
                assert(units_view(units@) =~= before.push(
                    TextUnitView::SingleQuote(s@.subrange(i + 1, j as int)),
                ));
                i = j + 1;
            } else {
                return Err(ParseError::UnterminatedQuote);
            }
        } else if s[i] == '"' {
            match scan_double_quote(s, i + 1) {
                Some(j) => {
                    units.push(TextUnit::DoubleQuote(slice_string(s, i + 1, j)));
                    assert(units_view(units@) =~= before.push(
                        TextUnitView::DoubleQuote(s@.subrange(i + 1, j as int)),
                    ));
                    i = j + 1;
                },
                None => {
                    return Err(ParseError::UnterminatedQuote);
                },
            }
        } else {
            proof {
                lemma_unquoted_end_bounds(s@, i as int);
            }
            match scan_unquoted(s, i) {
                Some(j) => {
                    units.push(TextUnit::Unquoted(slice_string(s, i, j)));
                    assert(units_view(units@) =~= before.push(
                        TextUnitView::Unquoted(s@.subrange(i as int, j as int)),
                    ));
                    i = j;
                },
                None => {
                    return Err(ParseError::MalformedLine);
                },
            }
        }
    }
    Ok((Text(units), i))
}

/// Reads the token that starts at `i`, and says where it ends.
fn parse_token_at(s: &Vec<char>, i: usize) -> (r: Result<(Token, usize), ParseError>)
    requires
        i < s@.len(),
    ensures
        r is Ok ==> i < r->Ok_0.1 <= s@.len(),
        parse_token(s@, i as int) == match r {
            Ok((t, j)) => Ok((t@, j as int)),
            Err(e) => Err(e),
        },
{
    let len = s.len();
    let c = s[i];
    if c == ' ' {
        Ok((Token::Space, i + 1))
    } else if c == '\n' {
        Ok((Token::Newline, i + 1))
    } else if c == '#' {
        let j = scan_run(s, i + 1, CharClass::NotNewline);
        Ok((Token::Comment(slice_string(s, i + 1, j)), j))
    } else if is_name_start_char(c) {
        let k = scan_run(s, i, CharClass::Name);
        if k < len && s[k] == '=' {
            match parse_value_at(s, k + 1) {
                Ok((text, j)) => {
                    let definition = VariableDefinition {
                        name: slice_string(s, i, k),
                        op: VariableOp::Assignment,
                        value: VariableValue::String(text),
                    };
                    Ok((Token::Variable(definition), j))
                },
                Err(e) => Err(e),
            }
        } else {
            Err(ParseError::MalformedLine)
        }
    } else {
        Err(ParseError::MalformedLine)
    }
}

impl ApmlLst {
    /// Reads a document.
    ///
    /// Succeeds exactly on the texts that some well-formed token list
    /// renders to, with that list: the one that the grammar gives.
    pub fn parse(text: &str) -> (r: Result<ApmlLst, ParseError>)
        ensures
            parse_document(text@) == match r {
                Ok(lst) => Ok(lst@),
                Err(e) => Err(e),
            },
            r is Ok ==> wf_tokens(r->Ok_0@) && render_tokens(r->Ok_0@) == text@,
            r is Err ==> forall|ts: Seq<TokenView>|
                wf_tokens(ts) ==> #[trigger] render_tokens(ts) != text@,
    {
        let s = to_chars(text);
        let mut tokens: Vec<Token> = Vec::new();
        let mut i: usize = 0;
        assert(tokens_view(tokens@) =~= Seq::empty());
        while i < s.len()
            invariant
                i <= s@.len(),
                s@ == text@,
                parse_document(s@) == parse_tokens(s@, i as int, tokens_view(tokens@)),
            decreases s@.len() - i,
        {
            let ghost before = tokens_view(tokens@);
            match parse_token_at(&s, i) {
                Ok((token, j)) => {
                    tokens.push(token);
                    assert(tokens_view(tokens@) =~= before.push(token@));
                    i = j;
                },
                Err(e) => {
                    proof {
                        assert forall|ts: Seq<TokenView>| wf_tokens(ts) implies #[trigger] render_tokens(
                            ts,
                        ) != text@ by {
                            lemma_render_then_parse(ts);
                        }
                    }
                    return Err(e);
                },
            }
        }
        proof {
            lemma_parse_then_render(s@);
            lemma_parsed_document_wf(s@);
        }
        Ok(ApmlLst(tokens))
    }
}

} // verus!
