//! Text that stands for a given string: the string between double
//! quotes, with a backslash before each character that would otherwise
//! not stand for itself.

use vstd::prelude::*;
use vstd::std_specs::convert::FromSpecImpl;
use crate::apml::ast::{
    LiteralPart, LiteralPartView, Text, TextUnit, TextUnitView, Word, WordView, literal_parts_view,
    units_view, words_view,
};
use crate::apml::emit::literal_class;
use crate::apml::emitted::lemma_valid_literal_push;
use crate::apml::text::{
    CharClass, class_contains, in_class, lemma_run_end_bounds, run_end, scan_run, slice_string,
    to_chars,
};
use crate::apml::valid::{
    is_safe, valid_literal_parts, valid_text, valid_unit, valid_word, valid_words,
};

verus! {

/// The characters that a literal stands for: each part for its own
/// characters, an escape for the escaped character, a line continuation for nothing.
pub open spec fn literal_value(parts: Seq<LiteralPartView>) -> Seq<char>
    decreases parts.len(),
{
    if parts.len() == 0 {
        Seq::empty()
    } else {
        literal_value(parts.drop_last()) + match parts.last() {
            LiteralPartView::String(s) => s,
            LiteralPartView::Escaped(c) => seq![c],
            LiteralPartView::LineContinuation => Seq::empty(),
        }
    }
}

/// The parts of a literal that stands for `s` from `i` on, after those in
/// `acc`: a run of characters that need no backslash is one part, and any
/// other character is escaped.
pub open spec fn quoted_parts(s: Seq<char>, i: int, acc: Seq<LiteralPartView>) -> Seq<
    LiteralPartView,
>
    decreases s.len() - i,
{
    if i < 0 || i >= s.len() {
        acc
    } else if in_class(CharClass::Quotable, s[i]) {
        let j = run_end(s, i, CharClass::Quotable);
        if i < j <= s.len() {
            quoted_parts(s, j, acc.push(LiteralPartView::String(s.subrange(i, j))))
        } else {
            acc
        }
    } else {
        quoted_parts(s, i + 1, acc.push(LiteralPartView::Escaped(s[i])))
    }
}

/// The text that stands for `s`: one double-quoted unit, which holds one
/// literal, or nothing where `s` is empty.
pub open spec fn quoted_text(s: Seq<char>) -> Seq<TextUnitView> {
    seq![
        TextUnitView::DoubleQuote(
            if s.len() == 0 {
                Seq::empty()
            } else {
                seq![WordView::Literal(quoted_parts(s, 0, Seq::empty()))]
            },
        ),
    ]
}

/// The parts that stand for a string stand for that string and no other.
pub proof fn lemma_quoted_parts_value(s: Seq<char>, i: int, acc: Seq<LiteralPartView>)
    requires
        0 <= i <= s.len(),
        literal_value(acc) == s.subrange(0, i),
    ensures
        literal_value(quoted_parts(s, i, acc)) == s,
    decreases s.len() - i,
{
    if i >= s.len() {
        assert(s.subrange(0, i) =~= s);
    } else if in_class(CharClass::Quotable, s[i]) {
        let j = run_end(s, i, CharClass::Quotable);
        lemma_run_end_bounds(s, i, CharClass::Quotable);
        let next = acc.push(LiteralPartView::String(s.subrange(i, j)));
        assert(next.drop_last() =~= acc);
        assert(literal_value(next) =~= s.subrange(0, j));
        lemma_quoted_parts_value(s, j, next);
    } else {
        let next = acc.push(LiteralPartView::Escaped(s[i]));
        assert(next.drop_last() =~= acc);
        assert(literal_value(next) =~= s.subrange(0, i + 1));
        lemma_quoted_parts_value(s, i + 1, next);
    }
}

/// The parts that stand for a string without a newline are valid between double quotes.
pub proof fn lemma_quoted_parts_valid(s: Seq<char>, i: int, acc: Seq<LiteralPartView>)
    requires
        0 <= i <= s.len(),
        forall|k: int| 0 <= k < s.len() ==> (#[trigger] s[k]) != '\n',
        valid_literal_parts(acc, true, false),
        acc.len() > 0 && acc.last() is String && i < s.len() ==> !in_class(
            CharClass::Quotable,
            s[i],
        ),
    ensures
        valid_literal_parts(quoted_parts(s, i, acc), true, false),
        i < s.len() ==> quoted_parts(s, i, acc).len() > 0,
        quoted_parts(s, i, acc).len() >= acc.len(),
    decreases s.len() - i,
{
    if i < s.len() {
        if in_class(CharClass::Quotable, s[i]) {
            let j = run_end(s, i, CharClass::Quotable);
            lemma_run_end_bounds(s, i, CharClass::Quotable);
            let t = s.subrange(i, j);
            let p = LiteralPartView::String(t);
            assert forall|k: int| 0 <= k < t.len() implies in_class(
                literal_class(false),
                #[trigger] t[k],
            ) && is_safe(t[k], true) by {
                assert(in_class(CharClass::Quotable, s[i + k]));
            }
            lemma_valid_literal_push(acc, p, true, false);
            lemma_quoted_parts_valid(s, j, acc.push(p));
        } else {
            let p = LiteralPartView::Escaped(s[i]);
            lemma_valid_literal_push(acc, p, true, false);
            lemma_quoted_parts_valid(s, i + 1, acc.push(p));
        }
    }
}

/// The text that stands for a string without a newline is valid.
pub proof fn lemma_quoted_text_valid(s: Seq<char>)
    requires
        forall|k: int| 0 <= k < s.len() ==> (#[trigger] s[k]) != '\n',
    ensures
        valid_text(quoted_text(s)),
{
    lemma_quoted_parts_valid(s, 0, Seq::empty());
    let t = quoted_text(s);
    assert(valid_unit(t[0])) by {
        if s.len() > 0 {
            let w = WordView::Literal(quoted_parts(s, 0, Seq::empty()));
            assert(valid_word(w, true, false));
            assert(valid_words(seq![w], true, false));
        } else {
            assert(valid_words(Seq::<WordView>::empty(), true, false));
        }
    }
}

impl Text {
    /// The text that stands for `s`, written between double quotes: the
    /// literal between the quotes stands for `s`, and, where `s` holds no
    /// newline, is written as the grammar reads it.
    pub fn quoted(s: &str) -> (text: Text)
        ensures
            text@ == quoted_text(s@),
            literal_value(quoted_parts(s@, 0, Seq::empty())) == s@,
            (forall|k: int| 0 <= k < s@.len() ==> (#[trigger] s@[k]) != '\n') ==> valid_text(text@),
    {
        let chars = to_chars(s);
        let mut parts: Vec<LiteralPart> = Vec::new();
        let mut i: usize = 0;
        assert(literal_parts_view(parts@) =~= Seq::empty());
        while i < chars.len()
            invariant
                i <= chars@.len(),
                chars@ == s@,
                quoted_parts(s@, 0, Seq::empty()) == quoted_parts(
                    s@,
                    i as int,
                    literal_parts_view(parts@),
                ),
            decreases chars@.len() - i,
        {
            let ghost before = literal_parts_view(parts@);
            if class_contains(CharClass::Quotable, chars[i]) {
                let j = scan_run(&chars, i, CharClass::Quotable);
                proof {
                    lemma_run_end_bounds(chars@, i as int, CharClass::Quotable);
                }
                parts.push(LiteralPart::String(slice_string(&chars, i, j)));
                assert(literal_parts_view(parts@) =~= before.push(
                    LiteralPartView::String(s@.subrange(i as int, j as int)),
                ));
                i = j;
            } else {
                parts.push(LiteralPart::Escaped(chars[i]));
                assert(literal_parts_view(parts@) =~= before.push(
                    LiteralPartView::Escaped(s@[i as int]),
                ));
                i += 1;
            }
        }
        let mut words: Vec<Word> = Vec::new();
        if chars.len() > 0 {
            words.push(Word::Literal(parts));
        }
        let mut units: Vec<TextUnit> = Vec::new();
        units.push(TextUnit::DoubleQuote(words));
        proof {
            if forall|k: int| 0 <= k < s@.len() ==> (#[trigger] s@[k]) != '\n' {
                lemma_quoted_text_valid(s@);
            }
            assert(literal_value(Seq::empty()) =~= s@.subrange(0, 0));
            lemma_quoted_parts_value(s@, 0, Seq::empty());
            assert(words_view(words@) =~= if s@.len() == 0 {
                Seq::empty()
            } else {
                seq![WordView::Literal(quoted_parts(s@, 0, Seq::empty()))]
            });
            assert(units_view(units@) =~= quoted_text(s@));
        }
        Text(units)
    }
}

impl<'a> From<&'a str> for Text {
    /// The text that stands for `s`, written between double quotes.
    fn from(s: &'a str) -> (text: Text)
        ensures
            text@ == quoted_text(s@),
    {
        Text::quoted(s)
    }
}

impl<'a> FromSpecImpl<&'a str> for Text {
    open spec fn obeys_from_spec() -> bool {
        false
    }

    open spec fn from_spec(s: &'a str) -> Text {
        arbitrary()
    }
}

} // verus!
