use libabbs::apml::ast::{
    ApmlAst, BracedExpansion, ExpansionModifier, GlobPart, GlobPattern, LiteralPart, Text,
    TextUnit, VariableDefinition, VariableValue, Word,
};
use libabbs::apml::lst::{self, ApmlLst};
use libabbs::apml::validate::{is_identifier_text, is_name_text};
use std::rc::Rc;

fn literal(text: &str) -> Word {
    Word::Literal(vec![LiteralPart::String(text.to_string())])
}

fn quoted(words: Vec<Word>) -> VariableValue {
    VariableValue::String(Text(vec![TextUnit::DoubleQuote(words)]))
}

fn unquoted(words: Vec<Word>) -> VariableValue {
    VariableValue::String(Text(vec![TextUnit::Unquoted(words)]))
}

fn strip(pattern: Vec<GlobPart>) -> Word {
    Word::BracedVariable(BracedExpansion {
        name: "v".to_string(),
        modifier: Some(ExpansionModifier::StripShortestPrefix(Rc::new(GlobPattern(pattern)))),
    })
}

fn read_back(value: &VariableValue) -> bool {
    VariableValue::emit_from(&value.lower()).as_ref() == Ok(value)
}

#[test]
fn names_and_identifiers() {
    assert!(is_name_text("a_1"));
    assert!(is_name_text("1a"));
    assert!(!is_name_text(""));
    assert!(!is_name_text("a-b"));
    assert!(is_identifier_text("_a1"));
    assert!(!is_identifier_text("1a"));
    assert!(!is_identifier_text(""));
}

#[test]
fn what_the_parser_gives_is_well_formed_and_means_something_valid() {
    for source in [
        "",
        "a=b",
        "a=b # a\n# b\n# c\nb=c\n\n# a\nc=\"$1\"",
        "x=\"${a:-'q q'$b}${c##*/}\\$\" y=${d//[a-z]/_}\n",
        "k=a\\ b'c'\"d e\"f\n",
    ] {
        let lst = ApmlLst::parse(source).unwrap();
        assert!(lst.is_well_formed());
        let ast = ApmlAst::emit_from(&lst).unwrap();
        assert!(ast.is_valid());
        assert_eq!(ApmlAst::emit_from(&ast.lower()), Ok(ast.clone()));
        assert!(ast.lower().is_well_formed());
    }
}

#[test]
fn token_lists_that_no_text_gives() {
    let a = || {
        lst::Token::Variable(lst::VariableDefinition {
            name: "a".to_string(),
            op: lst::VariableOp::Assignment,
            value: lst::VariableValue::String(lst::Text(vec![])),
        })
    };
    assert!(ApmlLst(vec![a(), lst::Token::Space, a()]).is_well_formed());
    assert!(!ApmlLst(vec![a(), a()]).is_well_formed());
    assert!(!ApmlLst(vec![a(), lst::Token::Comment("x".to_string())]).is_well_formed());
    assert!(!ApmlLst(vec![lst::Token::Comment("x".to_string()), lst::Token::Space])
        .is_well_formed());
    assert!(!ApmlLst(vec![lst::Token::Comment("x\ny".to_string())]).is_well_formed());
    assert!(!lst::TextUnit::Unquoted(String::new()).is_well_formed());
    assert!(!lst::TextUnit::Unquoted("a b".to_string()).is_well_formed());
    assert!(lst::TextUnit::Unquoted("a\\ b".to_string()).is_well_formed());
    assert!(!lst::TextUnit::Unquoted("a\\".to_string()).is_well_formed());
    assert!(lst::TextUnit::DoubleQuote("a b".to_string()).is_well_formed());
    assert!(!lst::TextUnit::DoubleQuote("a\"b".to_string()).is_well_formed());
    assert!(!lst::TextUnit::SingleQuote("a'b".to_string()).is_well_formed());
    assert!(!lst::Text(vec![
        lst::TextUnit::Unquoted("a".to_string()),
        lst::TextUnit::Unquoted("b".to_string()),
    ])
    .is_well_formed());
}

#[test]
fn valid_values_are_read_back() {
    for value in [
        quoted(vec![]),
        quoted(vec![literal("a b")]),
        unquoted(vec![literal("a"), Word::UnbracedVariable("b".to_string()), literal("-c")]),
        unquoted(vec![Word::UnbracedVariable("1".to_string()), literal("2")]),
        unquoted(vec![strip(vec![GlobPart::Escaped('#'), GlobPart::String("#".to_string())])]),
        quoted(vec![strip(vec![GlobPart::Range("!a-z".to_string())])]),
        VariableValue::String(Text::quoted("a $b \"c\"")),
    ] {
        assert!(value.is_valid());
        assert!(read_back(&value));
    }
}

#[test]
fn values_that_are_not_valid() {
    let two_strings = quoted(vec![Word::Literal(vec![
        LiteralPart::String("a".to_string()),
        LiteralPart::String("b".to_string()),
    ])]);
    assert!(!two_strings.is_valid());
    assert!(!read_back(&two_strings));
    let two_literals = quoted(vec![literal("a"), literal("b")]);
    assert!(!two_literals.is_valid());
    assert!(!read_back(&two_literals));
    let glued = quoted(vec![Word::UnbracedVariable("a".to_string()), literal("b")]);
    assert!(!glued.is_valid());
    assert!(!read_back(&glued));
    let doubled = quoted(vec![strip(vec![GlobPart::String("#".to_string())])]);
    assert!(!doubled.is_valid());
    assert!(!read_back(&doubled));
    let empty_literal = quoted(vec![Word::Literal(vec![])]);
    assert!(!empty_literal.is_valid());
    assert!(!read_back(&empty_literal));
    assert!(!unquoted(vec![]).is_valid());
    assert!(!unquoted(vec![literal("a b")]).is_valid());
    assert!(!quoted(vec![literal("a$b")]).is_valid());
    assert!(!quoted(vec![Word::UnbracedVariable("12".to_string())]).is_valid());
    assert!(!VariableValue::String(Text::quoted("a\nb")).is_valid());
    assert!(!VariableValue::String(Text(vec![TextUnit::SingleQuote("a'b".to_string())]))
        .is_valid());
    let definition = VariableDefinition { name: "1a".to_string(), value: quoted(vec![]) };
    assert!(!definition.is_valid());
    assert!(!ApmlAst(vec![definition]).is_valid());
}
