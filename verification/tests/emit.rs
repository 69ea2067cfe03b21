use libabbs::apml::ast::{
    ApmlAst, BracedExpansion, ExpansionModifier, GlobPart, GlobPattern, LiteralPart, Text,
    TextUnit, VariableDefinition, VariableValue, Word,
};
use libabbs::apml::emit::EmitError;
use libabbs::apml::lst::{self, ApmlLst};
use std::rc::Rc;

fn value_of(source: &str) -> Result<VariableValue, EmitError> {
    let lst = ApmlLst::parse(source).unwrap();
    match &lst.0[0] {
        lst::Token::Variable(definition) => VariableValue::emit_from(&definition.value),
        _ => panic!("no definition"),
    }
}

fn words_of(source: &str) -> Vec<Word> {
    match value_of(source).unwrap() {
        VariableValue::String(Text(units)) => match units.into_iter().next().unwrap() {
            TextUnit::DoubleQuote(words) => words,
            TextUnit::Unquoted(words) => words,
            TextUnit::SingleQuote(_) => panic!("single quote"),
        },
    }
}

fn modifier_of(source: &str) -> (String, Option<ExpansionModifier>) {
    match words_of(source).into_iter().next().unwrap() {
        Word::BracedVariable(BracedExpansion { name, modifier }) => (name, modifier),
        _ => panic!("no braced expansion"),
    }
}

fn pattern(parts: Vec<GlobPart>) -> Rc<GlobPattern> {
    Rc::new(GlobPattern(parts))
}

fn literal(text: &str) -> Word {
    Word::Literal(vec![LiteralPart::String(text.to_string())])
}

#[test]
fn emit_plain_words() {
    assert_eq!(words_of("a=b"), vec![literal("b")]);
    assert_eq!(
        words_of("a=\"x $y z\""),
        vec![literal("x "), Word::UnbracedVariable("y".to_string()), literal(" z")]
    );
    assert_eq!(words_of("a=\"$1\""), vec![Word::UnbracedVariable("1".to_string())]);
    assert_eq!(
        words_of("a=$12"),
        vec![Word::UnbracedVariable("1".to_string()), literal("2")]
    );
}

#[test]
fn emit_units_keep_their_kind() {
    let value = value_of("a=b'c d'\"e\"").unwrap();
    assert_eq!(
        value,
        VariableValue::String(Text(vec![
            TextUnit::Unquoted(vec![literal("b")]),
            TextUnit::SingleQuote("c d".to_string()),
            TextUnit::DoubleQuote(vec![literal("e")]),
        ]))
    );
    assert_eq!(value.to_string(), "b'c d'\"e\"");
}

#[test]
fn emit_escapes() {
    assert_eq!(
        words_of("a=\"x\\$y\\\nz\""),
        vec![Word::Literal(vec![
            LiteralPart::String("x".to_string()),
            LiteralPart::Escaped('$'),
            LiteralPart::String("y".to_string()),
            LiteralPart::LineContinuation,
            LiteralPart::String("z".to_string()),
        ])]
    );
}

#[test]
fn emit_substring() {
    assert_eq!(
        modifier_of("a=${b:3}"),
        ("b".to_string(), Some(ExpansionModifier::Substring { offset: 3, length: None }))
    );
    assert_eq!(
        modifier_of("a=${b:03:120}"),
        ("b".to_string(), Some(ExpansionModifier::Substring { offset: 3, length: Some(120) }))
    );
}

#[test]
fn emit_length_and_plain() {
    assert_eq!(modifier_of("a=${#b}"), ("b".to_string(), Some(ExpansionModifier::Length)));
    assert_eq!(modifier_of("a=${b_1}"), ("b_1".to_string(), None));
}

#[test]
fn emit_pattern_modifiers() {
    let star_slash = || pattern(vec![GlobPart::AnyString, GlobPart::String("/".to_string())]);
    assert_eq!(
        modifier_of("a=${b#*/}").1,
        Some(ExpansionModifier::StripShortestPrefix(star_slash()))
    );
    assert_eq!(
        modifier_of("a=${b##*/}").1,
        Some(ExpansionModifier::StripLongestPrefix(star_slash()))
    );
    assert_eq!(
        modifier_of("a=${b%.?}").1,
        Some(ExpansionModifier::StripShortestSuffix(pattern(vec![
            GlobPart::String(".".to_string()),
            GlobPart::AnyChar
        ])))
    );
    assert_eq!(
        modifier_of("a=${b%%[0-9]\\*}").1,
        Some(ExpansionModifier::StripLongestSuffix(pattern(vec![
            GlobPart::Range("0-9".to_string()),
            GlobPart::Escaped('*')
        ])))
    );
    let x = || pattern(vec![GlobPart::String("x".to_string())]);
    assert_eq!(modifier_of("a=${b^x}").1, Some(ExpansionModifier::UpperOnce(x())));
    assert_eq!(modifier_of("a=${b^^x}").1, Some(ExpansionModifier::UpperAll(x())));
    assert_eq!(modifier_of("a=${b,x}").1, Some(ExpansionModifier::LowerOnce(x())));
    assert_eq!(modifier_of("a=${b,,x}").1, Some(ExpansionModifier::LowerAll(x())));
}

#[test]
fn emit_replace_modifiers() {
    let x = || pattern(vec![GlobPart::String("x".to_string())]);
    let y = || Rc::new(Text(vec![TextUnit::Unquoted(vec![literal("y")])]));
    assert_eq!(
        modifier_of("a=${b/x/y}").1,
        Some(ExpansionModifier::ReplaceOnce { pattern: x(), string: y() })
    );
    assert_eq!(
        modifier_of("a=${b//x/y}").1,
        Some(ExpansionModifier::ReplaceAll { pattern: x(), string: y() })
    );
    assert_eq!(
        modifier_of("a=${b/#x/y}").1,
        Some(ExpansionModifier::ReplacePrefix { pattern: x(), string: y() })
    );
    assert_eq!(
        modifier_of("a=${b/%x/y}").1,
        Some(ExpansionModifier::ReplaceSuffix { pattern: x(), string: y() })
    );
    assert_eq!(
        modifier_of("a=${b/x/}").1,
        Some(ExpansionModifier::ReplaceOnce { pattern: x(), string: Rc::new(Text(vec![])) })
    );
}

#[test]
fn emit_text_modifiers() {
    let nested = || {
        Rc::new(Text(vec![TextUnit::Unquoted(vec![
            literal("x"),
            Word::BracedVariable(BracedExpansion { name: "c".to_string(), modifier: None }),
        ])]))
    };
    assert_eq!(modifier_of("a=${b:?x${c}}").1, Some(ExpansionModifier::ErrorOnUnset(nested())));
    assert_eq!(modifier_of("a=${b:-x${c}}").1, Some(ExpansionModifier::WhenUnset(nested())));
    assert_eq!(modifier_of("a=${b:+x${c}}").1, Some(ExpansionModifier::WhenSet(nested())));
    assert_eq!(
        modifier_of("a=\"${b:-'x y'z}\"").1,
        Some(ExpansionModifier::WhenUnset(Rc::new(Text(vec![
            TextUnit::SingleQuote("x y".to_string()),
            TextUnit::Unquoted(vec![literal("z")]),
        ]))))
    );
}

#[test]
fn emit_errors() {
    assert_eq!(value_of("a=$"), Err(EmitError::InvalidExpansion));
    assert_eq!(value_of("a=$-"), Err(EmitError::InvalidExpansion));
    assert_eq!(value_of("a=${}"), Err(EmitError::InvalidExpansion));
    assert_eq!(value_of("a=${#}"), Err(EmitError::InvalidExpansion));
    assert_eq!(value_of("a=${b!}"), Err(EmitError::UnknownModifier));
    assert_eq!(value_of("a=${#b:1}"), Err(EmitError::UnknownModifier));
    assert_eq!(value_of("a=${b:x}"), Err(EmitError::InvalidNumber));
    assert_eq!(value_of("a=${b:1:-2}"), Err(EmitError::InvalidNumber));
    assert_eq!(value_of("a=${b:1x}"), Err(EmitError::InvalidNumber));
    assert_eq!(
        value_of("a=${b:99999999999999999999999999999999999999999}"),
        Err(EmitError::InvalidNumber)
    );
    assert_eq!(value_of("a=${b"), Err(EmitError::UnterminatedExpansion));
    assert_eq!(value_of("a=${b:-c"), Err(EmitError::UnterminatedExpansion));
    assert_eq!(value_of("a=${b#c"), Err(EmitError::UnterminatedExpansion));
    assert_eq!(value_of("a=${b/c}"), Err(EmitError::UnterminatedPattern));
    assert_eq!(value_of("a=${b#[c}"), Err(EmitError::UnterminatedRange));
    assert_eq!(value_of("a=\"${b:-'c}\""), Err(EmitError::UnterminatedQuote));
    assert_eq!(value_of("a=\\n"), Err(EmitError::DisallowedEscape));
    assert_eq!(value_of("a=${b#\\n}"), Err(EmitError::DisallowedEscape));
    assert_eq!(value_of("a=${b#[\\*]}"), Err(EmitError::DisallowedEscape));
    assert_eq!(value_of("a=\"${b:-'\\*'}\""), Err(EmitError::DisallowedEscape));
}

#[test]
fn emit_document_fails_at_first_error() {
    let lst = ApmlLst::parse("a=$\nb=${").unwrap();
    assert_eq!(ApmlAst::emit_from(&lst), Err(EmitError::InvalidExpansion));
    let lst = ApmlLst::parse("a=1\nb=${x\nc=$").unwrap();
    assert_eq!(ApmlAst::emit_from(&lst), Err(EmitError::UnterminatedExpansion));
}

#[test]
fn emit_document_collects_definitions() {
    let lst = ApmlLst::parse("# x\na=1 # y\n\nb='2'\n").unwrap();
    let ast = ApmlAst::emit_from(&lst).unwrap();
    assert_eq!(
        ast,
        ApmlAst(vec![
            VariableDefinition {
                name: "a".to_string(),
                value: VariableValue::String(Text(vec![TextUnit::Unquoted(vec![literal("1")])])),
            },
            VariableDefinition {
                name: "b".to_string(),
                value: VariableValue::String(Text(vec![TextUnit::SingleQuote("2".to_string())])),
            },
        ])
    );
    assert_eq!(ast.to_string(), "a=1\nb='2'\n");
    assert_eq!(ast.lower().to_string(), "a=1\nb='2'\n");
}

#[test]
fn emit_reads_units_that_no_parser_gave() {
    assert_eq!(
        TextUnit::emit_from(&lst::TextUnit::Unquoted("a\\".to_string())),
        Err(EmitError::DisallowedEscape)
    );
    assert_eq!(
        TextUnit::emit_from(&lst::TextUnit::DoubleQuote("a b".to_string())),
        Ok(TextUnit::DoubleQuote(vec![literal("a b")]))
    );
    assert_eq!(
        TextUnit::emit_from(&lst::TextUnit::SingleQuote("$a".to_string())),
        Ok(TextUnit::SingleQuote("$a".to_string()))
    );
    assert_eq!(
        Text::emit_from(&lst::Text(vec![
            lst::TextUnit::Unquoted("a".to_string()),
            lst::TextUnit::Unquoted("$".to_string()),
        ])),
        Err(EmitError::InvalidExpansion)
    );
}
