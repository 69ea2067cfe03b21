use libabbs::apml::ast::{
    ApmlAst, BracedExpansion, ExpansionModifier, GlobPart, GlobPattern, LiteralPart, Text,
    TextUnit, VariableDefinition, VariableValue, Word,
};
use libabbs::apml::lst::{self, ApmlLst};
use std::rc::Rc;

fn literal(text: &str) -> Word {
    Word::Literal(vec![LiteralPart::String(text.to_string())])
}

fn braced(name: &str, modifier: Option<ExpansionModifier>) -> Word {
    Word::BracedVariable(BracedExpansion { name: name.to_string(), modifier })
}

fn pattern(parts: Vec<GlobPart>) -> Rc<GlobPattern> {
    Rc::new(GlobPattern(parts))
}

fn nested(words: Vec<Word>) -> Rc<Text> {
    Rc::new(Text(vec![TextUnit::Unquoted(words)]))
}

fn every_modifier() -> Vec<(ExpansionModifier, &'static str)> {
    let p = || pattern(vec![GlobPart::String("p".to_string()), GlobPart::AnyString]);
    let s = || nested(vec![literal("s")]);
    vec![
        (ExpansionModifier::Substring { offset: 0, length: None }, ":0"),
        (ExpansionModifier::Substring { offset: 12, length: Some(305) }, ":12:305"),
        (ExpansionModifier::StripShortestPrefix(p()), "#p*"),
        (ExpansionModifier::StripLongestPrefix(p()), "##p*"),
        (ExpansionModifier::StripShortestSuffix(p()), "%p*"),
        (ExpansionModifier::StripLongestSuffix(p()), "%%p*"),
        (ExpansionModifier::ReplaceOnce { pattern: p(), string: s() }, "/p*/s"),
        (ExpansionModifier::ReplaceAll { pattern: p(), string: s() }, "//p*/s"),
        (ExpansionModifier::ReplacePrefix { pattern: p(), string: s() }, "/#p*/s"),
        (ExpansionModifier::ReplaceSuffix { pattern: p(), string: s() }, "/%p*/s"),
        (ExpansionModifier::UpperOnce(p()), "^p*"),
        (ExpansionModifier::UpperAll(p()), "^^p*"),
        (ExpansionModifier::LowerOnce(p()), ",p*"),
        (ExpansionModifier::LowerAll(p()), ",,p*"),
        (ExpansionModifier::ErrorOnUnset(s()), ":?s"),
        (ExpansionModifier::WhenUnset(s()), ":-s"),
        (ExpansionModifier::WhenSet(s()), ":+s"),
    ]
}

#[test]
fn render_every_modifier() {
    for (modifier, expected) in every_modifier() {
        assert_eq!(modifier.to_string(), expected);
        let expansion = BracedExpansion { name: "v".to_string(), modifier: Some(modifier) };
        assert_eq!(expansion.to_string(), format!("v{}", expected));
    }
    let length =
        BracedExpansion { name: "v".to_string(), modifier: Some(ExpansionModifier::Length) };
    assert_eq!(length.to_string(), "#v");
    assert_eq!(braced("v", None).to_string(), "${v}");
}

#[test]
fn render_words_and_parts() {
    assert_eq!(LiteralPart::String("a".to_string()).to_string(), "a");
    assert_eq!(LiteralPart::Escaped('$').to_string(), "\\$");
    assert_eq!(LiteralPart::LineContinuation.to_string(), "\\\n");
    assert_eq!(Word::UnbracedVariable("x".to_string()).to_string(), "$x");
    assert_eq!(TextUnit::SingleQuote("a b".to_string()).to_string(), "'a b'");
    assert_eq!(TextUnit::DoubleQuote(vec![literal("a b")]).to_string(), "\"a b\"");
    assert_eq!(TextUnit::Unquoted(vec![literal("a")]).to_string(), "a");
}

#[test]
fn lowered_value_means_the_same() {
    for (modifier, _) in every_modifier() {
        for quoted in [false, true] {
            let words = vec![literal("x"), braced("v", Some(modifier.clone())), literal("-y")];
            let unit = if quoted {
                TextUnit::DoubleQuote(words)
            } else {
                TextUnit::Unquoted(words)
            };
            let value = VariableValue::String(Text(vec![
                unit,
                TextUnit::SingleQuote("q q".to_string()),
            ]));
            let lowered = value.lower();
            assert_eq!(VariableValue::emit_from(&lowered), Ok(value.clone()));
            assert_eq!(lowered.to_string(), value.to_string());
        }
    }
}

#[test]
fn lowered_definition_is_parsed_again() {
    for (modifier, _) in every_modifier() {
        let definition = VariableDefinition {
            name: "NAME_1".to_string(),
            value: VariableValue::String(Text(vec![TextUnit::DoubleQuote(vec![
                Word::UnbracedVariable("a".to_string()),
                Word::Literal(vec![
                    LiteralPart::Escaped('"'),
                    LiteralPart::String(" b".to_string()),
                    LiteralPart::LineContinuation,
                ]),
                braced("v", Some(modifier)),
                braced("w", Some(ExpansionModifier::Length)),
            ])])),
        };
        let lowered = definition.lower();
        let source = lowered.to_string();
        assert_eq!(source, definition.to_string());
        let parsed = ApmlLst::parse(&source).unwrap();
        assert_eq!(parsed, ApmlLst(vec![lst::Token::Variable(lowered.clone())]));
        assert_eq!(VariableDefinition::emit_from(&lowered), Ok(definition));
    }
}

#[test]
fn lowered_document_is_parsed_again() {
    let ast = ApmlAst(vec![
        VariableDefinition { name: "a".to_string(), value: VariableValue::String("x y".into()) },
        VariableDefinition { name: "b".to_string(), value: VariableValue::String(Text(vec![])) },
    ]);
    let lowered = ast.lower();
    assert_eq!(lowered.to_string(), "a=\"x y\"\nb=\n");
    assert_eq!(ApmlLst::parse(&lowered.to_string()), Ok(lowered.clone()));
    assert_eq!(ApmlAst::emit_from(&lowered), Ok(ast));
}

#[test]
fn quoted_text_escapes_what_is_special() {
    assert_eq!(Text::from("a").to_string(), "\"a\"");
    assert_eq!(Text::from("").to_string(), "\"\"");
    assert_eq!(Text::quoted("a $b \"c\" \\d").to_string(), "\"a \\$b \\\"c\\\" \\\\d\"");
    assert_eq!(
        Text::quoted("a$b"),
        Text(vec![TextUnit::DoubleQuote(vec![Word::Literal(vec![
            LiteralPart::String("a".to_string()),
            LiteralPart::Escaped('$'),
            LiteralPart::String("b".to_string()),
        ])])])
    );
    let value = VariableValue::String(Text::quoted("a $b \"c\" \\d"));
    assert_eq!(VariableValue::emit_from(&value.lower()), Ok(value));
}
