use libabbs::apml::lst::{
    ApmlLst, Text, TextUnit, Token, VariableDefinition, VariableOp, VariableValue,
};
use libabbs::apml::parse::ParseError;

fn definition(name: &str, units: Vec<TextUnit>) -> Token {
    Token::Variable(VariableDefinition {
        name: name.to_string(),
        op: VariableOp::Assignment,
        value: VariableValue::String(Text(units)),
    })
}

fn round_trip(source: &str) {
    assert_eq!(ApmlLst::parse(source).unwrap().to_string(), source);
}

#[test]
fn parse_empty() {
    assert_eq!(ApmlLst::parse("").unwrap(), ApmlLst(vec![]));
}

#[test]
fn parse_tokens() {
    let lst = ApmlLst::parse("# c\n a=b'c d'\"e\\\"f\" #x\n\n").unwrap();
    assert_eq!(
        lst,
        ApmlLst(vec![
            Token::Comment(" c".to_string()),
            Token::Newline,
            Token::Space,
            definition(
                "a",
                vec![
                    TextUnit::Unquoted("b".to_string()),
                    TextUnit::SingleQuote("c d".to_string()),
                    TextUnit::DoubleQuote("e\\\"f".to_string()),
                ]
            ),
            Token::Space,
            Token::Comment("x".to_string()),
            Token::Newline,
            Token::Newline,
        ])
    );
}

#[test]
fn parse_empty_value_and_hash_in_value() {
    assert_eq!(ApmlLst::parse("a=").unwrap(), ApmlLst(vec![definition("a", vec![])]));
    assert_eq!(
        ApmlLst::parse("a=b#c").unwrap(),
        ApmlLst(vec![definition("a", vec![TextUnit::Unquoted("b#c".to_string())])])
    );
    assert_eq!(
        ApmlLst::parse("a=\"\"").unwrap(),
        ApmlLst(vec![definition("a", vec![TextUnit::DoubleQuote(String::new())])])
    );
}

#[test]
fn parse_escaped_space_and_newline() {
    assert_eq!(
        ApmlLst::parse("a=b\\ c\\\nd").unwrap(),
        ApmlLst(vec![definition("a", vec![TextUnit::Unquoted("b\\ c\\\nd".to_string())])])
    );
    assert_eq!(
        ApmlLst::parse("a=\"b\\\nc\"").unwrap(),
        ApmlLst(vec![definition("a", vec![TextUnit::DoubleQuote("b\\\nc".to_string())])])
    );
}

#[test]
fn parse_round_trips() {
    round_trip("");
    round_trip("a=b");
    round_trip("a=b\nb=c\nc=\"$1\"");
    round_trip("a=b # a\n# b\n# c\nb=c\n\n# a\nc=\"$1\"");
    round_trip("  \n\n # only a comment");
    round_trip("PKGDEP=\"glibc ${A:-b} \\\n  zlib\" b=''\n");
    round_trip("a='\u{e9}' # \u{4e2d}\n");
}

#[test]
fn parse_unterminated_quote() {
    assert_eq!(ApmlLst::parse("a='b"), Err(ParseError::UnterminatedQuote));
    assert_eq!(ApmlLst::parse("a='b\nc'"), Err(ParseError::UnterminatedQuote));
    assert_eq!(ApmlLst::parse("a=\"b"), Err(ParseError::UnterminatedQuote));
    assert_eq!(ApmlLst::parse("a=\"b\nc\""), Err(ParseError::UnterminatedQuote));
    assert_eq!(ApmlLst::parse("a=\"b\\"), Err(ParseError::UnterminatedQuote));
    assert_eq!(ApmlLst::parse("a=\"b\\\""), Err(ParseError::UnterminatedQuote));
}

#[test]
fn parse_malformed_line() {
    assert_eq!(ApmlLst::parse("a"), Err(ParseError::MalformedLine));
    assert_eq!(ApmlLst::parse("a b=c"), Err(ParseError::MalformedLine));
    assert_eq!(ApmlLst::parse("=b"), Err(ParseError::MalformedLine));
    assert_eq!(ApmlLst::parse("1a=b"), Err(ParseError::MalformedLine));
    assert_eq!(ApmlLst::parse("a=b\n-"), Err(ParseError::MalformedLine));
    assert_eq!(ApmlLst::parse("a=b\\"), Err(ParseError::MalformedLine));
    assert_eq!(ApmlLst::parse("a+=b"), Err(ParseError::MalformedLine));
}

#[test]
fn parse_fails_at_first_offending_line() {
    assert_eq!(ApmlLst::parse("a='b\n-"), Err(ParseError::UnterminatedQuote));
    assert_eq!(ApmlLst::parse("-\na='b"), Err(ParseError::MalformedLine));
}

#[test]
fn render_tokens_and_units() {
    assert_eq!(Token::Space.to_string(), " ");
    assert_eq!(Token::Newline.to_string(), "\n");
    assert_eq!(Token::Comment(" x".to_string()).to_string(), "# x");
    assert_eq!(TextUnit::Unquoted("a".to_string()).to_string(), "a");
    assert_eq!(TextUnit::SingleQuote("a".to_string()).to_string(), "'a'");
    assert_eq!(TextUnit::DoubleQuote("a".to_string()).to_string(), "\"a\"");
    assert_eq!(VariableOp::Assignment.as_str(), "=");
    let token = definition(
        "k",
        vec![TextUnit::Unquoted("a".to_string()), TextUnit::SingleQuote("b".to_string())],
    );
    assert_eq!(token.to_string(), "k=a'b'");
}
