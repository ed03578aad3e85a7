use bootstrap_rs::communication::{Error, Position, PositionError};
use bootstrap_rs::eureka::{parse, Chars, Identifier, Keyword, Padding, Punctuation, Token, Tokens};
use bootstrap_rs::miscellaneous::missing;

#[test]
fn parse_one_function() {
    let module = parse("fn main() {}").unwrap();

    assert_eq!(module.definitions.len(), 1);
    assert!(module.pre_definitions_padding.is_none());
    let bootstrap_rs::eureka::syntax_tree::Definition::Function(function) =
        &module.definitions[0].definition;
    assert_eq!(function.identifier.unlex(), "main");
    assert_eq!(module.unlex(), "fn main() {}");
}

#[test]
fn parse_empty_source() {
    let module = parse("").unwrap();

    assert!(module.pre_definitions_padding.is_none());
    assert!(module.definitions.is_empty());
    assert_eq!(module.unlex(), "");
}

#[test]
fn parse_missing_parenthesis() {
    let error = parse("fn main( {}").unwrap_err();

    assert_eq!(
        error,
        PositionError::new(
            Position::new(1, 9),
            Error::MissingToken(Token::Punctuation(Punctuation::RightParenthesis)),
        ),
    );
}

#[test]
fn parse_trailing_token() {
    let error = parse("fn main() {}return").unwrap_err();

    assert_eq!(
        error,
        PositionError::new(
            Position::new(1, 13),
            Error::UnexpectedToken(Token::Keyword(Keyword::Return)),
        ),
    );
}

#[test]
fn parse_control_character() {
    let error = parse("\t").unwrap_err();

    assert_eq!(
        error,
        PositionError::new(Position::new(1, 1), Error::UnexpectedChar('\t')),
    );
}

#[test]
fn parse_unterminated_comment() {
    let error = parse("fn main() {} /* lost").unwrap_err();

    assert_eq!(error.error, Error::Expected("*/"));
}

#[test]
fn round_trip_preserves_formatting() {
    for source in [
        "",
        " ",
        "\n\n",
        "/* leading */fn a(){}",
        "fn main() {}",
        " fn spaced () {} ",
        "fn a(){}fn b(){}",
        "fn first()\n{}\n\nfn second /* inline */ ()\n{}\n",
        "/* outer /* inner */ still outer */\nfn x(){}",
    ] {
        let module = parse(source).unwrap();
        assert_eq!(module.unlex(), source);
    }
}

#[test]
fn tokenizes_in_order() {
    let mut tokens = Tokens::new("fn main() {}");

    assert_eq!(tokens.pop(), Some(Token::Keyword(Keyword::Fn)));
    assert_eq!(tokens.pop(), Some(Token::Padding(Padding::new(" "))));
    assert_eq!(tokens.pop(), Some(Token::Identifier(Identifier::new("main"))));
    assert_eq!(
        tokens.pop(),
        Some(Token::Punctuation(Punctuation::LeftParenthesis))
    );
    assert_eq!(
        tokens.pop(),
        Some(Token::Punctuation(Punctuation::RightParenthesis))
    );
    assert_eq!(tokens.pop(), Some(Token::Padding(Padding::new(" "))));
    assert_eq!(tokens.pop(), Some(Token::Punctuation(Punctuation::LeftBrace)));
    assert_eq!(tokens.pop(), Some(Token::Punctuation(Punctuation::RightBrace)));
    assert_eq!(tokens.pop(), None);
}

#[test]
fn positions_never_decrease() {
    let mut tokens = Tokens::new("fn first()\n{}\n\nfn second ()\n{}\n");
    let mut previous = tokens.position();

    while let Some(_) = tokens.pop() {
        let current = tokens.position();
        assert!(
            current.line() > previous.line()
                || (current.line() == previous.line() && current.column() >= previous.column())
        );
        previous = current;
    }

    assert_eq!(previous, Position::new(6, 1));
}

#[test]
fn keyword_table_round_trip() {
    for keyword in [Keyword::Fn, Keyword::If, Keyword::Return] {
        assert_eq!(Keyword::lex(keyword.unlex()), Some(keyword));
    }
    assert_eq!(Keyword::lex("main"), None);
    assert_eq!(Keyword::lex("f"), None);
    assert_eq!(Keyword::lex("fnx"), None);
    assert_eq!(Keyword::lex(""), None);
}

#[test]
fn keyword_identifier_partition_cases() {
    // Every identifier-shaped run classifies as exactly one of the two.
    for (src, is_keyword) in [
        ("fn", true),
        ("if", true),
        ("return", true),
        ("fnord", false),
        ("_", false),
        ("returns", false),
        ("main", false),
    ] {
        let mut chars = Chars::new(src);
        match Identifier::lex(&mut chars).unwrap() {
            Ok(identifier) => {
                assert!(!is_keyword);
                assert_eq!(identifier.unlex(), src);
            },
            Err(keyword) => {
                assert!(is_keyword);
                assert_eq!(keyword.unlex(), src);
            },
        }
    }
}

#[test]
fn padding_never_back_to_back() {
    let mut tokens = Tokens::new(" /* a */ \n fn  x  (  )  {  } /**/ ");
    let mut previous_was_padding = false;

    while let Some(token) = tokens.pop() {
        let is_padding = matches!(token, Token::Padding(_));
        assert!(!(previous_was_padding && is_padding));
        previous_was_padding = is_padding;
    }
}

#[test]
fn missing_message() {
    assert_eq!(missing("identifier"), "missing identifier");
    assert_eq!(missing(""), "missing ");
}

#[test]
fn unlexes_every_token_kind() {
    assert_eq!(Keyword::Fn.unlex(), "fn");
    assert_eq!(Keyword::If.unlex(), "if");
    assert_eq!(Keyword::Return.unlex(), "return");
    assert_eq!(Punctuation::LeftParenthesis.unlex(), "(");
    assert_eq!(Punctuation::RightParenthesis.unlex(), ")");
    assert_eq!(Punctuation::LeftBrace.unlex(), "{");
    assert_eq!(Punctuation::RightBrace.unlex(), "}");
    assert_eq!(Token::Identifier(Identifier::new("abc")).unlex(), "abc");
    assert_eq!(Token::Padding(Padding::new("/* note */")).unlex(), "/* note */");
}

#[test]
fn deep_nesting_round_trips() {
    let mut source = String::new();
    source.extend(std::iter::repeat("/*").take(255));
    source.extend(std::iter::repeat("*/").take(255));

    let module = parse(&source).unwrap();
    assert_eq!(module.unlex(), source);

    let mut too_deep = String::new();
    too_deep.extend(std::iter::repeat("/*").take(256));
    too_deep.extend(std::iter::repeat("*/").take(256));

    let error = parse(&too_deep).unwrap_err();
    assert_eq!(error.error, Error::ExceededMaximumNestingLevel);
    assert_eq!(error.position, Position::new(1, 511));
}
