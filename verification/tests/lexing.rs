use bootstrap_rs::communication::Error;
use bootstrap_rs::eureka::token::identifier::unquoted_identifier::UnquotedIdentifier;
use bootstrap_rs::eureka::token::name::lex_unquoted_name;
use bootstrap_rs::eureka::{Chars, Identifier, Keyword, Padding, Punctuation, Punctuator, Token};

#[test]
fn lex_empty() {
    let mut chars = Chars::new("");

    assert!(chars.peek().is_none());
    assert!(Token::lex(&mut chars).unwrap().is_none());

    assert!(chars.peek().is_none());
    assert!(Token::lex(&mut chars).unwrap().is_none());

    assert!(chars.peek().is_none());
}

#[test]
fn lex_non_empty() {
    let mut chars = Chars::new("fn main() {}");

    let token = Token::lex(&mut chars).unwrap().unwrap();
    assert_eq!(token, Keyword::Fn.into());

    let token = Token::lex(&mut chars).unwrap().unwrap();
    assert_eq!(token, Padding::new(" ").into());

    let token = Token::lex(&mut chars).unwrap().unwrap();
    assert_eq!(token, Identifier::new("main").into());

    let token = Token::lex(&mut chars).unwrap().unwrap();
    assert_eq!(token, Punctuation::LeftParenthesis.into());

    let token = Token::lex(&mut chars).unwrap().unwrap();
    assert_eq!(token, Punctuation::RightParenthesis.into());

    let token = Token::lex(&mut chars).unwrap().unwrap();
    assert_eq!(token, Padding::new(" ").into());

    let token = Token::lex(&mut chars).unwrap().unwrap();
    assert_eq!(token, Punctuation::LeftBrace.into());

    let token = Token::lex(&mut chars).unwrap().unwrap();
    assert_eq!(token, Punctuation::RightBrace.into());

    assert!(Token::lex(&mut chars).unwrap().is_none());
    assert!(chars.peek().is_none());
}

#[test]
fn identifier_new() {
    let identifier = Identifier::new("i");
    assert_eq!("i", identifier.unlex());
}

#[test]
fn lex_some_identifier() {
    for (src, expected_identifier, expected_peek) in [
        ("_", "_", None),
        ("c", "c", None),
        ("a+b", "a", Some('+')),
        ("T: ", "T", Some(':')),
        ("i += 1;", "i", Some(' ')),
        ("if_;", "if_", Some(';')),
        ("fnX", "fnX", None),
        ("fn2", "fn2", None),
        ("a_z__A_Z__0_9()", "a_z__A_Z__0_9", Some('(')),
    ] {
        let mut chars = Chars::new(src);
        let actual_identifier = Identifier::lex(&mut chars).unwrap().unwrap();

        assert_eq!(expected_identifier, actual_identifier.unlex());
        assert_eq!(expected_peek, chars.peek());
    }
}

#[test]
fn lex_some_keyword() {
    for (src, expected_keyword, expected_peek) in [
        ("fn", Keyword::Fn, None),
        ("if", Keyword::If, None),
        ("return", Keyword::Return, None),
        ("fn main", Keyword::Fn, Some(' ')),
        ("if (a < b) {}", Keyword::If, Some(' ')),
        ("return (0);", Keyword::Return, Some(' ')),
    ] {
        let mut chars = Chars::new(src);
        let actual_keyword = Identifier::lex(&mut chars).unwrap().unwrap_err();

        assert_eq!(expected_keyword, actual_keyword);
        assert_eq!(expected_peek, chars.peek());
    }
}

#[test]
fn identifier_lex_none() {
    for src in [
        "", " ", "1", "2x", "99", "#if", "$", "+", "-", "@", "[", "^", "`", "{",
    ] {
        let mut chars = Chars::new(src);
        assert!(Identifier::lex(&mut chars).is_none());
        assert_eq!(src.chars().next(), chars.peek());
    }
}

#[test]
fn new_succeeds() {
    let identifier = UnquotedIdentifier::new("i");
    assert_eq!("i", identifier.as_str());
}

#[test]
fn unquoted_identifier_lex_succeeds() {
    for (src, expected_identifier, expected_remaining_src) in [
        ("_", "_", ""),
        ("c", "c", ""),
        ("i += 1;", "i", " += 1;"),
        ("if_;", "if_", ";"),
        ("a_z__A_Z__0_9()", "a_z__A_Z__0_9", "()"),
    ] {
        let (actual_identifier, actual_remaining_src) = UnquotedIdentifier::lex(src).unwrap();

        assert_eq!(expected_identifier, actual_identifier.as_str());
        assert_eq!(expected_remaining_src, actual_remaining_src);
    }
}

#[test]
fn unquoted_identifier_lex_fails() {
    for src in ["", "99", "if", "return", "#if", "+"] {
        assert!(UnquotedIdentifier::lex(src).is_none());
    }
}

#[test]
fn map_is_sorted() {
    let mut map = Keyword::MAP.to_vec();

    map.sort_by_key(|&(key, _)| key);
    assert_eq!(map, Keyword::MAP.to_vec());

    map.sort_by_key(|&(_, key)| key);
    assert_eq!(map, Keyword::MAP.to_vec());
}

#[test]
fn lex_unquoted_name_succeeds() {
    for (src, expected_name, expected_remaining_src) in [
        ("_,", "_", ","),
        ("T: ", "T", ": "),
        ("a+b", "a", "+b"),
        ("x1 - x2", "x1", " - x2"),
        ("y", "y", ""),
        (
            "abcdefghijklmnopqrstuvwxyz",
            "abcdefghijklmnopqrstuvwxyz",
            "",
        ),
        (
            "ABCDEFGHIJKLMNOPQRSTUVWXYZ",
            "ABCDEFGHIJKLMNOPQRSTUVWXYZ",
            "",
        ),
        ("_0123456789", "_0123456789", ""),
        ("__2__ _1_", "__2__", " _1_"),
        ("snake_case?", "snake_case", "?"),
        ("camelCase?", "camelCase", "?"),
        ("while true {}", "while", " true {}"),
    ] {
        let (actual_name, actual_remaining_src) = lex_unquoted_name(src).unwrap();

        assert_eq!(expected_name, actual_name);
        assert_eq!(expected_remaining_src, actual_remaining_src);
    }
}

#[test]
fn lex_unquoted_name_fails() {
    for src in ["", "1", "2x", "-", "$", " ", "@", "[", "^", "`", "{"] {
        assert!(lex_unquoted_name(src).is_none());
    }
}

#[test]
fn padding_new() {
    let padding = Padding::new(" ");
    assert_eq!(" ", padding.unlex());
}

#[test]
fn padding_lex_some() {
    for (src, expected_padding, expected_peek) in [
        (" ", " ", None),
        (" else", " ", Some('e')),
        ("\n", "\n", None),
        ("\nSome ", "\n", Some('S')),
        ("/**/", "/**/", None),
        ("/**/*", "/**/", Some('*')),
        ("/**//", "/**/", Some('/')),
        ("/**/ */", "/**/ ", Some('*')),
        ("/** */ /**/", "/** */ /**/", None),
        ("/*/ */", "/*/ */", None),
        (" /* !0-9*A_Z/a~z\n*/\n", " /* !0-9*A_Z/a~z\n*/\n", None),
        (" \n\n /* /**/ */ ...", " \n\n /* /**/ */ ", Some('.')),
    ] {
        let mut chars = Chars::new(src);
        let actual_padding = Padding::lex(&mut chars).unwrap().unwrap();

        assert_eq!(expected_padding, actual_padding.unlex());
        assert_eq!(expected_peek, chars.peek());
    }
}

#[test]
fn padding_lex_none() {
    for src in [
        "", "_", "-", "x", "x\n", "1", "+", "!", "~", "#", "#\n", "*/", "*/**/", "//**/",
    ] {
        let mut chars = Chars::new(src);
        assert!(Padding::lex(&mut chars).unwrap().is_none());
        assert_eq!(src.chars().next(), chars.peek());
    }
}

#[test]
fn lex_error() {
    for (src, expected_column) in [("/*", 3), ("/*/", 4)] {
        let mut chars = Chars::new(src);
        assert!(Padding::lex(&mut chars).is_err());
        assert_eq!(1, chars.position().line());
        assert_eq!(expected_column, chars.position().column());
    }
}

#[test]
fn lex_maximum_nesting_level() {
    let mut src = String::new();
    src.extend(std::iter::repeat("/*").take(255));
    src.extend(std::iter::repeat("*/").take(255));

    let mut chars = Chars::new(&src);
    let padding = Padding::lex(&mut chars).unwrap().unwrap();

    assert_eq!(src.as_str(), padding.unlex());
    assert!(chars.peek().is_none());
}

#[test]
fn lex_error_exceeded_maximum_nesting_level() {
    let mut src = String::new();
    src.extend(std::iter::repeat("/*").take(256));
    src.extend(std::iter::repeat("*/").take(256));

    let mut chars = Chars::new(&src);
    assert_eq!(
        Error::ExceededMaximumNestingLevel,
        Padding::lex(&mut chars).unwrap_err(),
    );
    assert_eq!(1, chars.position().line());
    assert_eq!(511, chars.position().column());
}

#[test]
fn punctuation_lex_some() {
    for (src, expected_punctuation, expected_peek) in [
        ("(a", Punctuation::LeftParenthesis, Some('a')),
        (")", Punctuation::RightParenthesis, None),
        ("{\n    ", Punctuation::LeftBrace, Some('\n')),
        ("} else", Punctuation::RightBrace, Some(' ')),
    ] {
        let mut chars = Chars::new(src);
        let actual_punctuation = Punctuation::lex(&mut chars).unwrap();

        assert_eq!(expected_punctuation, actual_punctuation);
        assert_eq!(expected_peek, chars.peek());
    }
}

#[test]
fn punctuation_lex_none() {
    for src in ["", "x", "1", "if", " ", "#"] {
        let mut chars = Chars::new(src);
        assert!(Punctuation::lex(&mut chars).is_none());
        assert_eq!(src.chars().next(), chars.peek());
    }
}

#[test]
fn punctuator_lex_succeeds() {
    for (src, expected_punctuator, expected_peek) in [
        ("(a", Punctuator::LeftParenthesis, Some('a')),
        (")", Punctuator::RightParenthesis, None),
        ("{\n    ", Punctuator::LeftBrace, Some('\n')),
        ("} else", Punctuator::RightBrace, Some(' ')),
    ] {
        let mut chars = Chars::new(src);
        let actual_punctuator = Punctuator::lex(&mut chars).unwrap();

        assert_eq!(expected_punctuator, actual_punctuator);
        assert_eq!(expected_peek, chars.peek());
    }
}

#[test]
fn punctuator_lex_fails() {
    for src in ["", "x", "1", "if", " ", "#"] {
        let mut chars = Chars::new(src);
        assert!(Punctuator::lex(&mut chars).is_none());
        assert_eq!(src.chars().next(), chars.peek());
    }
}
