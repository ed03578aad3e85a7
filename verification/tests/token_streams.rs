use bootstrap_rs::communication::{Error, Position};
use bootstrap_rs::eureka::lexer::Lexer;
use bootstrap_rs::eureka::{Identifier, Keyword, Padding, Punctuator, Token, Tokens};

#[test]
fn tokens_empty() {
    let mut tokens = Tokens::new("");

    assert_eq!(tokens, Tokens::try_new("").unwrap());

    assert_eq!(tokens.peek(), None);
    assert_eq!(tokens.pop(), None);
    assert_eq!(tokens.position(), Position::start());
}

#[test]
fn tokens_non_empty() {
    let mut tokens = Tokens::new("fn example");

    assert_eq!(tokens.position(), Position::new(1, 1));
    assert_eq!(tokens.peek(), Some(Token::from(Keyword::Fn)));
    assert_eq!(tokens.pop(), Some(Token::from(Keyword::Fn)));

    assert_eq!(tokens.position(), Position::new(1, 3));
    assert_eq!(tokens.peek(), Some(Token::from(Padding::new(" "))));
    assert_eq!(tokens.pop(), Some(Token::from(Padding::new(" "))));

    assert_eq!(tokens.position(), Position::new(1, 4));
    assert_eq!(tokens.peek(), Some(Token::from(Identifier::new("example"))));
    assert_eq!(tokens.pop(), Some(Token::from(Identifier::new("example"))));

    assert_eq!(tokens.position(), Position::new(1, 11));
    assert_eq!(tokens.peek(), None);
    assert_eq!(tokens.pop(), None);

    assert_eq!(tokens.position(), Position::new(1, 11));
    assert_eq!(tokens.peek(), None);
    assert_eq!(tokens.pop(), None);
}

#[test]
fn tokens_non_empty_error() {
    for (src, expected_position) in [
        ("`", Position::new(1, 1)),
        ("fn`", Position::new(1, 3)),
        ("fn `", Position::new(1, 4)),
        ("fn main`", Position::new(1, 8)),
        ("fn main(`", Position::new(1, 9)),
        ("fn main()`", Position::new(1, 10)),
        ("fn main()\n`", Position::new(2, 1)),
        ("fn main()\n{`", Position::new(2, 2)),
        ("fn main()\n{\n`", Position::new(3, 1)),
        ("fn main()\n{\n}`", Position::new(3, 2)),
    ] {
        let position_error = Tokens::try_new(src).unwrap_err();
        assert_eq!(position_error.position, expected_position);
    }
}

#[test]
fn try_take() {
    let mut tokens = Tokens::new(" fn");

    assert_eq!(tokens.peek(), Some(Token::Padding(Padding::new(" "))));

    let padding1 = tokens.try_take::<Padding>();

    assert_eq!(padding1, Some(Padding::new(" ")));
    assert_eq!(tokens.peek(), Some(Token::Keyword(Keyword::Fn)));

    let padding2 = tokens.try_take::<Padding>();

    assert_eq!(padding2, None);
    assert_eq!(tokens.peek(), Some(Token::Keyword(Keyword::Fn)));
}

#[test]
fn take() {
    let mut tokens = Tokens::new(" fn");

    assert_eq!(tokens.peek(), Some(Token::Padding(Padding::new(" "))));

    let padding1 = tokens.take::<Padding>();

    assert_eq!(padding1, Ok(Padding::new(" ")));
    assert_eq!(tokens.peek(), Some(Token::Keyword(Keyword::Fn)));

    let padding2 = tokens.take::<Padding>();

    assert_eq!(padding2, Err(Error::Expected("padding")));
    assert_eq!(tokens.peek(), Some(Token::Keyword(Keyword::Fn)));
}

#[test]
fn expect() {
    let mut tokens = Tokens::new("fn(value");
    assert_eq!(tokens.peek(), Some(Keyword::Fn.into()));

    assert_eq!(
        Err(Error::MissingToken(Keyword::Return.into())),
        tokens.expect(Keyword::Return),
    );
    assert_eq!(tokens.peek(), Some(Keyword::Fn.into()));

    assert_eq!(
        Err(Error::MissingToken(Identifier::new("value").into())),
        tokens.expect(Identifier::new("value")),
    );
    assert_eq!(tokens.peek(), Some(Keyword::Fn.into()));

    assert_eq!(Ok(()), tokens.expect(Keyword::Fn));
    assert_eq!(tokens.peek(), Some(Punctuator::LeftParenthesis.into()));

    assert_eq!(Ok(()), tokens.expect(Punctuator::LeftParenthesis));
    assert_eq!(tokens.peek(), Some(Identifier::new("value").into()));

    assert_eq!(Ok(()), tokens.expect(Identifier::new("value")));
    assert_eq!(tokens.peek(), None);

    assert_eq!(
        Err(Error::MissingToken(Punctuator::RightParenthesis.into())),
        tokens.expect(Punctuator::RightParenthesis),
    );
    assert_eq!(tokens.peek(), None);
}

#[test]
fn lexer_empty() {
    let mut lexer = Lexer::new("");

    assert_eq!(lexer, Lexer::try_new("").unwrap());

    assert_eq!(lexer.peek(), None);
    assert_eq!(lexer.pop(), None);
    assert_eq!(lexer.position(), Position::start());
}

#[test]
fn lexer_non_empty() {
    let mut lexer = Lexer::new("fn example");

    assert_eq!(lexer.position(), Position::new(1, 1));
    assert_eq!(lexer.peek(), Some(&Token::from(Keyword::Fn)));
    assert_eq!(lexer.pop(), Some(Token::from(Keyword::Fn)));

    assert_eq!(lexer.position(), Position::new(1, 3));
    assert_eq!(lexer.peek(), Some(&Token::from(Padding::new(" "))));
    assert_eq!(lexer.pop(), Some(Token::from(Padding::new(" "))));

    assert_eq!(lexer.position(), Position::new(1, 4));
    assert_eq!(lexer.peek(), Some(&Token::from(Identifier::new("example"))));
    assert_eq!(lexer.pop(), Some(Token::from(Identifier::new("example"))));

    assert_eq!(lexer.position(), Position::new(1, 11));
    assert_eq!(lexer.peek(), None);
    assert_eq!(lexer.pop(), None);

    assert_eq!(lexer.position(), Position::new(1, 11));
    assert_eq!(lexer.peek(), None);
    assert_eq!(lexer.pop(), None);
}

#[test]
fn lexer_non_empty_error() {
    for (src, expected_position) in [
        ("`", Position::new(1, 1)),
        ("fn`", Position::new(1, 3)),
        ("fn `", Position::new(1, 4)),
        ("fn main`", Position::new(1, 8)),
        ("fn main(`", Position::new(1, 9)),
        ("fn main()`", Position::new(1, 10)),
        ("fn main()\n`", Position::new(2, 1)),
        ("fn main()\n{`", Position::new(2, 2)),
        ("fn main()\n{\n`", Position::new(3, 1)),
        ("fn main()\n{\n}`", Position::new(3, 2)),
    ] {
        let position_error = Lexer::try_new(src).unwrap_err();
        assert_eq!(position_error.position, expected_position);
    }
}

#[test]
fn empty_lexer() {
    let mut lexer = bootstrap_rs::eureka::token::tokens::Lexer::new(Vec::new());

    assert!(lexer.peek().is_none());
    assert!(lexer.pop().is_none());
    assert_eq!(lexer.position(), bootstrap_rs::text::Position::new(1, 1));
}

#[test]
fn non_empty_lexer() {
    let mut lexer = bootstrap_rs::eureka::token::tokens::Lexer::lex_all("fn example").unwrap();

    assert_eq!(lexer.position(), bootstrap_rs::text::Position::new(1, 1));
    assert_eq!(lexer.peek(), Some(&Token::from(Keyword::Fn)));
    assert_eq!(lexer.pop(), Some(Token::from(Keyword::Fn)));

    assert_eq!(lexer.position(), bootstrap_rs::text::Position::new(1, 3));
    assert_eq!(lexer.peek(), Some(&Token::from(Padding::new(" "))));
    assert_eq!(lexer.pop(), Some(Token::from(Padding::new(" "))));

    assert_eq!(lexer.position(), bootstrap_rs::text::Position::new(1, 4));
    assert_eq!(lexer.peek(), Some(&Token::from(Identifier::new("example"))));
    assert_eq!(lexer.pop(), Some(Token::from(Identifier::new("example"))));

    assert_eq!(lexer.position(), bootstrap_rs::text::Position::new(1, 11));
    assert_eq!(lexer.peek(), None);
    assert_eq!(lexer.pop(), None);

    assert_eq!(lexer.position(), bootstrap_rs::text::Position::new(1, 11));
    assert_eq!(lexer.peek(), None);
    assert_eq!(lexer.pop(), None);
}
