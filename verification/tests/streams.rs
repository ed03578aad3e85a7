use bootstrap_rs::communication::{Error, Position, PositionError};
use bootstrap_rs::eureka::code::Code;
use bootstrap_rs::eureka::Chars;

#[test]
fn chars_empty() {
    let mut chars = Chars::new("");

    assert_eq!(chars, Chars::try_new("").unwrap());

    assert!(chars.peek().is_none());
    assert!(chars.pop().is_none());

    assert!(chars.peek().is_none());
    assert!(chars.pop().is_none());

    assert!(chars.peek().is_none());
}

#[test]
fn chars_one_line() {
    let mut chars = Chars::new("a+b");

    assert_eq!(chars.peek(), Some('a'));
    assert_eq!(chars.pop(), Some('a'));

    assert_eq!(chars.peek(), Some('+'));
    assert_eq!(chars.pop(), Some('+'));

    assert_eq!(chars.peek(), Some('b'));
    assert_eq!(chars.pop(), Some('b'));

    assert!(chars.peek().is_none());
}

#[test]
fn chars_two_lines() {
    let mut chars = Chars::new("A\nB\n");

    assert_eq!(chars.pop(), Some('A'));
    assert_eq!(chars.pop(), Some('\n'));
    assert_eq!(chars.pop(), Some('B'));
    assert_eq!(chars.pop(), Some('\n'));

    assert!(chars.peek().is_none());
}

#[test]
fn chars_unexpected_char() {
    assert_eq!(
        Err(PositionError::new(
            Position::new(1, 2),
            Error::UnexpectedChar('\r')
        )),
        Chars::try_new("x\r"),
    );

    assert_eq!(
        Err(PositionError::new(
            Position::new(1, 2),
            Error::UnexpectedChar('\t')
        )),
        Chars::try_new("a\t\n"),
    );

    assert_eq!(
        Err(PositionError::new(
            Position::new(2, 1),
            Error::UnexpectedChar('\0')
        )),
        Chars::try_new("a\n\0\n"),
    );
}

#[test]
fn code_empty() {
    let mut code = Code::new("");

    assert_eq!(code, Code::try_new("").unwrap());

    assert!(code.peek().is_none());
    assert!(code.pop().is_none());

    assert!(code.peek().is_none());
    assert!(code.pop().is_none());

    assert!(code.peek().is_none());
}

#[test]
fn code_one_line() {
    let mut code = Code::new("a+b");

    assert_eq!(code.peek(), Some('a'));
    assert_eq!(code.pop(), Some('a'));

    assert_eq!(code.peek(), Some('+'));
    assert_eq!(code.pop(), Some('+'));

    assert_eq!(code.peek(), Some('b'));
    assert_eq!(code.pop(), Some('b'));

    assert!(code.peek().is_none());
}

#[test]
fn code_two_lines() {
    let mut code = Code::new("A\nB\n");

    assert_eq!(code.pop(), Some('A'));
    assert_eq!(code.pop(), Some('\n'));
    assert_eq!(code.pop(), Some('B'));
    assert_eq!(code.pop(), Some('\n'));

    assert!(code.peek().is_none());
}

#[test]
fn code_unexpected_char() {
    assert_eq!(
        Err(PositionError::new(
            Position::new(1, 2),
            Error::UnexpectedChar('\r')
        )),
        Code::try_new("x\r"),
    );

    assert_eq!(
        Err(PositionError::new(
            Position::new(1, 2),
            Error::UnexpectedChar('\t')
        )),
        Code::try_new("a\t\n"),
    );

    assert_eq!(
        Err(PositionError::new(
            Position::new(2, 1),
            Error::UnexpectedChar('\0')
        )),
        Code::try_new("a\n\0\n"),
    );
}

#[test]
fn code_position_advances() {
    let mut code = Code::new("a\nb");

    assert_eq!(code.position(), Position::new(1, 1));
    code.pop();
    assert_eq!(code.position(), Position::new(1, 2));
    code.pop();
    assert_eq!(code.position(), Position::new(2, 1));
    code.pop();
    assert_eq!(code.position(), Position::new(2, 2));
    code.pop();
    assert_eq!(code.position(), Position::new(2, 2));
}
