use bootstrap_rs::communication::Position;

#[test]
fn position_position() {
    let position = Position::new(1, 2);

    assert_eq!(position.line(), 1);
    assert_eq!(position.column(), 2);
}

#[test]
fn position_mut_position() {
    let mut position = Position::new(2, 9);

    assert_eq!(position.line(), 2);
    assert_eq!(position.column(), 9);

    position.set_line(5);

    assert_eq!(position.line(), 5);
    assert_eq!(position.column(), 9);

    position.set_column(4);

    assert_eq!(position.line(), 5);
    assert_eq!(position.column(), 4);
}

#[test]
fn position_advance_position() {
    let mut position = Position::start();

    assert_eq!((position.line(), position.column()), (1, 1));
    position.advance(' ');
    assert_eq!((position.line(), position.column()), (1, 2));
    position.advance('!');
    assert_eq!((position.line(), position.column()), (1, 3));
    position.advance('9');
    assert_eq!((position.line(), position.column()), (1, 4));
    position.advance('\n');
    assert_eq!((position.line(), position.column()), (2, 1));
    position.advance('~');
    assert_eq!((position.line(), position.column()), (2, 2));
    position.advance('a');
    assert_eq!((position.line(), position.column()), (2, 3));
    position.advance('\n');
    assert_eq!((position.line(), position.column()), (3, 1));
    position.advance('A');
    assert_eq!((position.line(), position.column()), (3, 2));
    position.advance('\n');
    assert_eq!((position.line(), position.column()), (4, 1));
    position.advance('\n');
    assert_eq!((position.line(), position.column()), (5, 1));
}

#[test]
fn text_position_position() {
    let position = bootstrap_rs::text::Position::new(1, 2);

    assert_eq!(position.line(), 1);
    assert_eq!(position.column(), 2);
}

#[test]
fn text_position_mut_position() {
    let mut position = bootstrap_rs::text::Position::new(2, 1);

    assert_eq!(position.line(), 2);
    assert_eq!(position.column(), 1);

    position.set_line(8);

    assert_eq!(position.line(), 8);
    assert_eq!(position.column(), 1);

    position.set_column(4);

    assert_eq!(position.line(), 8);
    assert_eq!(position.column(), 4);
}

#[test]
fn text_position_advance_position() {
    let mut position = bootstrap_rs::text::Position::start();

    assert_eq!((position.line(), position.column()), (1, 1));
    position.advance(' ');
    assert_eq!((position.line(), position.column()), (1, 2));
    position.advance('!');
    assert_eq!((position.line(), position.column()), (1, 3));
    position.advance('\n');
    assert_eq!((position.line(), position.column()), (2, 1));
    position.advance('~');
    assert_eq!((position.line(), position.column()), (2, 2));
    position.advance('\n');
    assert_eq!((position.line(), position.column()), (3, 1));
}

#[test]
fn position_relative_move() {
    let mut position = bootstrap_rs::text::Position::new(10, 20);
    assert!(position.line() == 10 && position.column() == 20);

    position.relative_move(bootstrap_rs::text::Position::new(1, 1));
    assert!(position.line() == 10 && position.column() == 20);

    position.relative_move(bootstrap_rs::text::Position::new(1, 2));
    assert!(position.line() == 10 && position.column() == 21);

    position.relative_move(bootstrap_rs::text::Position::new(2, 1));
    assert!(position.line() == 11 && position.column() == 1);

    position.relative_move(bootstrap_rs::text::Position::new(3, 4));
    assert!(position.line() == 13 && position.column() == 4);
}
