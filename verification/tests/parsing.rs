use bootstrap_rs::communication::{Error, Position};
use bootstrap_rs::eureka::syntax_tree::parse::{expected, optional, required};
use bootstrap_rs::eureka::syntax_tree::{
    zero_or_more, Definition, FunctionDefinition, Module, PaddedDefinition,
};
use bootstrap_rs::eureka::{Identifier, Keyword, Padding, Punctuator, Token, Tokens};

#[test]
fn test_zero_or_more_parse_function_definition_zero() {
    let mut tokens = Tokens::new("");

    let actual = zero_or_more(&mut tokens);
    let expected: Vec<FunctionDefinition> = Vec::new();

    assert_eq!(expected, actual.unwrap());
}

#[test]
fn test_zero_or_more_parse_function_definition_one() {
    let mut tokens = Tokens::new("fn main() {}");

    let actual = zero_or_more(&mut tokens);
    let expected: Vec<FunctionDefinition> = vec![FunctionDefinition {
        pre_identifier_padding: Padding::new(" "),
        identifier: Identifier::new("main"),
        pre_parenthesis_padding: None,
        pre_brace_padding: Some(Padding::new(" ")),
    }];

    assert_eq!(expected, actual.unwrap());
}

#[test]
fn test_zero_or_more_parse_function_definition_two() {
    let mut tokens = Tokens::new("fn a(){}fn b(){}");

    let actual = zero_or_more(&mut tokens);
    let expected: Vec<FunctionDefinition> = vec![
        FunctionDefinition {
            pre_identifier_padding: Padding::new(" "),
            identifier: Identifier::new("a"),
            pre_parenthesis_padding: None,
            pre_brace_padding: None,
        },
        FunctionDefinition {
            pre_identifier_padding: Padding::new(" "),
            identifier: Identifier::new("b"),
            pre_parenthesis_padding: None,
            pre_brace_padding: None,
        },
    ];

    assert_eq!(expected, actual.unwrap());
}

#[test]
fn test_zero_or_more_parse_function_definition_err() {
    let mut tokens = Tokens::new("fn main( {}");
    assert_eq!(tokens.position(), Position::new(1, 1));
    assert!(zero_or_more(&mut tokens).is_err());
    assert_eq!(tokens.position(), Position::new(1, 9));
}

#[test]
fn function_definition_parse_success() {
    let mut tokens = Tokens::new("fn main() {}");
    let actual_function_definition = FunctionDefinition::parse(&mut tokens).unwrap().unwrap();
    let expected_function_definition = FunctionDefinition {
        pre_identifier_padding: Padding::new(" "),
        identifier: Identifier::new("main"),
        pre_parenthesis_padding: None,
        pre_brace_padding: Some(Padding::new(" ")),
    };
    assert_eq!(expected_function_definition, actual_function_definition);
}

#[test]
fn function_definition_parse_none() {
    let mut tokens = Tokens::new("return x");
    assert_eq!(Ok(None), FunctionDefinition::parse(&mut tokens));
}

#[test]
fn function_definition_parse_err() {
    let mut tokens = Tokens::new("fn main( {}");
    assert_eq!(tokens.position(), Position::new(1, 1));
    assert!(FunctionDefinition::parse(&mut tokens).is_err());
    assert_eq!(tokens.position(), Position::new(1, 9));
}

#[test]
fn module_parse_empty() {
    let mut tokens = Tokens::new("");

    let actual = Module::parse(&mut tokens).unwrap();
    let expected = Module {
        pre_definitions_padding: None,
        definitions: Vec::new(),
    };

    assert_eq!(expected, actual);
}

#[test]
fn module_parse_success() {
    let mut tokens = Tokens::new("fn main() {}");

    let actual = Module::parse(&mut tokens).unwrap();
    let expected = Module {
        pre_definitions_padding: None,
        definitions: vec![PaddedDefinition {
            definition: Definition::Function(FunctionDefinition {
                pre_identifier_padding: Padding::new(" "),
                identifier: Identifier::new("main"),
                pre_parenthesis_padding: None,
                pre_brace_padding: Some(Padding::new(" ")),
            }),
            post_definition_padding: None,
        }],
    };

    assert_eq!(expected, actual);
}

#[test]
fn module_parse_err() {
    let mut tokens = Tokens::new("fn main() {}return");

    let actual = Module::parse(&mut tokens).unwrap_err();
    let expected = Error::UnexpectedToken(Keyword::Return.into());

    assert_eq!(expected, actual);
}

#[test]
fn test_optional_padding() {
    let mut tokens = Tokens::new(" fn");

    assert_eq!(tokens.peek(), Some(Token::Padding(Padding::new(" "))));

    let padding1 = optional::<Padding>(&mut tokens);

    assert_eq!(padding1, Some(Padding::new(" ")));
    assert_eq!(tokens.peek(), Some(Token::Keyword(Keyword::Fn)));

    let padding2 = optional::<Padding>(&mut tokens);

    assert_eq!(padding2, None);
    assert_eq!(tokens.peek(), Some(Token::Keyword(Keyword::Fn)));
}

#[test]
fn test_required_padding() {
    let mut tokens = Tokens::new(" fn");

    assert_eq!(tokens.peek(), Some(Token::Padding(Padding::new(" "))));

    let padding1 = required::<Padding>(&mut tokens);

    assert_eq!(padding1, Ok(Padding::new(" ")));
    assert_eq!(tokens.peek(), Some(Token::Keyword(Keyword::Fn)));

    let padding2 = required::<Padding>(&mut tokens);

    assert_eq!(padding2, Err(Error::Missing("padding")));
    assert_eq!(tokens.peek(), Some(Token::Keyword(Keyword::Fn)));
}

#[test]
fn test_expected() {
    let mut tokens = Tokens::new("fn(value");
    assert_eq!(tokens.peek(), Some(Keyword::Fn.into()));

    assert_eq!(
        Err(Error::MissingToken(Keyword::Return.into())),
        expected(&mut tokens, Keyword::Return),
    );
    assert_eq!(tokens.peek(), Some(Keyword::Fn.into()));

    assert_eq!(
        Err(Error::MissingToken(Identifier::new("value").into())),
        expected(&mut tokens, Identifier::new("value")),
    );
    assert_eq!(tokens.peek(), Some(Keyword::Fn.into()));

    assert_eq!(Ok(()), expected(&mut tokens, Keyword::Fn));
    assert_eq!(tokens.peek(), Some(Punctuator::LeftParenthesis.into()));

    assert_eq!(Ok(()), expected(&mut tokens, Punctuator::LeftParenthesis));
    assert_eq!(tokens.peek(), Some(Identifier::new("value").into()));

    assert_eq!(Ok(()), expected(&mut tokens, Identifier::new("value")));
    assert_eq!(tokens.peek(), None);

    assert_eq!(
        Err(Error::MissingToken(Punctuator::RightParenthesis.into())),
        expected(&mut tokens, Punctuator::RightParenthesis),
    );
    assert_eq!(tokens.peek(), None);
}

#[test]
fn parse_some() {
    let mut tokens = Tokens::new("fn main() {}");
    let actual_function_definition =
        bootstrap_rs::eureka::tree::FunctionDefinition::parse(&mut tokens)
            .unwrap()
            .unwrap();
    let expected_function_definition = bootstrap_rs::eureka::tree::FunctionDefinition {
        pre_identifier_padding: Padding::new(" "),
        identifier: Identifier::new("main"),
        pre_parenthesis_padding: None,
        pre_brace_padding: Some(Padding::new(" ")),
    };
    assert_eq!(expected_function_definition, actual_function_definition);
}

#[test]
fn tree_function_definition_parse_none() {
    let mut tokens = Tokens::new("return (x)");
    assert_eq!(
        Ok(None),
        bootstrap_rs::eureka::tree::FunctionDefinition::parse(&mut tokens)
    );
}

#[test]
fn function_definition_parse_error() {
    let mut tokens = Tokens::new("fn main( {}");
    assert_eq!(tokens.position(), Position::new(1, 1));
    assert!(bootstrap_rs::eureka::tree::FunctionDefinition::parse(&mut tokens).is_err());
    assert_eq!(tokens.position(), Position::new(1, 9));
}

#[test]
fn tree_module_parse_empty() {
    let mut tokens = Tokens::new("");

    let actual = bootstrap_rs::eureka::tree::Module::parse(&mut tokens).unwrap();
    let expected = bootstrap_rs::eureka::tree::Module {
        definitions: Vec::new(),
        post_definitions_padding: None,
    };

    assert_eq!(expected, actual);
}

#[test]
fn module_parse_error() {
    let mut tokens = Tokens::new("fn main() {}return");

    let actual = bootstrap_rs::eureka::tree::Module::parse(&mut tokens).unwrap_err();
    let expected = Error::UnexpectedToken(Keyword::Return.into());

    assert_eq!(expected, actual);
}
