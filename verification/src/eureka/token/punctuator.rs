use crate::eureka::chars::Chars;
use crate::eureka::token::punctuation::Punctuation;
use crate::eureka::token::Token;
use vstd::prelude::*;

verus! {

/// The punctuators of the language, each a single character.
#[derive(Clone, Copy, Debug, Eq, Hash, PartialEq, Structural)]
pub enum Punctuator {
    LeftParenthesis,
    RightParenthesis,
    LeftBrace,
    RightBrace,
}

/// The exact source text of a punctuator.
pub open spec fn spec_punctuator_text(p: Punctuator) -> Seq<char> {
    match p {
        Punctuator::LeftParenthesis => "("@,
        Punctuator::RightParenthesis => ")"@,
        Punctuator::LeftBrace => "{"@,
        Punctuator::RightBrace => "}"@,
    }
}

/// The punctuator a single character denotes, if any.
pub open spec fn spec_punctuator_of_char(c: char) -> Option<Punctuator> {
    if c == '(' {
        Some(Punctuator::LeftParenthesis)
    } else if c == ')' {
        Some(Punctuator::RightParenthesis)
    } else if c == '{' {
        Some(Punctuator::LeftBrace)
    } else if c == '}' {
        Some(Punctuator::RightBrace)
    } else {
        None
    }
}

/// The token-level punctuation a punctuator stands for.
pub open spec fn spec_punctuator_punctuation(p: Punctuator) -> Punctuation {
    match p {
        Punctuator::LeftParenthesis => Punctuation::LeftParenthesis,
        Punctuator::RightParenthesis => Punctuation::RightParenthesis,
        Punctuator::LeftBrace => Punctuation::LeftBrace,
        Punctuator::RightBrace => Punctuation::RightBrace,
    }
}

impl Punctuator {
    /// Consumes one punctuator character from the stream, if the next
    /// character is one; otherwise consumes nothing.
    pub fn lex(chars: &mut Chars) -> (r: Option<Punctuator>)
        requires
            old(chars).wf(),
        ensures
            final(chars).wf(),
            match r {
                Some(p) => old(chars).text().len() > 0 && spec_punctuator_of_char(
                    old(chars).text()[0],
                ) == Some(p) && final(chars).text() == old(chars).text().drop_first()
                    && final(chars).advanced_over(*old(chars), seq![old(chars).text()[0]]),
                None => *final(chars) == *old(chars) && (old(chars).text().len() == 0
                    || spec_punctuator_of_char(old(chars).text()[0]) is None),
            },
    {
        let punctuator = match chars.peek() {
            Some('(') => Punctuator::LeftParenthesis,
            Some(')') => Punctuator::RightParenthesis,
            Some('{') => Punctuator::LeftBrace,
            Some('}') => Punctuator::RightBrace,
            _ => {
                return None;
            },
        };
        chars.pop();
        proof {
            crate::communication::position::lemma_stepped_str_one(
                old(chars).spec_position().spec_line() as int,
                old(chars).spec_position().spec_column() as int,
                old(chars).text()[0],
            );
        }
        Some(punctuator)
    }

    /// The exact source text this punctuator was lexed from.
    pub fn unlex(&self) -> (r: &'static str)
        ensures
            r@ == spec_punctuator_text(*self),
    {
        match self {
            Punctuator::LeftParenthesis => "(",
            Punctuator::RightParenthesis => ")",
            Punctuator::LeftBrace => "{",
            Punctuator::RightBrace => "}",
        }
    }
}

impl From<Punctuator> for Token {
    fn from(value: Punctuator) -> (r: Token) {
        Token::Punctuation(
            match value {
                Punctuator::LeftParenthesis => Punctuation::LeftParenthesis,
                Punctuator::RightParenthesis => Punctuation::RightParenthesis,
                Punctuator::LeftBrace => Punctuation::LeftBrace,
                Punctuator::RightBrace => Punctuation::RightBrace,
            },
        )
    }
}

impl vstd::std_specs::convert::FromSpecImpl<Punctuator> for Token {
    open spec fn obeys_from_spec() -> bool {
        true
    }

    open spec fn from_spec(value: Punctuator) -> Token {
        Token::Punctuation(spec_punctuator_punctuation(value))
    }
}

} // verus!
