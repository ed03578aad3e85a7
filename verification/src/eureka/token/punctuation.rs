use crate::eureka::chars::Chars;
use vstd::prelude::*;

verus! {

/// The punctuators of the language, each a single character.
#[derive(Clone, Copy, Debug, Eq, Hash, PartialEq, Structural)]
pub enum Punctuation {
    LeftParenthesis,
    RightParenthesis,
    LeftBrace,
    RightBrace,
}

/// The exact source text of a punctuator.
pub open spec fn spec_punctuation_text(p: Punctuation) -> Seq<char> {
    match p {
        Punctuation::LeftParenthesis => "("@,
        Punctuation::RightParenthesis => ")"@,
        Punctuation::LeftBrace => "{"@,
        Punctuation::RightBrace => "}"@,
    }
}

/// The punctuator a single character denotes, if any.
pub open spec fn spec_punctuation_of_char(c: char) -> Option<Punctuation> {
    if c == '(' {
        Some(Punctuation::LeftParenthesis)
    } else if c == ')' {
        Some(Punctuation::RightParenthesis)
    } else if c == '{' {
        Some(Punctuation::LeftBrace)
    } else if c == '}' {
        Some(Punctuation::RightBrace)
    } else {
        None
    }
}

impl Punctuation {
    /// Consumes one punctuator character from the stream, if the next
    /// character is one; otherwise consumes nothing.
    pub fn lex(chars: &mut Chars) -> (r: Option<Punctuation>)
        requires
            old(chars).wf(),
        ensures
            final(chars).wf(),
            match r {
                Some(p) => old(chars).text().len() > 0 && spec_punctuation_of_char(
                    old(chars).text()[0],
                ) == Some(p) && final(chars).text() == old(chars).text().drop_first()
                    && final(chars).advanced_over(*old(chars), seq![old(chars).text()[0]]),
                None => *final(chars) == *old(chars) && (old(chars).text().len() == 0
                    || spec_punctuation_of_char(old(chars).text()[0]) is None),
            },
    {
        let punctuation = match chars.peek() {
            Some('(') => Punctuation::LeftParenthesis,
            Some(')') => Punctuation::RightParenthesis,
            Some('{') => Punctuation::LeftBrace,
            Some('}') => Punctuation::RightBrace,
            _ => {
                return None;
            },
        };
        chars.pop();
        proof {
            crate::communication::position::lemma_stepped_str_one(
                old(chars).spec_position().spec_line() as int,
                old(chars).spec_position().spec_column() as int,
                old(chars).text()[0],
            );
        }
        Some(punctuation)
    }

    /// The exact source text this punctuator was lexed from.
    pub fn unlex(&self) -> (r: &'static str)
        ensures
            r@ == spec_punctuation_text(*self),
    {
        match self {
            Punctuation::LeftParenthesis => "(",
            Punctuation::RightParenthesis => ")",
            Punctuation::LeftBrace => "{",
            Punctuation::RightBrace => "}",
        }
    }
}

/// A punctuator's text is the single character it is lexed from.
pub proof fn lemma_punctuation_text(c: char, p: Punctuation)
    requires
        spec_punctuation_of_char(c) == Some(p),
    ensures
        spec_punctuation_text(p) == seq![c],
{
    reveal_strlit("(");
    reveal_strlit(")");
    reveal_strlit("{");
    reveal_strlit("}");
    assert(spec_punctuation_text(p) =~= seq![c]);
}

} // verus!
