use crate::communication::position::is_lexable_char;
use crate::communication::{Error, SpecError};
use crate::language::chars::SourceChar;
use vstd::prelude::*;

verus! {

/// A character of this language's source text: printable ASCII or a newline.
/// Only accepted characters can exist behind this type.
#[derive(Clone, Copy, Debug, Eq, Hash, Ord, PartialEq, PartialOrd)]
pub struct Char {
    value: char,
}

impl SourceChar for Char {
    closed spec fn spec_accept(c: char) -> Option<Char> {
        if is_lexable_char(c) {
            Some(Char { value: c })
        } else {
            None
        }
    }

    closed spec fn spec_char(self) -> char {
        self.value
    }

    proof fn lemma_accept(c: char) {
    }

    fn try_from_char(c: char) -> (r: Result<Char, Error>) {
        if (' ' <= c && c <= '~') || c == '\n' {
            Ok(Char { value: c })
        } else {
            Err(Error::UnexpectedChar(c))
        }
    }

    fn to_char(self) -> (r: char) {
        self.value
    }
}

/// This language accepts exactly the printable ASCII characters and the
/// newline, and an accepted value stands for the character it came from.
pub proof fn lemma_char_accept(c: char)
    ensures
        (Char::spec_accept(c) is Some) == is_lexable_char(c),
        Char::spec_accept(c) matches Some(v) ==> v.spec_char() == c,
{
}

} // verus!
