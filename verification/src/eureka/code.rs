use crate::communication::position::{
    is_lexable_char, lemma_stepped_str_snoc, stepped, stepped_str,
};
use crate::communication::{Error, Position, PositionError, SpecError};
use vstd::prelude::*;
use vstd::string::StrSliceExecFns;

verus! {

/// The position of the first character outside the accepted set, if any.
pub open spec fn spec_first_unacceptable(s: Seq<char>) -> Option<int>
    decreases s.len(),
{
    if s.len() == 0 {
        None
    } else if !is_lexable_char(s[0]) {
        Some(0)
    } else {
        match spec_first_unacceptable(s.drop_first()) {
            None => None,
            Some(i) => Some(i + 1),
        }
    }
}

/// Where a prefix is accepted and the character after it is not, the first
/// unacceptable character is exactly there.
proof fn lemma_first_unacceptable_at(s: Seq<char>, i: int)
    requires
        0 <= i < s.len(),
        forall|j: int| 0 <= j < i ==> is_lexable_char(#[trigger] s[j]),
        !is_lexable_char(s[i]),
    ensures
        spec_first_unacceptable(s) == Some(i),
    decreases i,
{
    if i > 0 {
        assert forall|j: int| 0 <= j < i - 1 implies is_lexable_char(
            #[trigger] s.drop_first()[j],
        ) by {
            assert(s.drop_first()[j] == s[j + 1]);
        }
        assert(s.drop_first()[i - 1] == s[i]);
        lemma_first_unacceptable_at(s.drop_first(), i - 1);
    }
}

/// A fully accepted text has no first unacceptable character.
proof fn lemma_all_acceptable(s: Seq<char>)
    requires
        forall|j: int| 0 <= j < s.len() ==> is_lexable_char(#[trigger] s[j]),
    ensures
        spec_first_unacceptable(s) is None,
    decreases s.len(),
{
    if s.len() > 0 {
        assert forall|j: int| 0 <= j < s.drop_first().len() implies is_lexable_char(
            #[trigger] s.drop_first()[j],
        ) by {
            assert(s.drop_first()[j] == s[j + 1]);
        }
        lemma_all_acceptable(s.drop_first());
    }
}

/// The whole validated source, stored with a cursor for constant-time removal
/// from the front, plus the running position of the next character. Every
/// held character is printable ASCII or a newline.
#[derive(Clone, Debug, Eq, Hash)]
pub struct Code {
    chars: Vec<char>,
    index: usize,
    position: Position,
}

impl Code {
    /// The characters not yet consumed, in source order.
    pub closed spec fn text(&self) -> Seq<char> {
        let n = self.chars@.len() - self.index as int;
        Seq::new(
            if n >= 0 {
                n as nat
            } else {
                0
            },
            |i: int| self.chars@[self.index + i],
        )
    }

    /// The position of the next unconsumed character.
    pub closed spec fn spec_position(&self) -> Position {
        self.position
    }

    #[verifier::opaque]
    pub closed spec fn cursor_ok(&self) -> bool {
        self.index <= self.chars@.len() && self.chars@.len() <= usize::MAX
    }

    /// Every unconsumed character is accepted, and the position can step over
    /// all of them without leaving `usize`.
    pub open spec fn wf(&self) -> bool {
        &&& self.cursor_ok()
        &&& self.spec_position().wf()
        &&& forall|i: int|
            0 <= i < self.text().len() ==> is_lexable_char(#[trigger] self.text()[i])
        &&& self.spec_position().spec_line() + self.spec_position().spec_column()
            + self.text().len() <= usize::MAX
    }

    /// Validates the whole source up front. On the first rejected character
    /// the construction fails, with the position of exactly that character; on
    /// success the stream holds the whole source with its position reset to
    /// the start.
    pub fn try_new(src: &str) -> (r: Result<Code, PositionError>)
        requires
            src@.len() + 2 <= usize::MAX,
        ensures
            match spec_first_unacceptable(src@) {
                None => r matches Ok(code) && code.wf() && code.text() == src@
                    && code.spec_position().spec_line() == 1 && code.spec_position().spec_column()
                    == 1,
                Some(i) => r matches Err(pe) && pe.error@ == SpecError::UnexpectedChar(src@[i]) && (
                pe.position.spec_line() as int,
                pe.position.spec_column() as int,
                ) == stepped_str(1, 1, src@.take(i)),
            },
    {
        let mut chars: Vec<char> = Vec::new();
        let mut position = Position::start();
        let n = src.unicode_len();
        let mut i: usize = 0;
        while i < n
            invariant
                0 <= i <= n,
                n == src@.len(),
                n + 2 <= usize::MAX,
                chars@.len() == i as int,
                forall|j: int|
                    0 <= j < i ==> src@[j] == #[trigger] chars@[j] && is_lexable_char(src@[j]),
                position.wf(),
                (position.spec_line() as int, position.spec_column() as int) == stepped_str(
                    1,
                    1,
                    src@.take(i as int),
                ),
                position.spec_line() + position.spec_column() <= 2 + i,
            decreases n - i,
        {
            let c = src.get_char(i);
            if (' ' <= c && c <= '~') || c == '\n' {
                proof {
                    lemma_stepped_str_snoc(1, 1, src@, i as int);
                }
                chars.push(c);
                position.advance(c);
            } else {
                proof {
                    assert forall|j: int| 0 <= j < i implies is_lexable_char(
                        #[trigger] src@[j],
                    ) by {
                        assert(src@[j] == chars@[j]);
                    }
                    lemma_first_unacceptable_at(src@, i as int);
                }
                return Err(PositionError::new(position, Error::UnexpectedChar(c)));
            }
            i += 1;
        }
        proof {
            assert(src@.take(n as int) =~= src@);
            assert forall|j: int| 0 <= j < src@.len() implies is_lexable_char(
                #[trigger] src@[j],
            ) by {
                assert(src@[j] == chars@[j]);
            }
            lemma_all_acceptable(src@);
        }
        let r = Code { chars, index: 0, position: Position::start() };
        proof {
            reveal(Code::cursor_ok);
            assert(r.text() =~= src@);
        }
        Ok(r)
    }

    /// The next unconsumed character, or `None` at the end of the source.
    pub fn peek(&self) -> (r: Option<char>)
        requires
            self.wf(),
        ensures
            r == if self.text().len() > 0 {
                Some(self.text()[0])
            } else {
                None::<char>
            },
    {
        proof {
            reveal(Code::cursor_ok);
        }
        if self.index < self.chars.len() {
            Some(self.chars[self.index])
        } else {
            None
        }
    }

    /// Removes and returns the next character, stepping the position over it.
    pub fn pop(&mut self) -> (r: Option<char>)
        requires
            old(self).wf(),
        ensures
            final(self).wf(),
            match r {
                Some(c) => old(self).text().len() > 0 && c == old(self).text()[0]
                    && final(self).text() == old(self).text().drop_first() && (
                final(self).spec_position().spec_line() as int,
                final(self).spec_position().spec_column() as int,
                ) == stepped(
                    old(self).spec_position().spec_line() as int,
                    old(self).spec_position().spec_column() as int,
                    c,
                ),
                None => old(self).text().len() == 0 && *final(self) == *old(self),
            },
    {
        proof {
            reveal(Code::cursor_ok);
        }
        if self.index < self.chars.len() {
            let c = self.chars[self.index];
            proof {
                assert(old(self).text()[0] == c);
                assert(is_lexable_char(old(self).text()[0]));
            }
            self.position.advance(c);
            self.index += 1;
            proof {
                assert(self.text() =~= old(self).text().drop_first());
                assert forall|k: int| 0 <= k < self.text().len() implies is_lexable_char(
                    #[trigger] self.text()[k],
                ) by {
                    assert(self.text()[k] == old(self).text()[k + 1]);
                }
            }
            Some(c)
        } else {
            None
        }
    }

    /// The position of the next unconsumed character.
    pub fn position(&self) -> (r: Position)
        ensures
            r == self.spec_position(),
    {
        self.position
    }

    /// Validates the whole source, which must hold no rejected character.
    pub fn new(src: &str) -> (r: Code)
        requires
            src@.len() + 2 <= usize::MAX,
            spec_first_unacceptable(src@) is None,
        ensures
            r.wf(),
            r.text() == src@,
            r.spec_position().spec_line() == 1,
            r.spec_position().spec_column() == 1,
    {
        Code::try_new(src).unwrap()
    }
}

impl PartialEq for Code {
    fn eq(&self, other: &Code) -> (r: bool) {
        proof {
            reveal(Code::cursor_ok);
        }
        if !(self.position == other.position) {
            return false;
        }
        let n1 = if self.index <= self.chars.len() {
            self.chars.len() - self.index
        } else {
            0
        };
        let n2 = if other.index <= other.chars.len() {
            other.chars.len() - other.index
        } else {
            0
        };
        if n1 != n2 {
            proof {
                assert(self.text().len() != other.text().len());
            }
            return false;
        }
        let mut i: usize = 0;
        while i < n1
            invariant
                0 <= i <= n1,
                n1 == self.text().len(),
                n2 == other.text().len(),
                n1 == n2,
                self.chars@.len() <= usize::MAX,
                other.chars@.len() <= usize::MAX,
                n1 > 0 ==> self.index as int + n1 as int <= self.chars@.len(),
                n2 > 0 ==> other.index as int + n2 as int <= other.chars@.len(),
                forall|j: int| 0 <= j < i ==> self.text()[j] == other.text()[j],
            decreases n1 - i,
        {
            if self.chars[self.index + i] != other.chars[other.index + i] {
                proof {
                    assert(self.text()[i as int] != other.text()[i as int]);
                }
                return false;
            }
            i += 1;
        }
        proof {
            assert(self.text() =~= other.text());
        }
        true
    }
}

impl vstd::std_specs::cmp::PartialEqSpecImpl for Code {
    open spec fn obeys_eq_spec() -> bool {
        true
    }

    open spec fn eq_spec(&self, other: &Code) -> bool {
        self.text() == other.text() && self.spec_position() == other.spec_position()
    }
}

} // verus!
