use crate::communication::position::{is_lexable_char, stepped, stepped_str};
use crate::communication::{Error, Position, PositionError, SpecError};
use vstd::prelude::*;

verus! {

/// A character class a stream can hold: which raw characters are accepted,
/// and the character each accepted value stands for.
pub trait SourceChar: Sized + Copy {
    /// The value a raw character validates to, or `None` where the character
    /// is rejected.
    spec fn spec_accept(c: char) -> Option<Self>;

    /// The character this value stands for.
    spec fn spec_char(self) -> char;

    /// An accepted value stands for exactly the character it came from, and
    /// only characters a position can step over are accepted.
    proof fn lemma_accept(c: char)
        ensures
            Self::spec_accept(c) matches Some(v) ==> v.spec_char() == c && is_lexable_char(c),
    ;

    fn try_from_char(c: char) -> (r: Result<Self, Error>)
        ensures
            match Self::spec_accept(c) {
                Some(v) => r == Ok::<Self, Error>(v),
                None => r matches Err(e) && e@ == SpecError::UnexpectedChar(c),
            },
    ;

    fn to_char(self) -> (r: char)
        ensures
            r == self.spec_char(),
    ;
}

/// The position of the first rejected character of a text, if any.
pub open spec fn spec_first_rejected<C: SourceChar>(s: Seq<char>) -> Option<int>
    decreases s.len(),
{
    if s.len() == 0 {
        None
    } else if C::spec_accept(s[0]) is None {
        Some(0)
    } else {
        match spec_first_rejected::<C>(s.drop_first()) {
            None => None,
            Some(i) => Some(i + 1),
        }
    }
}

/// How many leading characters of a text satisfy a predicate: the length of
/// the maximal prefix a `take_while` consumes.
pub open spec fn munch_len(s: Seq<char>, p: spec_fn(char) -> bool) -> nat
    decreases s.len(),
{
    if s.len() == 0 || !p(s[0]) {
        0
    } else {
        1 + munch_len(s.drop_first(), p)
    }
}

/// The maximal prefix satisfying a predicate: no longer than the text, made of
/// satisfying characters only, and not extendable by the character after it.
pub proof fn lemma_munch_len(s: Seq<char>, p: spec_fn(char) -> bool)
    ensures
        munch_len(s, p) <= s.len(),
        forall|i: int| 0 <= i < munch_len(s, p) ==> p(#[trigger] s[i]),
        munch_len(s, p) < s.len() ==> !p(s[munch_len(s, p) as int]),
    decreases s.len(),
{
    if s.len() > 0 && p(s[0]) {
        lemma_munch_len(s.drop_first(), p);
        assert(forall|i: int|
            0 <= i < munch_len(s, p) ==> p(#[trigger] s[i])) by {
            assert forall|i: int| 0 <= i < munch_len(s, p) implies p(#[trigger] s[i]) by {
                if i > 0 {
                    assert(s[i] == s.drop_first()[i - 1]);
                }
            }
        }
        if munch_len(s, p) < s.len() {
            assert(s[munch_len(s, p) as int] == s.drop_first()[munch_len(s.drop_first(), p) as int]);
        }
    }
}

/// The maximal prefix is determined: a prefix of satisfying characters that
/// the next character (if any) cannot extend is exactly the munch.
pub proof fn lemma_munch_len_is(s: Seq<char>, p: spec_fn(char) -> bool, k: int)
    requires
        0 <= k <= s.len(),
        forall|i: int| 0 <= i < k ==> p(#[trigger] s[i]),
        k < s.len() ==> !p(s[k]),
    ensures
        munch_len(s, p) == k,
    decreases s.len(),
{
    if k == 0 {
    } else {
        let t = s.drop_first();
        assert forall|i: int| 0 <= i < k - 1 implies p(#[trigger] t[i]) by {
            assert(t[i] == s[i + 1]);
        }
        if k - 1 < t.len() {
            assert(t[k - 1] == s[k]);
        }
        lemma_munch_len_is(t, p, k - 1);
    }
}

/// A rejection-free text: every character of it is accepted.
pub proof fn lemma_no_rejection<C: SourceChar>(s: Seq<char>)
    requires
        spec_first_rejected::<C>(s) is None,
    ensures
        forall|i: int| 0 <= i < s.len() ==> C::spec_accept(#[trigger] s[i]) is Some,
    decreases s.len(),
{
    if s.len() > 0 {
        lemma_no_rejection::<C>(s.drop_first());
        assert forall|i: int| 0 <= i < s.len() implies C::spec_accept(#[trigger] s[i]) is Some by {
            if i > 0 {
                assert(s[i] == s.drop_first()[i - 1]);
            }
        }
    }
}

/// Relies on String::push: appends exactly the one character to the string.
#[verifier::external_body]
pub(crate) fn push_char(s: &mut String, c: char)
    ensures
        final(s)@ == old(s)@.push(c),
{
    s.push(c);
}

/// The whole validated input, stored with a cursor for constant-time removal
/// from the front, plus the running position of the next character.
#[derive(Debug)]
pub struct Chars<C: SourceChar> {
    values: Vec<C>,
    index: usize,
    position: Position,
}

impl<C: SourceChar> Chars<C> {
    /// The characters not yet consumed, in source order.
    pub closed spec fn text(&self) -> Seq<char> {
        let n = self.values@.len() - self.index as int;
        Seq::new(
            if n >= 0 {
                n as nat
            } else {
                0
            },
            |i: int| self.values@[self.index + i].spec_char(),
        )
    }

    /// The position of the next unconsumed character.
    pub closed spec fn spec_position(&self) -> Position {
        self.position
    }

    #[verifier::opaque]
    pub closed spec fn cursor_ok(&self) -> bool {
        self.index <= self.values@.len() && self.values@.len() <= usize::MAX
    }

    /// Every unconsumed character is accepted, and the position can step over
    /// all of them without leaving `usize`.
    pub open spec fn wf(&self) -> bool {
        &&& self.cursor_ok()
        &&& self.spec_position().wf()
        &&& forall|i: int|
            0 <= i < self.text().len() ==> is_lexable_char(#[trigger] self.text()[i])
        &&& self.spec_position().spec_line() + self.spec_position().spec_column()
            + self.text().len() <= usize::MAX
    }

    /// Validates the whole input up front. On the first rejected character the
    /// construction fails, with the position of exactly that character; on
    /// success the stream holds the whole input with its position reset to the
    /// start.
    pub fn try_new(src: &str) -> (r: Result<Self, PositionError>)
        requires
            src@.len() + 2 <= usize::MAX,
        ensures
            match spec_first_rejected::<C>(src@) {
                None => r matches Ok(chars) && chars.wf() && chars.text() == src@
                    && chars.spec_position().spec_line() == 1 && chars.spec_position().spec_column()
                    == 1,
                Some(i) => r matches Err(pe) && pe.error@ == SpecError::UnexpectedChar(src@[i]) && (
                pe.position.spec_line() as int,
                pe.position.spec_column() as int,
                ) == stepped_str(1, 1, src@.take(i)),
            },
    {
        let mut values: Vec<C> = Vec::new();
        let mut position = Position::start();
        let n = src.unicode_len();
        let mut i: usize = 0;
        while i < n
            invariant
                0 <= i <= n,
                n == src@.len(),
                n + 2 <= usize::MAX,
                values@.len() == i as int,
                forall|j: int| 0 <= j < i ==> C::spec_accept(src@[j]) == Some(#[trigger] values@[j]),
                position.wf(),
                (position.spec_line() as int, position.spec_column() as int) == stepped_str(
                    1,
                    1,
                    src@.take(i as int),
                ),
                position.spec_line() + position.spec_column() <= 2 + i,
            decreases n - i,
        {
            let c = src.get_char(i);
            match C::try_from_char(c) {
                Ok(v) => {
                    proof {
                        C::lemma_accept(c);
                        crate::communication::position::lemma_stepped_str_snoc(
                            1,
                            1,
                            src@,
                            i as int,
                        );
                    }
                    position.advance(v.to_char());
                    values.push(v);
                },
                Err(e) => {
                    proof {
                        assert forall|j: int| 0 <= j < i implies C::spec_accept(
                            #[trigger] src@[j],
                        ) is Some by {
                            assert(C::spec_accept(src@[j]) == Some(values@[j]));
                        }
                        lemma_first_rejected_at::<C>(src@, i as int);
                    }
                    return Err(PositionError::new(position, e));
                },
            }
            i += 1;
        }
        proof {
            assert(src@.take(n as int) =~= src@);
            lemma_all_accepted::<C>(src@, values@);
        }
        let r = Chars { values, index: 0, position: Position::start() };
        proof {
            reveal(Chars::cursor_ok);
            assert forall|k: int| 0 <= k < src@.len() implies r.text()[k] == src@[k]
                && is_lexable_char(#[trigger] src@[k]) by {
                assert(C::spec_accept(src@[k]) == Some(values@[k]));
                C::lemma_accept(src@[k]);
            }
            assert(r.text() =~= src@);
        }
        Ok(r)
    }

    /// The next unconsumed character, or `None` at the end of the input.
    pub fn peek(&self) -> (r: Option<char>)
        requires
            self.wf(),
        ensures
            r == if self.text().len() > 0 {
                Some(self.text()[0])
            } else {
                None::<char>
            },
    {
        proof {
            reveal(Chars::cursor_ok);
        }
        if self.index < self.values.len() {
            Some(self.values[self.index].to_char())
        } else {
            None
        }
    }

    /// The character after the next one, where at least two remain.
    pub fn peek2(&self) -> (r: Option<char>)
        requires
            self.wf(),
        ensures
            r == if self.text().len() > 1 {
                Some(self.text()[1])
            } else {
                None::<char>
            },
    {
        proof {
            reveal(Chars::cursor_ok);
            assert(self.text().len() == self.values@.len() - self.index as int);
        }
        if self.index < usize::MAX && self.index + 1 < self.values.len() {
            proof {
                assert(self.text()[1] == self.values@[self.index as int + 1].spec_char());
            }
            Some(self.values[self.index + 1].to_char())
        } else {
            None
        }
    }

    /// Removes and returns the next character, stepping the position over it.
    pub fn pop(&mut self) -> (r: Option<char>)
        requires
            old(self).wf(),
        ensures
            final(self).wf(),
            match r {
                Some(c) => old(self).text().len() > 0 && c == old(self).text()[0]
                    && final(self).text() == old(self).text().drop_first()
                    && final(self).stepped_from(*old(self), c),
                None => old(self).text().len() == 0 && *final(self) == *old(self),
            },
    {
        proof {
            reveal(Chars::cursor_ok);
        }
        if self.index < self.values.len() {
            let c = self.values[self.index].to_char();
            proof {
                assert(old(self).text()[0] == c);
                assert(is_lexable_char(old(self).text()[0]));
            }
            self.position.advance(c);
            self.index += 1;
            proof {
                assert(self.text() =~= old(self).text().drop_first());
                assert forall|k: int| 0 <= k < self.text().len() implies is_lexable_char(
                    #[trigger] self.text()[k],
                ) by {
                    assert(self.text()[k] == old(self).text()[k + 1]);
                }
            }
            Some(c)
        } else {
            None
        }
    }

    /// The position of the next unconsumed character.
    pub fn position(&self) -> (r: Position)
        ensures
            r == self.spec_position(),
    {
        self.position
    }

    /// The stream's position has stepped from `from`'s over exactly one
    /// character.
    pub open spec fn stepped_from(&self, from: Self, c: char) -> bool {
        (self.spec_position().spec_line() as int, self.spec_position().spec_column() as int)
            == stepped(
            from.spec_position().spec_line() as int,
            from.spec_position().spec_column() as int,
            c,
        )
    }

    /// The stream's position has stepped from `from`'s over exactly the
    /// consumed text.
    pub open spec fn advanced_over(&self, from: Self, consumed: Seq<char>) -> bool {
        (self.spec_position().spec_line() as int, self.spec_position().spec_column() as int)
            == stepped_str(
            from.spec_position().spec_line() as int,
            from.spec_position().spec_column() as int,
            consumed,
        )
    }

    /// Validates the whole input up front, which must be free of rejected
    /// characters.
    pub fn new(src: &str) -> (r: Self)
        requires
            src@.len() + 2 <= usize::MAX,
            spec_first_rejected::<C>(src@) is None,
        ensures
            r.wf(),
            r.text() == src@,
            r.spec_position().spec_line() == 1,
            r.spec_position().spec_column() == 1,
    {
        Self::try_new(src).unwrap()
    }

    /// Consumes exactly one character where it satisfies the predicate,
    /// appending it to the buffer; otherwise consumes nothing and reports the
    /// character (or the end of input) that did not satisfy it.
    pub fn take<F: Fn(char) -> bool>(
        &mut self,
        predicate: F,
        buffer: &mut String,
        Ghost(p): Ghost<spec_fn(char) -> bool>,
    ) -> (r: Result<(), Error>)
        requires
            old(self).wf(),
            forall|c: char| #[trigger] call_requires(predicate, (c,)),
            forall|c: char, b: bool| call_ensures(predicate, (c,), b) ==> b == p(c),
        ensures
            final(self).wf(),
            match r {
                Ok(_) => old(self).text().len() > 0 && p(old(self).text()[0])
                    && final(self).text() == old(self).text().drop_first()
                    && final(buffer)@ == old(buffer)@.push(old(self).text()[0])
                    && final(self).advanced_over(*old(self), old(self).text().take(1)),
                Err(e) => *final(self) == *old(self) && *final(buffer) == *old(buffer)
                    && (old(self).text().len() > 0 ==> !p(old(self).text()[0]))
                    && e@ == if old(self).text().len() == 0 {
                    SpecError::UnexpectedEndOfFile
                } else {
                    SpecError::UnexpectedChar(old(self).text()[0])
                },
            },
    {
        if let Some(c) = self.peek() {
            if predicate(c) {
                let c2 = self.pop().unwrap();
                push_char(buffer, c2);
                proof {
                    crate::communication::position::lemma_stepped_str_one(
                        old(self).spec_position().spec_line() as int,
                        old(self).spec_position().spec_column() as int,
                        c,
                    );
                    assert(old(self).text().take(1) =~= seq![old(self).text()[0]]);
                }
                Ok(())
            } else {
                Err(Error::UnexpectedChar(c))
            }
        } else {
            Err(Error::UnexpectedEndOfFile)
        }
    }

    /// As `take`, but reports by a flag alone whether a character was
    /// consumed.
    pub fn try_take<F: Fn(char) -> bool>(
        &mut self,
        predicate: F,
        buffer: &mut String,
        Ghost(p): Ghost<spec_fn(char) -> bool>,
    ) -> (r: bool)
        requires
            old(self).wf(),
            forall|c: char| #[trigger] call_requires(predicate, (c,)),
            forall|c: char, b: bool| call_ensures(predicate, (c,), b) ==> b == p(c),
        ensures
            final(self).wf(),
            r == (old(self).text().len() > 0 && p(old(self).text()[0])),
            r ==> final(self).text() == old(self).text().drop_first() && final(buffer)@ == old(
                buffer,
            )@.push(old(self).text()[0]) && final(self).advanced_over(
                *old(self),
                old(self).text().take(1),
            ),
            !r ==> *final(self) == *old(self) && *final(buffer) == *old(buffer),
    {
        self.take(predicate, buffer, Ghost(p)).is_ok()
    }

    /// Consumes the maximal run of characters satisfying the predicate,
    /// appending them to the buffer in order; never fails.
    pub fn take_while<F: Fn(char) -> bool>(
        &mut self,
        predicate: F,
        buffer: &mut String,
        Ghost(p): Ghost<spec_fn(char) -> bool>,
    )
        requires
            old(self).wf(),
            forall|c: char| #[trigger] call_requires(predicate, (c,)),
            forall|c: char, b: bool| call_ensures(predicate, (c,), b) ==> b == p(c),
        ensures
            final(self).wf(),
            final(self).text() == old(self).text().skip(munch_len(old(self).text(), p) as int),
            final(buffer)@ == old(buffer)@ + old(self).text().take(
                munch_len(old(self).text(), p) as int,
            ),
            final(self).advanced_over(
                *old(self),
                old(self).text().take(munch_len(old(self).text(), p) as int),
            ),
    {
        let ghost s0 = old(self).text();
        let ghost m = munch_len(s0, p) as int;
        let ghost mut j: int = 0;
        proof {
            lemma_munch_len(s0, p);
            assert(s0.take(0) =~= Seq::<char>::empty());
            assert(s0.skip(0) =~= s0);
        }
        loop
            invariant
                self.wf(),
                0 <= j <= m <= s0.len(),
                munch_len(s0, p) == m,
                forall|i: int| 0 <= i < m ==> p(#[trigger] s0[i]),
                m < s0.len() ==> !p(s0[m]),
                self.text() == s0.skip(j),
                buffer@ == old(buffer)@ + s0.take(j),
                self.advanced_over(*old(self), s0.take(j)),
                forall|c: char| #[trigger] call_requires(predicate, (c,)),
                forall|c: char, b: bool| call_ensures(predicate, (c,), b) ==> b == p(c),
            ensures
                self.wf(),
                self.text() == s0.skip(m),
                buffer@ == old(buffer)@ + s0.take(m),
                self.advanced_over(*old(self), s0.take(m)),
            decreases s0.len() - j,
        {
            let next = self.peek();
            let cont = match next {
                Some(c) => predicate(c),
                None => false,
            };
            proof {
                if j < m {
                    assert(self.text()[0] == s0[j]);
                }
            }
            if !cont {
                proof {
                    if j < m {
                        assert(p(s0[j]));
                        assert(false);
                    }
                    assert(j == m);
                }
                break ;
            }
            proof {
                if j >= m {
                    assert(self.text().len() > 0);
                    assert(self.text()[0] == s0[j]);
                    assert(j < s0.len());
                    assert(j == m ==> !p(s0[m]));
                    assert(false);
                }
            }
            let c = self.pop().unwrap();
            push_char(buffer, c);
            proof {
                crate::communication::position::lemma_stepped_str_concat(
                    old(self).spec_position().spec_line() as int,
                    old(self).spec_position().spec_column() as int,
                    s0.take(j),
                    seq![s0[j]],
                );
                crate::communication::position::lemma_stepped_str_one(
                    stepped_str(
                        old(self).spec_position().spec_line() as int,
                        old(self).spec_position().spec_column() as int,
                        s0.take(j),
                    ).0,
                    stepped_str(
                        old(self).spec_position().spec_line() as int,
                        old(self).spec_position().spec_column() as int,
                        s0.take(j),
                    ).1,
                    s0[j],
                );
                assert(s0.take(j) + seq![s0[j]] =~= s0.take(j + 1));
                assert(self.text() =~= s0.skip(j + 1));
                assert(buffer@ =~= old(buffer)@ + s0.take(j + 1));
                j = j + 1;
            }
        }
    }
}

impl<C: SourceChar> PartialEq for Chars<C> {
    fn eq(&self, other: &Chars<C>) -> (r: bool) {
        if !(self.position == other.position) {
            return false;
        }
        let n1 = if self.index <= self.values.len() {
            self.values.len() - self.index
        } else {
            0
        };
        let n2 = if other.index <= other.values.len() {
            other.values.len() - other.index
        } else {
            0
        };
        if n1 != n2 {
            proof {
                assert(self.text().len() != other.text().len());
            }
            return false;
        }
        let mut i: usize = 0;
        while i < n1
            invariant
                0 <= i <= n1,
                n1 == self.text().len(),
                n2 == other.text().len(),
                n1 == n2,
                self.values@.len() <= usize::MAX,
                other.values@.len() <= usize::MAX,
                n1 > 0 ==> self.index as int + n1 as int <= self.values@.len(),
                n2 > 0 ==> other.index as int + n2 as int <= other.values@.len(),
                forall|j: int| 0 <= j < i ==> self.text()[j] == other.text()[j],
            decreases n1 - i,
        {
            if self.values[self.index + i].to_char() != other.values[other.index + i].to_char() {
                proof {
                    assert(self.text()[i as int] != other.text()[i as int]);
                }
                return false;
            }
            i += 1;
        }
        proof {
            assert(self.text() =~= other.text());
        }
        true
    }
}

impl<C: SourceChar> vstd::std_specs::cmp::PartialEqSpecImpl for Chars<C> {
    open spec fn obeys_eq_spec() -> bool {
        true
    }

    open spec fn eq_spec(&self, other: &Chars<C>) -> bool {
        self.text() == other.text() && self.spec_position() == other.spec_position()
    }
}

/// Where a prefix is accepted and the character after it is not, the first
/// rejection is exactly there.
proof fn lemma_first_rejected_at<C: SourceChar>(s: Seq<char>, i: int)
    requires
        0 <= i < s.len(),
        forall|j: int| 0 <= j < i ==> C::spec_accept(#[trigger] s[j]) is Some,
        C::spec_accept(s[i]) is None,
    ensures
        spec_first_rejected::<C>(s) == Some(i),
    decreases i,
{
    if i == 0 {
    } else {
        assert forall|j: int| 0 <= j < i - 1 implies C::spec_accept(
            #[trigger] s.drop_first()[j],
        ) is Some by {
            assert(s.drop_first()[j] == s[j + 1]);
        }
        assert(s.drop_first()[i - 1] == s[i]);
        lemma_first_rejected_at::<C>(s.drop_first(), i - 1);
    }
}

/// A fully accepted text has no first rejection.
proof fn lemma_all_accepted<C: SourceChar>(s: Seq<char>, values: Seq<C>)
    requires
        values.len() == s.len(),
        forall|j: int| 0 <= j < s.len() ==> C::spec_accept(#[trigger] s[j]) == Some(values[j]),
    ensures
        spec_first_rejected::<C>(s) is None,
    decreases s.len(),
{
    if s.len() > 0 {
        assert forall|j: int| 0 <= j < s.drop_first().len() implies C::spec_accept(
            #[trigger] s.drop_first()[j],
        ) == Some(values.drop_first()[j]) by {
            assert(s.drop_first()[j] == s[j + 1]);
            assert(values.drop_first()[j] == values[j + 1]);
        }
        lemma_all_accepted::<C>(s.drop_first(), values.drop_first());
    }
}

} // verus!
