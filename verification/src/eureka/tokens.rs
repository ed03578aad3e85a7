use crate::communication::position::{
    all_lexable, lemma_stepped_str_concat, stepped_str,
};
use crate::communication::{Error, Position, PositionError, SpecError};
use crate::eureka::chars::Chars;
use crate::eureka::token::{
    spec_next_token, spec_token_text, spec_token_wf, spec_tokens, spec_tokens_prepend,
    spec_tokens_text, token_option_view, FromToken, IntoToken, SpecToken, Token,
};
use crate::eureka::Char;
use crate::language::chars::spec_first_rejected;
use vstd::prelude::*;

verus! {

/// The view of the front of a token stream.
pub open spec fn spec_front(ts: Seq<SpecToken>) -> Option<SpecToken> {
    if ts.len() > 0 {
        Some(ts[0])
    } else {
        None
    }
}

/// The whole token sequence of a source text, consumed in order with a
/// running position: built by exhausting the tokenizer up front, then read
/// through one token of lookahead.
#[derive(Clone, Debug, Eq, Hash)]
pub struct Tokens {
    values: Vec<Token>,
    index: usize,
    position: Position,
}

impl Tokens {
    /// The tokens not yet consumed, in source order.
    pub closed spec fn toks(&self) -> Seq<SpecToken> {
        let n = self.values@.len() - self.index as int;
        Seq::new(
            if n >= 0 {
                n as nat
            } else {
                0
            },
            |i: int| self.values@[self.index + i]@,
        )
    }

    /// The position of the next unconsumed token.
    pub closed spec fn spec_position(&self) -> Position {
        self.position
    }

    #[verifier::opaque]
    pub closed spec fn cursor_ok(&self) -> bool {
        self.index <= self.values@.len() && self.values@.len() <= usize::MAX
    }

    /// Every unconsumed token is well formed, and the position can step over
    /// all of their text without leaving `usize`.
    pub open spec fn wf(&self) -> bool {
        &&& self.cursor_ok()
        &&& self.spec_position().wf()
        &&& forall|i: int|
            0 <= i < self.toks().len() ==> spec_token_wf(#[trigger] self.toks()[i])
        &&& all_lexable(spec_tokens_text(self.toks()))
        &&& self.spec_position().spec_line() + self.spec_position().spec_column()
            + spec_tokens_text(self.toks()).len() <= usize::MAX
    }

    /// The stream's position has stepped from `from`'s over exactly the
    /// consumed text.
    pub open spec fn advanced_over(&self, from: Self, consumed: Seq<char>) -> bool {
        (self.spec_position().spec_line() as int, self.spec_position().spec_column() as int)
            == stepped_str(
            from.spec_position().spec_line() as int,
            from.spec_position().spec_column() as int,
            consumed,
        )
    }

    /// Tokenizes the whole source up front. Fails with the first lexical
    /// fault, carrying the exact position where it was detected; on success
    /// the stream holds every token with its position reset to the start.
    pub fn try_new(src: &str) -> (r: Result<Tokens, PositionError>)
        requires
            src@.len() + 2 <= usize::MAX,
        ensures
            match spec_first_rejected::<Char>(src@) {
                Some(i) => r matches Err(pe) && pe.error@ == SpecError::UnexpectedChar(src@[i]) && (
                pe.position.spec_line() as int,
                pe.position.spec_column() as int,
                ) == stepped_str(1, 1, src@.take(i)),
                None => match spec_tokens(src@) {
                    Ok(ts) => r matches Ok(tokens) && tokens.wf() && tokens.toks() == ts
                        && tokens.spec_position().spec_line() == 1
                        && tokens.spec_position().spec_column() == 1,
                    Err(e) => r matches Err(pe) && pe.error@ == e.0 && (
                    pe.position.spec_line() as int,
                    pe.position.spec_column() as int,
                    ) == stepped_str(1, 1, src@.take(e.1 as int)),
                },
            },
    {
        let mut chars = match Chars::try_new(src) {
            Ok(chars) => chars,
            Err(pe) => {
                return Err(pe);
            },
        };
        let ghost s = src@;
        let mut values: Vec<Token> = Vec::new();
        let ghost mut u: int = 0;
        proof {
            assert(s.take(0) =~= Seq::<char>::empty());
            assert(s.skip(0) =~= s);
            assert(spec_tokens_prepend(Seq::<SpecToken>::empty(), 0, spec_tokens(s)) == spec_tokens(
                s,
            )) by {
                match spec_tokens(s) {
                    Ok(ts) => {
                        assert(Seq::<SpecToken>::empty() + ts =~= ts);
                    },
                    Err(_) => {},
                }
            }
        }
        loop
            invariant
                s == src@,
                spec_first_rejected::<Char>(s) is None,
                chars.wf(),
                0 <= u <= s.len(),
                s.len() + 2 <= usize::MAX,
                all_lexable(s),
                chars.text() == s.skip(u),
                values@.len() <= u,
                (chars.spec_position().spec_line() as int, chars.spec_position().spec_column()
                    as int) == stepped_str(1, 1, s.take(u)),
                forall|i: int| 0 <= i < values@.len() ==> spec_token_wf(#[trigger] values@[i]@),
                spec_tokens(s) == spec_tokens_prepend(
                    Seq::new(values@.len(), |i: int| values@[i]@),
                    u as nat,
                    spec_tokens(chars.text()),
                ),
            ensures
                s == src@,
                spec_first_rejected::<Char>(s) is None,
                chars.text().len() == 0,
                spec_tokens(s) == Ok::<Seq<SpecToken>, (SpecError, nat)>(
                    Seq::new(values@.len(), |i: int| values@[i]@),
                ),
                forall|i: int| 0 <= i < values@.len() ==> spec_token_wf(#[trigger] values@[i]@),
                values@.len() <= usize::MAX,
            decreases chars.text().len(),
        {
            let ghost acc = Seq::new(values@.len(), |i: int| values@[i]@);
            let ghost t = chars.text();
            proof {
                crate::eureka::token::lemma_spec_next_token(t);
            }
            match Token::lex(&mut chars) {
                Ok(Some(token)) => {
                    values.push(token);
                    proof {
                        let k = spec_next_token(t)->Ok_0->Some_0.1 as int;
                        assert(s.skip(u).skip(k) =~= s.skip(u + k));
                        assert(s.take(u) + s.skip(u).take(k) =~= s.take(u + k));
                        lemma_stepped_str_concat(1, 1, s.take(u), s.skip(u).take(k));
                        lemma_prepend_assoc(acc, u as nat, seq![token@], k as nat, spec_tokens(
                            chars.text(),
                        ));
                        assert(acc + seq![token@] =~= Seq::new(
                            values@.len(),
                            |i: int| values@[i]@,
                        ));
                        u = u + k;
                    }
                },
                Ok(None) => {
                    proof {
                        assert(spec_tokens(chars.text()) == Ok::<Seq<SpecToken>, (SpecError, nat)>(
                            Seq::<SpecToken>::empty(),
                        ));
                        assert(acc + Seq::<SpecToken>::empty() =~= acc);
                    }
                    break ;
                },
                Err(e) => {
                    proof {
                        let er = spec_next_token(t)->Err_0;
                        let k = er.1 as int;
                        assert(s.take(u) + s.skip(u).take(k) =~= s.take(u + k));
                        lemma_stepped_str_concat(1, 1, s.take(u), s.skip(u).take(k));
                        assert((chars.spec_position().spec_line() as int,
                            chars.spec_position().spec_column() as int) == stepped_str(
                            1,
                            1,
                            s.take(u + k),
                        ));
                        assert(spec_tokens(t) == Err::<Seq<SpecToken>, (SpecError, nat)>(er));
                        assert(spec_tokens(s) == Err::<Seq<SpecToken>, (SpecError, nat)>(
                            (er.0, (u + k) as nat),
                        ));
                    }
                    return Err(PositionError::new(chars.position(), e));
                },
            }
        }
        let r = Tokens { values, index: 0, position: Position::start() };
        proof {
            reveal(Tokens::cursor_ok);
            let ts = spec_tokens(s)->Ok_0;
            assert(r.toks() =~= ts);
            crate::eureka::token::lemma_spec_tokens(s);
        }
        Ok(r)
    }

    /// Tokenizes the whole source, which must hold no lexical fault.
    pub fn new(src: &str) -> (r: Tokens)
        requires
            src@.len() + 2 <= usize::MAX,
            spec_first_rejected::<Char>(src@) is None,
            spec_tokens(src@) is Ok,
        ensures
            r.wf(),
            r.toks() == spec_tokens(src@)->Ok_0,
            r.spec_position().spec_line() == 1,
            r.spec_position().spec_column() == 1,
    {
        Tokens::try_new(src).unwrap()
    }

    /// A copy of the next unconsumed token, or `None` at the end.
    pub fn peek(&self) -> (r: Option<Token>)
        requires
            self.wf(),
        ensures
            token_option_view(r) == spec_front(self.toks()),
    {
        proof {
            reveal(Tokens::cursor_ok);
        }
        if self.index < self.values.len() {
            Some(self.values[self.index].clone())
        } else {
            None
        }
    }

    /// Removes and returns the next token, stepping the position over its
    /// exact text.
    pub fn pop(&mut self) -> (r: Option<Token>)
        requires
            old(self).wf(),
        ensures
            final(self).wf(),
            match r {
                Some(t) => old(self).toks().len() > 0 && t@ == old(self).toks()[0]
                    && final(self).toks() == old(self).toks().drop_first()
                    && final(self).advanced_over(*old(self), spec_token_text(old(self).toks()[0])),
                None => old(self).toks().len() == 0 && *final(self) == *old(self),
            },
    {
        proof {
            reveal(Tokens::cursor_ok);
        }
        if self.index < self.values.len() {
            let token = self.values[self.index].clone();
            proof {
                lemma_tokens_text_front(self.toks());
                assert forall|i: int|
                    0 <= i < spec_token_text(token@).len() implies crate::communication::position::is_lexable_char(
                    #[trigger] spec_token_text(token@)[i],
                ) by {
                    assert(spec_tokens_text(self.toks())[i] == spec_token_text(self.toks()[0])[i]);
                }
                crate::communication::position::lemma_stepped_str_bounds(
                    self.spec_position().spec_line() as int,
                    self.spec_position().spec_column() as int,
                    spec_token_text(token@),
                );
            }
            self.position.advance_str(token.unlex());
            self.index += 1;
            proof {
                assert(self.toks() =~= old(self).toks().drop_first());
                lemma_tokens_text_front(old(self).toks());
                assert forall|k: int|
                    0 <= k < self.toks().len() implies spec_token_wf(#[trigger] self.toks()[k]) by {
                    assert(self.toks()[k] == old(self).toks()[k + 1]);
                }
                assert forall|k: int|
                    0 <= k < spec_tokens_text(self.toks()).len() implies crate::communication::position::is_lexable_char(
                    #[trigger] spec_tokens_text(self.toks())[k],
                ) by {
                    assert(spec_tokens_text(old(self).toks())[k + spec_token_text(
                        old(self).toks()[0],
                    ).len()] == spec_tokens_text(self.toks())[k]);
                }
            }
            Some(token)
        } else {
            None
        }
    }

    /// The position of the next unconsumed token.
    pub fn position(&self) -> (r: Position)
        ensures
            r == self.spec_position(),
    {
        self.position
    }

    /// The unconsumed tokens as a plain vector, in source order.
    pub fn into_vec(self) -> (r: Vec<Token>)
        requires
            self.wf(),
        ensures
            r@.len() == self.toks().len(),
            forall|i: int| 0 <= i < r@.len() ==> #[trigger] r@[i]@ == self.toks()[i],
    {
        proof {
            reveal(Tokens::cursor_ok);
        }
        let mut r: Vec<Token> = Vec::new();
        let mut i: usize = self.index;
        while i < self.values.len()
            invariant
                self.index <= i <= self.values@.len(),
                self.values@.len() <= usize::MAX,
                r@.len() == i - self.index,
                r@.len() <= self.toks().len(),
                forall|j: int| 0 <= j < r@.len() ==> #[trigger] r@[j]@ == self.toks()[j],
            decreases self.values@.len() - i,
        {
            r.push(self.values[i].clone());
            i += 1;
        }
        r
    }

    /// Converts and consumes the next token where it is of the requested
    /// kind; otherwise consumes nothing and reports what was expected.
    pub fn take<T: FromToken>(&mut self) -> (r: Result<T, Error>)
        requires
            old(self).wf(),
        ensures
            final(self).wf(),
            match T::spec_from(spec_front(old(self).toks())) {
                Ok(v) => r matches Ok(x) && x@ == v && old(self).toks().len() > 0
                    && final(self).toks() == old(self).toks().drop_first()
                    && final(self).advanced_over(*old(self), spec_token_text(old(self).toks()[0])),
                Err(e) => r matches Err(err) && err@ == e && *final(self) == *old(self),
            },
    {
        proof {
            T::lemma_end_rejected();
        }
        let result = T::try_from_tokens(self.peek());
        if result.is_ok() {
            self.pop();
        }
        result
    }

    /// As `take`, but reports failure by absence alone, consuming nothing.
    pub fn try_take<T: FromToken>(&mut self) -> (r: Option<T>)
        requires
            old(self).wf(),
        ensures
            final(self).wf(),
            match T::spec_from(spec_front(old(self).toks())) {
                Ok(v) => r matches Some(x) && x@ == v && old(self).toks().len() > 0
                    && final(self).toks() == old(self).toks().drop_first()
                    && final(self).advanced_over(*old(self), spec_token_text(old(self).toks()[0])),
                Err(_) => r is None && *final(self) == *old(self),
            },
    {
        self.take().ok()
    }

    /// Consumes the next token where it equals the caller's exact token;
    /// otherwise consumes nothing, so the stream's position still marks the
    /// failure site.
    pub fn expect<T: IntoToken>(&mut self, token: T) -> (r: Result<(), Error>)
        requires
            old(self).wf(),
        ensures
            final(self).wf(),
            if old(self).toks().len() > 0 && old(self).toks()[0] == token.spec_token() {
                r == Ok::<(), Error>(()) && final(self).toks() == old(self).toks().drop_first()
                    && final(self).advanced_over(*old(self), spec_token_text(old(self).toks()[0]))
            } else {
                (r matches Err(e) && e@ == SpecError::MissingToken(token.spec_token()))
                    && *final(self) == *old(self)
            },
    {
        let expected_token = token.into_token();
        if let Some(actual_token) = self.peek() {
            if actual_token == expected_token {
                self.pop();
                return Ok(());
            }
        }
        Err(Error::MissingToken(expected_token))
    }
}

impl PartialEq for Tokens {
    fn eq(&self, other: &Tokens) -> (r: bool) {
        proof {
            reveal(Tokens::cursor_ok);
        }
        if !(self.position == other.position) {
            return false;
        }
        let n1 = if self.index <= self.values.len() {
            self.values.len() - self.index
        } else {
            0
        };
        let n2 = if other.index <= other.values.len() {
            other.values.len() - other.index
        } else {
            0
        };
        if n1 != n2 {
            proof {
                assert(self.toks().len() != other.toks().len());
            }
            return false;
        }
        let mut i: usize = 0;
        while i < n1
            invariant
                0 <= i <= n1,
                n1 == self.toks().len(),
                n2 == other.toks().len(),
                n1 == n2,
                self.values@.len() <= usize::MAX,
                other.values@.len() <= usize::MAX,
                n1 > 0 ==> self.index as int + n1 as int <= self.values@.len(),
                n2 > 0 ==> other.index as int + n2 as int <= other.values@.len(),
                forall|j: int| 0 <= j < i ==> self.toks()[j] == other.toks()[j],
            decreases n1 - i,
        {
            if !(self.values[self.index + i] == other.values[other.index + i]) {
                proof {
                    assert(self.toks()[i as int] != other.toks()[i as int]);
                }
                return false;
            }
            i += 1;
        }
        proof {
            assert(self.toks() =~= other.toks());
        }
        true
    }
}

impl vstd::std_specs::cmp::PartialEqSpecImpl for Tokens {
    open spec fn obeys_eq_spec() -> bool {
        true
    }

    open spec fn eq_spec(&self, other: &Tokens) -> bool {
        self.toks() == other.toks() && self.spec_position() == other.spec_position()
    }
}

/// Position monotonicity: popping tokens in order never moves the position
/// backwards. Whatever text a stream has stepped over, the line never
/// decreases, and on an unchanged line the column never decreases; the
/// position after the steps is the position before them advanced by exactly
/// the consumed text, as each popping operation's contract states.
pub proof fn lemma_position_monotonicity(before: Tokens, after: Tokens, consumed: Seq<char>)
    requires
        before.spec_position().wf(),
        after.advanced_over(before, consumed),
    ensures
        after.spec_position().spec_line() >= before.spec_position().spec_line(),
        after.spec_position().spec_line() == before.spec_position().spec_line()
            ==> after.spec_position().spec_column() >= before.spec_position().spec_column(),
{
    crate::communication::position::lemma_stepped_str_bounds(
        before.spec_position().spec_line() as int,
        before.spec_position().spec_column() as int,
        consumed,
    );
}

/// Composes two position advances: over an already-consumed token prefix, then
/// over the next token.
pub proof fn lemma_advance_compose(
    from: Tokens,
    mid: Tokens,
    now: Tokens,
    ts: Seq<SpecToken>,
    c: int,
)
    requires
        0 <= c < ts.len(),
        mid.advanced_over(from, spec_tokens_text(ts.take(c))),
        now.advanced_over(mid, spec_token_text(ts[c])),
    ensures
        now.advanced_over(from, spec_tokens_text(ts.take(c + 1))),
{
    lemma_stepped_str_concat(
        from.spec_position().spec_line() as int,
        from.spec_position().spec_column() as int,
        spec_tokens_text(ts.take(c)),
        spec_token_text(ts[c]),
    );
    crate::eureka::token::lemma_tokens_text_snoc(ts, c);
}

/// Composes two position advances: over an already-consumed token prefix, then
/// over the next `k` tokens.
pub proof fn lemma_advance_compose_many(
    from: Tokens,
    mid: Tokens,
    now: Tokens,
    ts: Seq<SpecToken>,
    a: int,
    k: int,
)
    requires
        0 <= a,
        0 <= k,
        a + k <= ts.len(),
        mid.advanced_over(from, spec_tokens_text(ts.take(a))),
        now.advanced_over(mid, spec_tokens_text(ts.skip(a).take(k))),
    ensures
        now.advanced_over(from, spec_tokens_text(ts.take(a + k))),
{
    lemma_stepped_str_concat(
        from.spec_position().spec_line() as int,
        from.spec_position().spec_column() as int,
        spec_tokens_text(ts.take(a)),
        spec_tokens_text(ts.skip(a).take(k)),
    );
    assert(ts.take(a + k) =~= ts.take(a) + ts.skip(a).take(k));
    crate::eureka::token::lemma_tokens_text_concat(ts.take(a), ts.skip(a).take(k));
}

/// Prefixing a lexed token before an accumulated run, then the run before the
/// rest, counts the same tokens and characters as doing both at once.
proof fn lemma_prepend_assoc(
    acc: Seq<SpecToken>,
    u: nat,
    one: Seq<SpecToken>,
    k: nat,
    rest: Result<Seq<SpecToken>, (SpecError, nat)>,
)
    ensures
        spec_tokens_prepend(acc, u, spec_tokens_prepend(one, k, rest)) == spec_tokens_prepend(
            acc + one,
            u + k,
            rest,
        ),
{
    match rest {
        Ok(ts) => {
            assert(acc + (one + ts) =~= (acc + one) + ts);
        },
        Err(_) => {},
    }
}

/// The concatenated text of a non-empty token sequence starts with the first
/// token's text, followed by the rest's.
pub proof fn lemma_tokens_text_front(ts: Seq<SpecToken>)
    requires
        ts.len() > 0,
    ensures
        spec_tokens_text(ts) == spec_token_text(ts[0]) + spec_tokens_text(ts.drop_first()),
        spec_tokens_text(ts).len() >= spec_token_text(ts[0]).len(),
        forall|i: int|
            0 <= i < spec_token_text(ts[0]).len() ==> #[trigger] spec_tokens_text(ts)[i]
                == spec_token_text(ts[0])[i],
        forall|i: int|
            0 <= i < spec_tokens_text(ts.drop_first()).len()
                ==> #[trigger] spec_tokens_text(ts.drop_first())[i] == spec_tokens_text(ts)[i
                + spec_token_text(ts[0]).len()],
{
}

} // verus!
