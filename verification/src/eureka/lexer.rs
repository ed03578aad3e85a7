use crate::communication::position::{
    all_lexable, is_lexable_char, lemma_stepped_str_concat, stepped_str,
};
use crate::communication::{Position, PositionError, SpecError};
use crate::eureka::chars::Chars;
use crate::eureka::token::{
    spec_next_token, spec_token_text, spec_token_wf, spec_tokens_text, SpecToken, Token,
};
use crate::eureka::Char;
use crate::language::chars::spec_first_rejected;
use vstd::prelude::*;

verus! {

/// What lexing a whole text yields for this lexer: the token sequence, or the
/// first error together with how many characters the *complete* tokens before
/// it cover — this lexer reports an error at the start of the failing token.
pub open spec fn spec_lex_all(s: Seq<char>) -> Result<Seq<SpecToken>, (SpecError, nat)>
    decreases s.len(),
{
    match spec_next_token(s) {
        Ok(o) => match o {
            None => Ok(Seq::empty()),
            Some(p) => if 0 < p.1 <= s.len() {
                match spec_lex_all(s.skip(p.1 as int)) {
                    Ok(ts) => Ok(seq![p.0] + ts),
                    Err(e) => Err((e.0, (p.1 + e.1) as nat)),
                }
            } else {
                // A produced token always consumes within the text; see
                // lemma_spec_next_token.
                Ok(Seq::empty())
            },
        },
        Err(e) => Err((e.0, 0)),
    }
}

/// This lexing is lossless too, and an error's count of covered characters
/// stays within the text.
pub proof fn lemma_spec_lex_all(s: Seq<char>)
    ensures
        spec_lex_all(s) matches Ok(ts) ==> crate::eureka::token::spec_tokens_text(ts) == s
            && forall|i: int| 0 <= i < ts.len() ==> spec_token_wf(#[trigger] ts[i]),
        spec_lex_all(s) matches Err(e) ==> e.1 <= s.len(),
    decreases s.len(),
{
    crate::eureka::token::lemma_spec_next_token(s);
    match spec_next_token(s) {
        Ok(o) => match o {
            None => {
                assert(spec_tokens_text(Seq::<SpecToken>::empty()) =~= s);
            },
            Some(p) => {
                let k = p.1 as int;
                lemma_spec_lex_all(s.skip(k));
                match spec_lex_all(s.skip(k)) {
                    Ok(ts) => {
                        let all = seq![p.0] + ts;
                        assert(all.drop_first() =~= ts);
                        assert(all[0] == p.0);
                        assert(s.take(k) + s.skip(k) =~= s);
                        assert forall|i: int| 0 <= i < all.len() implies spec_token_wf(
                            #[trigger] all[i],
                        ) by {
                            if i > 0 {
                                assert(all[i] == ts[i - 1]);
                            }
                        }
                    },
                    Err(_) => {},
                }
            },
        },
        Err(_) => {},
    }
}

/// The two lexing conventions agree: this lexer and the combinator-bearing
/// stream accept exactly the same texts, produce exactly the same tokens, and
/// fail with exactly the same error — they differ only in the position they
/// attach to a failure.
pub proof fn lemma_lex_all_agrees(s: Seq<char>)
    ensures
        spec_lex_all(s) matches Ok(ts) ==> crate::eureka::token::spec_tokens(s) == Ok::<
            Seq<SpecToken>,
            (SpecError, nat),
        >(ts),
        spec_lex_all(s) matches Err(e) ==> (crate::eureka::token::spec_tokens(s) matches Err(e2)
            && e2.0 == e.0),
    decreases s.len(),
{
    crate::eureka::token::lemma_spec_next_token(s);
    match spec_next_token(s) {
        Ok(o) => match o {
            None => {},
            Some(p) => {
                lemma_lex_all_agrees(s.skip(p.1 as int));
            },
        },
        Err(_) => {},
    }
}

/// The whole token sequence of a source text, consumed in order with a
/// running position. Unlike the combinator-bearing stream, this lexer reports
/// a lexical fault at the position of the start of the failing token.
#[derive(Clone, Debug, Eq, Hash)]
pub struct Lexer {
    tokens: Vec<Token>,
    index: usize,
    position: Position,
}

impl Lexer {
    /// The tokens not yet consumed, in source order.
    pub closed spec fn toks(&self) -> Seq<SpecToken> {
        let n = self.tokens@.len() - self.index as int;
        Seq::new(
            if n >= 0 {
                n as nat
            } else {
                0
            },
            |i: int| self.tokens@[self.index + i]@,
        )
    }

    /// The position of the next unconsumed token.
    pub closed spec fn spec_position(&self) -> Position {
        self.position
    }

    #[verifier::opaque]
    pub closed spec fn cursor_ok(&self) -> bool {
        self.index <= self.tokens@.len() && self.tokens@.len() <= usize::MAX
    }

    /// Every unconsumed token is well formed, and the position can step over
    /// all of their text without leaving `usize`.
    pub open spec fn wf(&self) -> bool {
        &&& self.cursor_ok()
        &&& self.spec_position().wf()
        &&& forall|i: int|
            0 <= i < self.toks().len() ==> spec_token_wf(#[trigger] self.toks()[i])
        &&& all_lexable(spec_tokens_text(self.toks()))
        &&& self.spec_position().spec_line() + self.spec_position().spec_column()
            + spec_tokens_text(self.toks()).len() <= usize::MAX
    }

    /// The stream's position has stepped from `from`'s over exactly the
    /// consumed text.
    pub open spec fn advanced_over(&self, from: Self, consumed: Seq<char>) -> bool {
        (self.spec_position().spec_line() as int, self.spec_position().spec_column() as int)
            == stepped_str(
            from.spec_position().spec_line() as int,
            from.spec_position().spec_column() as int,
            consumed,
        )
    }

    /// Tokenizes the whole source up front. A lexical fault is reported at the
    /// position of the start of the token that could not be lexed; on success
    /// the stream holds every token with its position reset to the start.
    pub fn try_new(src: &str) -> (r: Result<Lexer, PositionError>)
        requires
            src@.len() + 2 <= usize::MAX,
        ensures
            match spec_first_rejected::<Char>(src@) {
                Some(i) => r matches Err(pe) && pe.error@ == SpecError::UnexpectedChar(src@[i]) && (
                pe.position.spec_line() as int,
                pe.position.spec_column() as int,
                ) == stepped_str(1, 1, src@.take(i)),
                None => match spec_lex_all(src@) {
                    Ok(ts) => r matches Ok(lexer) && lexer.wf() && lexer.toks() == ts
                        && lexer.spec_position().spec_line() == 1
                        && lexer.spec_position().spec_column() == 1,
                    Err(e) => r matches Err(pe) && pe.error@ == e.0 && (
                    pe.position.spec_line() as int,
                    pe.position.spec_column() as int,
                    ) == stepped_str(1, 1, src@.take(e.1 as int)),
                },
            },
    {
        let mut chars = match Chars::try_new(src) {
            Ok(chars) => chars,
            Err(pe) => {
                return Err(pe);
            },
        };
        let ghost s = src@;
        let mut tokens: Vec<Token> = Vec::new();
        let mut position = Position::start();
        let ghost mut u: int = 0;
        proof {
            assert(s.take(0) =~= Seq::<char>::empty());
            assert(s.skip(0) =~= s);
            match spec_lex_all(s) {
                Ok(ts) => {
                    assert(Seq::<SpecToken>::empty() + ts =~= ts);
                },
                Err(_) => {},
            }
        }
        loop
            invariant
                s == src@,
                spec_first_rejected::<Char>(s) is None,
                chars.wf(),
                0 <= u <= s.len(),
                s.len() + 2 <= usize::MAX,
                all_lexable(s),
                chars.text() == s.skip(u),
                tokens@.len() <= u,
                position.wf(),
                (position.spec_line() as int, position.spec_column() as int) == stepped_str(
                    1,
                    1,
                    s.take(u),
                ),
                position.spec_line() + position.spec_column() <= 2 + u,
                forall|i: int| 0 <= i < tokens@.len() ==> spec_token_wf(#[trigger] tokens@[i]@),
                spec_lex_all(s) == (match spec_lex_all(chars.text()) {
                    Ok(ts) => Ok::<Seq<SpecToken>, (SpecError, nat)>(
                        Seq::new(tokens@.len(), |i: int| tokens@[i]@) + ts,
                    ),
                    Err(e) => Err((e.0, (u + e.1) as nat)),
                }),
            ensures
                s == src@,
                spec_first_rejected::<Char>(s) is None,
                chars.text().len() == 0,
                spec_lex_all(s) == Ok::<Seq<SpecToken>, (SpecError, nat)>(
                    Seq::new(tokens@.len(), |i: int| tokens@[i]@),
                ),
                forall|i: int| 0 <= i < tokens@.len() ==> spec_token_wf(#[trigger] tokens@[i]@),
                tokens@.len() <= usize::MAX,
            decreases chars.text().len(),
        {
            let ghost acc = Seq::new(tokens@.len(), |i: int| tokens@[i]@);
            let ghost t = chars.text();
            proof {
                crate::eureka::token::lemma_spec_next_token(t);
            }
            match Token::lex(&mut chars) {
                Ok(Some(token)) => {
                    proof {
                        let k = spec_next_token(t)->Ok_0->Some_0.1 as int;
                        assert(s.skip(u).skip(k) =~= s.skip(u + k));
                        assert(s.take(u) + s.skip(u).take(k) =~= s.take(u + k));
                        lemma_stepped_str_concat(1, 1, s.take(u), s.skip(u).take(k));
                        crate::communication::position::lemma_stepped_str_bounds(
                            1,
                            1,
                            s.take(u + k),
                        );
                        assert(spec_token_text(token@) =~= s.skip(u).take(k));
                        assert(crate::communication::position::advance_ready(
                            spec_token_text(token@),
                        ));
                    }
                    position.advance_str(token.unlex());
                    tokens.push(token);
                    proof {
                        let k = spec_next_token(t)->Ok_0->Some_0.1 as int;
                        match spec_lex_all(s.skip(u + k)) {
                            Ok(ts2) => {
                                assert(acc + (seq![token@] + ts2) =~= (acc + seq![token@]) + ts2);
                            },
                            Err(_) => {},
                        }
                        assert(acc + seq![token@] =~= Seq::new(
                            tokens@.len(),
                            |i: int| tokens@[i]@,
                        ));
                        u = u + k;
                    }
                },
                Ok(None) => {
                    proof {
                        assert(spec_lex_all(chars.text()) == Ok::<Seq<SpecToken>, (
                            SpecError,
                            nat,
                        )>(Seq::<SpecToken>::empty()));
                        assert(acc + Seq::<SpecToken>::empty() =~= acc);
                    }
                    break ;
                },
                Err(e) => {
                    return Err(PositionError::new(position, e));
                },
            }
        }
        let r = Lexer { tokens, index: 0, position: Position::start() };
        proof {
            reveal(Lexer::cursor_ok);
            let ts = spec_lex_all(s)->Ok_0;
            assert(r.toks() =~= ts);
            lemma_spec_lex_all(s);
        }
        Ok(r)
    }

    /// Tokenizes the whole source, which must hold no lexical fault.
    pub fn new(src: &str) -> (r: Lexer)
        requires
            src@.len() + 2 <= usize::MAX,
            spec_first_rejected::<Char>(src@) is None,
            spec_lex_all(src@) is Ok,
        ensures
            r.wf(),
            r.toks() == spec_lex_all(src@)->Ok_0,
            r.spec_position().spec_line() == 1,
            r.spec_position().spec_column() == 1,
    {
        Lexer::try_new(src).unwrap()
    }

    /// A view of the next unconsumed token, or `None` at the end.
    pub fn peek(&self) -> (r: Option<&Token>)
        requires
            self.wf(),
        ensures
            match r {
                Some(t) => self.toks().len() > 0 && t@ == self.toks()[0],
                None => self.toks().len() == 0,
            },
    {
        proof {
            reveal(Lexer::cursor_ok);
        }
        if self.index < self.tokens.len() {
            Some(&self.tokens[self.index])
        } else {
            None
        }
    }

    /// Removes and returns the next token, stepping the position over its
    /// exact text.
    pub fn pop(&mut self) -> (r: Option<Token>)
        requires
            old(self).wf(),
        ensures
            final(self).wf(),
            match r {
                Some(t) => old(self).toks().len() > 0 && t@ == old(self).toks()[0]
                    && final(self).toks() == old(self).toks().drop_first()
                    && final(self).advanced_over(
                    *old(self),
                    spec_token_text(old(self).toks()[0]),
                ),
                None => old(self).toks().len() == 0 && *final(self) == *old(self),
            },
    {
        proof {
            reveal(Lexer::cursor_ok);
        }
        if self.index < self.tokens.len() {
            let token = self.tokens[self.index].clone();
            proof {
                crate::eureka::tokens::lemma_tokens_text_front(self.toks());
                assert forall|i: int|
                    0 <= i < spec_token_text(token@).len() implies is_lexable_char(
                    #[trigger] spec_token_text(token@)[i],
                ) by {
                    assert(spec_tokens_text(self.toks())[i] == spec_token_text(self.toks()[0])[i]);
                }
                crate::communication::position::lemma_stepped_str_bounds(
                    self.spec_position().spec_line() as int,
                    self.spec_position().spec_column() as int,
                    spec_token_text(token@),
                );
            }
            self.position.advance_str(token.unlex());
            self.index += 1;
            proof {
                assert(self.toks() =~= old(self).toks().drop_first());
                crate::eureka::tokens::lemma_tokens_text_front(old(self).toks());
                assert forall|k: int|
                    0 <= k < self.toks().len() implies spec_token_wf(#[trigger] self.toks()[k]) by {
                    assert(self.toks()[k] == old(self).toks()[k + 1]);
                }
                assert forall|k: int|
                    0 <= k < spec_tokens_text(self.toks()).len() implies is_lexable_char(
                    #[trigger] spec_tokens_text(self.toks())[k],
                ) by {
                    assert(spec_tokens_text(old(self).toks())[k + spec_token_text(
                        old(self).toks()[0],
                    ).len()] == spec_tokens_text(self.toks())[k]);
                }
            }
            Some(token)
        } else {
            None
        }
    }

    /// The position of the next unconsumed token.
    pub fn position(&self) -> (r: Position)
        ensures
            r == self.spec_position(),
    {
        self.position
    }
}

impl PartialEq for Lexer {
    fn eq(&self, other: &Lexer) -> (r: bool) {
        proof {
            reveal(Lexer::cursor_ok);
        }
        if !(self.position == other.position) {
            return false;
        }
        let n1 = if self.index <= self.tokens.len() {
            self.tokens.len() - self.index
        } else {
            0
        };
        let n2 = if other.index <= other.tokens.len() {
            other.tokens.len() - other.index
        } else {
            0
        };
        if n1 != n2 {
            proof {
                assert(self.toks().len() != other.toks().len());
            }
            return false;
        }
        let mut i: usize = 0;
        while i < n1
            invariant
                0 <= i <= n1,
                n1 == self.toks().len(),
                n2 == other.toks().len(),
                n1 == n2,
                self.tokens@.len() <= usize::MAX,
                other.tokens@.len() <= usize::MAX,
                n1 > 0 ==> self.index as int + n1 as int <= self.tokens@.len(),
                n2 > 0 ==> other.index as int + n2 as int <= other.tokens@.len(),
                forall|j: int| 0 <= j < i ==> self.toks()[j] == other.toks()[j],
            decreases n1 - i,
        {
            if !(self.tokens[self.index + i] == other.tokens[other.index + i]) {
                proof {
                    assert(self.toks()[i as int] != other.toks()[i as int]);
                }
                return false;
            }
            i += 1;
        }
        proof {
            assert(self.toks() =~= other.toks());
        }
        true
    }
}

impl vstd::std_specs::cmp::PartialEqSpecImpl for Lexer {
    open spec fn obeys_eq_spec() -> bool {
        true
    }

    open spec fn eq_spec(&self, other: &Lexer) -> bool {
        self.toks() == other.toks() && self.spec_position() == other.spec_position()
    }
}

} // verus!
