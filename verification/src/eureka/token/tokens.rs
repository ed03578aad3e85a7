use crate::communication::position::{all_lexable, is_lexable_char, stepped_str};
use crate::eureka::token::{
    spec_token_text, spec_token_wf, spec_tokens, spec_tokens_text, SpecToken, Token,
};
use crate::text::position::lemma_rel_moved_stepped;
use crate::text::Position;
use vstd::prelude::*;

verus! {

/// A token buffer consumed in order, tracking its position through each
/// token's relative extent rather than character by character.
pub struct Lexer {
    values: Vec<Token>,
    index: usize,
    position: Position,
}

impl Lexer {
    /// The tokens not yet consumed, in source order.
    pub closed spec fn toks(&self) -> Seq<SpecToken> {
        let n = self.values@.len() - self.index as int;
        Seq::new(
            if n >= 0 {
                n as nat
            } else {
                0
            },
            |i: int| self.values@[self.index + i]@,
        )
    }

    /// The position of the next unconsumed token.
    pub closed spec fn spec_position(&self) -> Position {
        self.position
    }

    #[verifier::opaque]
    pub closed spec fn cursor_ok(&self) -> bool {
        self.index <= self.values@.len() && self.values@.len() <= usize::MAX
    }

    /// Every unconsumed token is well formed, and the position can step over
    /// all of their text without leaving `usize`.
    pub open spec fn wf(&self) -> bool {
        &&& self.cursor_ok()
        &&& self.spec_position().wf()
        &&& forall|i: int|
            0 <= i < self.toks().len() ==> spec_token_wf(#[trigger] self.toks()[i])
        &&& all_lexable(spec_tokens_text(self.toks()))
        &&& self.spec_position().spec_line() + self.spec_position().spec_column()
            + spec_tokens_text(self.toks()).len() <= usize::MAX
    }

    /// The stream's position has stepped from `from`'s over exactly the
    /// consumed text.
    pub open spec fn advanced_over(&self, from: Self, consumed: Seq<char>) -> bool {
        (self.spec_position().spec_line() as int, self.spec_position().spec_column() as int)
            == stepped_str(
            from.spec_position().spec_line() as int,
            from.spec_position().spec_column() as int,
            consumed,
        )
    }

    /// Wraps an already-lexed token buffer, with the position reset to the
    /// start. The tokens must be well formed and their total text must leave
    /// the position inside `usize`.
    pub fn new(values: Vec<Token>) -> (r: Lexer)
        requires
            forall|i: int| 0 <= i < values@.len() ==> spec_token_wf(#[trigger] values@[i]@),
            all_lexable(spec_tokens_text(Seq::new(values@.len(), |i: int| values@[i]@))),
            spec_tokens_text(Seq::new(values@.len(), |i: int| values@[i]@)).len() + 2
                <= usize::MAX,
        ensures
            r.wf(),
            r.toks() == Seq::new(values@.len(), |i: int| values@[i]@),
            r.spec_position().spec_line() == 1,
            r.spec_position().spec_column() == 1,
    {
        let n = values.len();
        let r = Lexer { values, index: 0, position: Position::new(1, 1) };
        proof {
            reveal(Lexer::cursor_ok);
            assert(r.values@.len() == n as int);
            assert(r.toks() =~= Seq::new(r.values@.len(), |i: int| r.values@[i]@));
        }
        r
    }

    /// A view of the next unconsumed token, or `None` at the end.
    pub fn peek(&self) -> (r: Option<&Token>)
        requires
            self.wf(),
        ensures
            match r {
                Some(t) => self.toks().len() > 0 && t@ == self.toks()[0],
                None => self.toks().len() == 0,
            },
    {
        proof {
            reveal(Lexer::cursor_ok);
        }
        if self.index < self.values.len() {
            Some(&self.values[self.index])
        } else {
            None
        }
    }

    /// Removes and returns the next token, moving the position by the token's
    /// relative extent — which steps it over exactly the token's text.
    pub fn pop(&mut self) -> (r: Option<Token>)
        requires
            old(self).wf(),
        ensures
            final(self).wf(),
            match r {
                Some(t) => old(self).toks().len() > 0 && t@ == old(self).toks()[0]
                    && final(self).toks() == old(self).toks().drop_first()
                    && final(self).advanced_over(
                    *old(self),
                    spec_token_text(old(self).toks()[0]),
                ),
                None => old(self).toks().len() == 0 && *final(self) == *old(self),
            },
    {
        proof {
            reveal(Lexer::cursor_ok);
        }
        if self.index < self.values.len() {
            let token = self.values[self.index].clone();
            let ghost text = spec_token_text(token@);
            proof {
                crate::eureka::tokens::lemma_tokens_text_front(self.toks());
                assert forall|i: int| 0 <= i < text.len() implies is_lexable_char(
                    #[trigger] text[i],
                ) by {
                    assert(spec_tokens_text(self.toks())[i] == spec_token_text(self.toks()[0])[i]);
                }
                crate::communication::position::lemma_stepped_str_bounds(1, 1, text);
                crate::communication::position::lemma_stepped_str_bounds(
                    self.spec_position().spec_line() as int,
                    self.spec_position().spec_column() as int,
                    text,
                );
                lemma_rel_moved_stepped(
                    self.spec_position().spec_line() as int,
                    self.spec_position().spec_column() as int,
                    text,
                );
            }
            let end = token.relative_end();
            self.position.relative_move(end);
            self.index += 1;
            proof {
                assert(self.toks() =~= old(self).toks().drop_first());
                crate::eureka::tokens::lemma_tokens_text_front(old(self).toks());
                assert forall|k: int|
                    0 <= k < self.toks().len() implies spec_token_wf(#[trigger] self.toks()[k]) by {
                    assert(self.toks()[k] == old(self).toks()[k + 1]);
                }
                assert forall|k: int|
                    0 <= k < spec_tokens_text(self.toks()).len() implies is_lexable_char(
                    #[trigger] spec_tokens_text(self.toks())[k],
                ) by {
                    assert(spec_tokens_text(old(self).toks())[k + spec_token_text(
                        old(self).toks()[0],
                    ).len()] == spec_tokens_text(self.toks())[k]);
                }
            }
            Some(token)
        } else {
            None
        }
    }

    /// The position of the next unconsumed token.
    pub fn position(&self) -> (r: Position)
        ensures
            r == self.spec_position(),
    {
        self.position
    }

    /// Tokenizes a whole source text into a fresh stream; a lexical fault is
    /// reported by the exact position where it was detected.
    pub fn lex_all(src: &str) -> (r: Result<Lexer, Position>)
        requires
            src@.len() + 2 <= usize::MAX,
        ensures
            match crate::language::chars::spec_first_rejected::<crate::eureka::Char>(src@) {
                Some(i) => r matches Err(p) && (p.spec_line() as int, p.spec_column() as int)
                    == stepped_str(1, 1, src@.take(i)),
                None => match spec_tokens(src@) {
                    Ok(ts) => r matches Ok(lexer) && lexer.wf() && lexer.toks() == ts
                        && lexer.spec_position().spec_line() == 1
                        && lexer.spec_position().spec_column() == 1,
                    Err(e) => r matches Err(p) && (p.spec_line() as int, p.spec_column() as int)
                        == stepped_str(1, 1, src@.take(e.1 as int)),
                },
            },
    {
        match Token::lex_all(src) {
            Ok(values) => {
                proof {
                    crate::eureka::token::lemma_spec_tokens(src@);
                    crate::language::chars::lemma_no_rejection::<crate::eureka::Char>(src@);
                    assert forall|i: int| 0 <= i < src@.len() implies is_lexable_char(
                        #[trigger] src@[i],
                    ) by {
                        crate::eureka::char::lemma_char_accept(src@[i]);
                    }
                    let ts = spec_tokens(src@)->Ok_0;
                    assert(Seq::new(values@.len(), |i: int| values@[i]@) =~= ts);
                }
                let lexer = Lexer::new(values);
                proof {
                    let ts = spec_tokens(src@)->Ok_0;
                    assert(lexer.toks() =~= ts);
                }
                Ok(lexer)
            },
            Err(position) => Err(position),
        }
    }
}

} // verus!
