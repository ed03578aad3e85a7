use crate::communication::Error;
use crate::eureka::syntax_tree::function_definition::{
    at_padding, at_token, spec_parse_function_definition, SpecFunctionDefinition,
};
use crate::eureka::token::{
    spec_token_text, spec_tokens_text, Identifier, Keyword, Padding, Punctuation, SpecToken, Token,
};
use crate::eureka::tokens::{lemma_advance_compose, Tokens};
use vstd::prelude::*;

verus! {

/// An empty function definition under the alternative layout: the same pieces
/// and the same parse as the padded-definition layout, differing only in
/// where a module attaches the padding around definitions.
#[derive(Clone, Debug, Eq, Hash, PartialEq)]
pub struct FunctionDefinition {
    pub pre_identifier_padding: Padding,
    pub identifier: Identifier,
    pub pre_parenthesis_padding: Option<Padding>,
    pub pre_brace_padding: Option<Padding>,
}

impl View for FunctionDefinition {
    type V = SpecFunctionDefinition;

    open spec fn view(&self) -> SpecFunctionDefinition {
        SpecFunctionDefinition {
            pre_identifier_padding: self.pre_identifier_padding@,
            identifier: self.identifier@,
            pre_parenthesis_padding: match self.pre_parenthesis_padding {
                Some(p) => Some(p@),
                None => None,
            },
            pre_brace_padding: match self.pre_brace_padding {
                Some(p) => Some(p@),
                None => None,
            },
        }
    }
}

impl FunctionDefinition {
    /// Parses one function definition. Returns no definition (not an error)
    /// where the next token is not the `fn` keyword; once that keyword is
    /// consumed, every missing mandatory piece is an error at the exact
    /// position of the failure, with no backtracking.
    pub fn parse(tokens: &mut Tokens) -> (r: Result<Option<FunctionDefinition>, Error>)
        requires
            old(tokens).wf(),
        ensures
            final(tokens).wf(),
            match spec_parse_function_definition(old(tokens).toks()) {
                Ok(o) => match o {
                    None => r == Ok::<Option<FunctionDefinition>, Error>(None) && *final(tokens)
                        == *old(tokens),
                    Some(p) => r matches Ok(ro) && ro matches Some(fd) && fd@ == p.0
                        && final(tokens).toks() == old(tokens).toks().skip(p.1)
                        && final(tokens).advanced_over(
                        *old(tokens),
                        spec_tokens_text(old(tokens).toks().take(p.1)),
                    ),
                },
                Err(e) => r matches Err(err) && err@ == e.0 && final(tokens).toks() == old(
                    tokens,
                ).toks().skip(e.1) && final(tokens).advanced_over(
                    *old(tokens),
                    spec_tokens_text(old(tokens).toks().take(e.1)),
                ),
            },
    {
        let ghost ts = old(tokens).toks();
        proof {
            assert(ts.skip(0) =~= ts);
        }
        let front = tokens.peek();
        let fn_ahead = match front {
            Some(Token::Keyword(Keyword::Fn)) => true,
            _ => false,
        };
        proof {
            assert(fn_ahead == at_token(ts, 0, SpecToken::Keyword(Keyword::Fn)));
        }
        if !fn_ahead {
            return Ok(None);
        }
        tokens.pop();
        proof {
            crate::eureka::token::lemma_tokens_text_snoc(ts, 0);
            assert(ts.take(0) =~= Seq::<SpecToken>::empty());
            assert(Seq::<char>::empty() + spec_token_text(ts[0]) =~= spec_token_text(ts[0]));
            assert(spec_tokens_text(ts.take(1)) == spec_token_text(ts[0]));
            assert(tokens.toks() =~= ts.skip(1));
        }
        let ghost prev1 = *tokens;
        let pre_identifier_padding = match tokens.take::<Padding>() {
            Ok(padding) => padding,
            Err(e) => {
                proof {
                    if ts.len() > 1 {
                        assert(prev1.toks()[0] == ts[1]);
                    }
                }
                return Err(e);
            },
        };
        proof {
            assert(prev1.toks()[0] == ts[1]);
            lemma_advance_compose(*old(tokens), prev1, *tokens, ts, 1);
            assert(tokens.toks() =~= ts.skip(2));
        }
        let ghost prev2 = *tokens;
        let identifier = match tokens.take::<Identifier>() {
            Ok(identifier) => identifier,
            Err(e) => {
                proof {
                    if ts.len() > 2 {
                        assert(prev2.toks()[0] == ts[2]);
                    }
                }
                return Err(e);
            },
        };
        proof {
            assert(prev2.toks()[0] == ts[2]);
            lemma_advance_compose(*old(tokens), prev2, *tokens, ts, 2);
            assert(tokens.toks() =~= ts.skip(3));
        }
        let ghost prev3 = *tokens;
        let pre_parenthesis_padding = tokens.try_take::<Padding>();
        let ghost c: int = if at_padding(ts, 3) {
            4
        } else {
            3
        };
        proof {
            if ts.len() > 3 {
                assert(prev3.toks()[0] == ts[3]);
            }
            if at_padding(ts, 3) {
                lemma_advance_compose(*old(tokens), prev3, *tokens, ts, 3);
            }
            assert(tokens.toks() =~= ts.skip(c));
        }
        let ghost prevc = *tokens;
        match tokens.expect(Punctuation::LeftParenthesis) {
            Ok(_) => {},
            Err(e) => {
                proof {
                    if c < ts.len() {
                        assert(prevc.toks()[0] == ts[c]);
                    }
                }
                return Err(e);
            },
        }
        proof {
            assert(prevc.toks()[0] == ts[c]);
            lemma_advance_compose(*old(tokens), prevc, *tokens, ts, c);
            assert(tokens.toks() =~= ts.skip(c + 1));
        }
        let ghost prevc1 = *tokens;
        match tokens.expect(Punctuation::RightParenthesis) {
            Ok(_) => {},
            Err(e) => {
                proof {
                    if c + 1 < ts.len() {
                        assert(prevc1.toks()[0] == ts[c + 1]);
                    }
                }
                return Err(e);
            },
        }
        proof {
            assert(prevc1.toks()[0] == ts[c + 1]);
            lemma_advance_compose(*old(tokens), prevc1, *tokens, ts, c + 1);
            assert(tokens.toks() =~= ts.skip(c + 2));
        }
        let ghost prevc2 = *tokens;
        let pre_brace_padding = tokens.try_take::<Padding>();
        let ghost d: int = if at_padding(ts, c + 2) {
            c + 3
        } else {
            c + 2
        };
        proof {
            if c + 2 < ts.len() {
                assert(prevc2.toks()[0] == ts[c + 2]);
            }
            if at_padding(ts, c + 2) {
                lemma_advance_compose(*old(tokens), prevc2, *tokens, ts, c + 2);
            }
            assert(tokens.toks() =~= ts.skip(d));
        }
        let ghost prevd = *tokens;
        match tokens.expect(Punctuation::LeftBrace) {
            Ok(_) => {},
            Err(e) => {
                proof {
                    if d < ts.len() {
                        assert(prevd.toks()[0] == ts[d]);
                    }
                }
                return Err(e);
            },
        }
        proof {
            assert(prevd.toks()[0] == ts[d]);
            lemma_advance_compose(*old(tokens), prevd, *tokens, ts, d);
            assert(tokens.toks() =~= ts.skip(d + 1));
        }
        let ghost prevd1 = *tokens;
        match tokens.expect(Punctuation::RightBrace) {
            Ok(_) => {},
            Err(e) => {
                proof {
                    if d + 1 < ts.len() {
                        assert(prevd1.toks()[0] == ts[d + 1]);
                    }
                }
                return Err(e);
            },
        }
        proof {
            assert(prevd1.toks()[0] == ts[d + 1]);
            lemma_advance_compose(*old(tokens), prevd1, *tokens, ts, d + 1);
            assert(tokens.toks() =~= ts.skip(d + 2));
        }
        Ok(Some(
            FunctionDefinition {
                pre_identifier_padding,
                identifier,
                pre_parenthesis_padding,
                pre_brace_padding,
            },
        ))
    }
}

} // verus!
