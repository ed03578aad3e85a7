use crate::communication::{Error, SpecError};
use crate::eureka::token::{
    spec_token_text, spec_tokens_text, Identifier, Keyword, Padding, Punctuation, SpecToken, Token,
};
use crate::eureka::tokens::{lemma_advance_compose, Tokens};
use crate::eureka::Punctuator;
use vstd::prelude::*;
use vstd::string::StringExecFns;

verus! {

/// The mathematical value of a function definition: each padding and the
/// identifier as character sequences. The fixed tokens (`fn`, the parentheses
/// and the braces) are implied structurally.
pub struct SpecFunctionDefinition {
    pub pre_identifier_padding: Seq<char>,
    pub identifier: Seq<char>,
    pub pre_parenthesis_padding: Option<Seq<char>>,
    pub pre_brace_padding: Option<Seq<char>>,
}

/// The text of an optional padding: empty where the padding is absent.
pub open spec fn opt_padding_text(p: Option<Seq<char>>) -> Seq<char> {
    match p {
        Some(s) => s,
        None => Seq::empty(),
    }
}

/// The exact source text a function definition reconstructs to.
pub open spec fn spec_function_definition_text(fd: SpecFunctionDefinition) -> Seq<char> {
    "fn"@ + fd.pre_identifier_padding + fd.identifier + opt_padding_text(
        fd.pre_parenthesis_padding,
    ) + "("@ + ")"@ + opt_padding_text(fd.pre_brace_padding) + "{"@ + "}"@
}

/// The token at a position, where there is one, equals the given token.
pub open spec fn at_token(ts: Seq<SpecToken>, c: int, t: SpecToken) -> bool {
    0 <= c < ts.len() && ts[c] == t
}

/// The token at a position, where there is one, is a padding.
pub open spec fn at_padding(ts: Seq<SpecToken>, c: int) -> bool {
    0 <= c < ts.len() && ts[c] is Padding
}

/// The token at a position, where there is one, is an identifier.
pub open spec fn at_identifier(ts: Seq<SpecToken>, c: int) -> bool {
    0 <= c < ts.len() && ts[c] is Identifier
}

/// What parsing a function definition does with the front of a token
/// sequence: no definition starts here (`Ok(None)`, nothing consumed), a
/// definition over `c` consumed tokens, or an error after `c` consumed
/// tokens. Once the `fn` keyword is consumed, every later piece is mandatory.
pub open spec fn spec_parse_function_definition(ts: Seq<SpecToken>) -> Result<
    Option<(SpecFunctionDefinition, int)>,
    (SpecError, int),
> {
    if !at_token(ts, 0, SpecToken::Keyword(Keyword::Fn)) {
        Ok(None)
    } else if !at_padding(ts, 1) {
        Err((SpecError::Expected("padding"@), 1))
    } else if !at_identifier(ts, 2) {
        Err((SpecError::Expected("identifier"@), 2))
    } else {
        let c: int = if at_padding(ts, 3) {
            4
        } else {
            3
        };
        if !at_token(ts, c, SpecToken::Punctuation(Punctuation::LeftParenthesis)) {
            Err((SpecError::MissingToken(SpecToken::Punctuation(Punctuation::LeftParenthesis)), c))
        } else if !at_token(ts, c + 1, SpecToken::Punctuation(Punctuation::RightParenthesis)) {
            Err(
                (
                    SpecError::MissingToken(SpecToken::Punctuation(Punctuation::RightParenthesis)),
                    c + 1,
                ),
            )
        } else {
            let d: int = if at_padding(ts, c + 2) {
                c + 3
            } else {
                c + 2
            };
            if !at_token(ts, d, SpecToken::Punctuation(Punctuation::LeftBrace)) {
                Err((SpecError::MissingToken(SpecToken::Punctuation(Punctuation::LeftBrace)), d))
            } else if !at_token(ts, d + 1, SpecToken::Punctuation(Punctuation::RightBrace)) {
                Err(
                    (
                        SpecError::MissingToken(SpecToken::Punctuation(Punctuation::RightBrace)),
                        d + 1,
                    ),
                )
            } else {
                Ok(
                    Some(
                        (
                            SpecFunctionDefinition {
                                pre_identifier_padding: ts[1]->Padding_0,
                                identifier: ts[2]->Identifier_0,
                                pre_parenthesis_padding: if c == 4 {
                                    Some(ts[3]->Padding_0)
                                } else {
                                    None
                                },
                                pre_brace_padding: if d == c + 3 {
                                    Some(ts[c + 2]->Padding_0)
                                } else {
                                    None
                                },
                            },
                            d + 2,
                        ),
                    ),
                )
            }
        }
    }
}

/// A parsed definition consumes at least one token, never more than the
/// sequence holds, and reconstructs to exactly the text of the tokens it
/// consumed; an error never counts more tokens than the sequence holds.
pub proof fn lemma_spec_parse_function_definition(ts: Seq<SpecToken>)
    ensures
        spec_parse_function_definition(ts) matches Ok(Some(p)) ==> 0 < p.1 <= ts.len()
            && spec_function_definition_text(p.0) == spec_tokens_text(ts.take(p.1)),
        spec_parse_function_definition(ts) matches Err(e) ==> 0 < e.1 <= ts.len(),
{
    if spec_parse_function_definition(ts) matches Ok(Some(_p)) {
        let p = spec_parse_function_definition(ts)->Ok_0->Some_0;
        let c: int = if at_padding(ts, 3) {
            4
        } else {
            3
        };
        let d: int = if at_padding(ts, c + 2) {
            c + 3
        } else {
            c + 2
        };
        let n = d + 2;
        assert(ts.take(0) =~= Seq::<SpecToken>::empty());
        assert forall|i: int|
            0 <= i < n implies spec_tokens_text(ts.take(i + 1)) == spec_tokens_text(ts.take(i))
            + spec_token_text(#[trigger] ts[i]) by {
            crate::eureka::token::lemma_tokens_text_snoc(ts, i);
        }
        assert(spec_function_definition_text(p.0) =~= spec_tokens_text(ts.take(n)));
    }
}

/// What parsing a whole run of function definitions does: definitions in
/// order until the next token no longer starts one, or the first error, each
/// with the count of consumed tokens.
pub open spec fn spec_parse_function_definitions(ts: Seq<SpecToken>) -> Result<
    (Seq<SpecFunctionDefinition>, int),
    (SpecError, int),
>
    decreases ts.len(),
{
    match spec_parse_function_definition(ts) {
        Err(e) => Err(e),
        Ok(o) => match o {
            None => Ok((Seq::empty(), 0)),
            Some(p) => if 0 < p.1 <= ts.len() {
                match spec_parse_function_definitions(ts.skip(p.1)) {
                    Ok(q) => Ok((seq![p.0] + q.0, p.1 + q.1)),
                    Err(e) => Err((e.0, p.1 + e.1)),
                }
            } else {
                // A parsed definition always consumes within the sequence; see
                // lemma_spec_parse_function_definition.
                Ok((Seq::empty(), 0))
            },
        },
    }
}

/// An empty function definition: the `fn` keyword, mandatory padding, the
/// function's name, optional padding, `(`, `)`, optional padding, `{`, `}`.
/// The punctuators themselves are not stored; only the paddings and the name
/// are, which suffices to reconstruct the source exactly.
#[derive(Clone, Debug, Eq, Hash, PartialEq)]
pub struct FunctionDefinition {
    pub pre_identifier_padding: Padding,
    pub identifier: Identifier,
    pub pre_parenthesis_padding: Option<Padding>,
    pub pre_brace_padding: Option<Padding>,
}

impl View for FunctionDefinition {
    type V = SpecFunctionDefinition;

    open spec fn view(&self) -> SpecFunctionDefinition {
        SpecFunctionDefinition {
            pre_identifier_padding: self.pre_identifier_padding@,
            identifier: self.identifier@,
            pre_parenthesis_padding: match self.pre_parenthesis_padding {
                Some(p) => Some(p@),
                None => None,
            },
            pre_brace_padding: match self.pre_brace_padding {
                Some(p) => Some(p@),
                None => None,
            },
        }
    }
}

impl FunctionDefinition {
    /// Reconstructs the exact source text of this definition.
    pub fn unlex(&self) -> (r: String)
        ensures
            r@ == spec_function_definition_text(self@),
    {
        let mut text = String::from_str("fn");
        text.append(self.pre_identifier_padding.unlex());
        text.append(self.identifier.unlex());
        if let Some(padding) = &self.pre_parenthesis_padding {
            text.append(padding.unlex());
        }
        text.append("(");
        text.append(")");
        if let Some(padding) = &self.pre_brace_padding {
            text.append(padding.unlex());
        }
        text.append("{");
        text.append("}");
        proof {
            if self.pre_parenthesis_padding is None {
                assert(opt_padding_text(self@.pre_parenthesis_padding) =~= Seq::<char>::empty());
            }
            if self.pre_brace_padding is None {
                assert(opt_padding_text(self@.pre_brace_padding) =~= Seq::<char>::empty());
            }
            assert(text@ =~= spec_function_definition_text(self@));
        }
        text
    }

    /// Parses one function definition. Returns no definition (not an error)
    /// where the next token is not the `fn` keyword; once that keyword is
    /// consumed, every missing mandatory piece is an error at the exact
    /// position of the failure, with no backtracking.
    pub fn parse(tokens: &mut Tokens) -> (r: Result<Option<FunctionDefinition>, Error>)
        requires
            old(tokens).wf(),
        ensures
            final(tokens).wf(),
            match spec_parse_function_definition(old(tokens).toks()) {
                Ok(o) => match o {
                    None => r == Ok::<Option<FunctionDefinition>, Error>(None) && *final(tokens)
                        == *old(tokens),
                    Some(p) => r matches Ok(ro) && ro matches Some(fd) && fd@ == p.0
                        && final(tokens).toks() == old(tokens).toks().skip(p.1)
                        && final(tokens).advanced_over(
                        *old(tokens),
                        spec_tokens_text(old(tokens).toks().take(p.1)),
                    ),
                },
                Err(e) => r matches Err(err) && err@ == e.0 && final(tokens).toks() == old(
                    tokens,
                ).toks().skip(e.1) && final(tokens).advanced_over(
                    *old(tokens),
                    spec_tokens_text(old(tokens).toks().take(e.1)),
                ),
            },
    {
        let ghost ts = old(tokens).toks();
        proof {
            assert(ts.skip(0) =~= ts);
        }
        let front = tokens.peek();
        let fn_ahead = match front {
            Some(Token::Keyword(Keyword::Fn)) => true,
            _ => false,
        };
        proof {
            assert(fn_ahead == at_token(ts, 0, SpecToken::Keyword(Keyword::Fn)));
        }
        if !fn_ahead {
            return Ok(None);
        }
        tokens.pop();
        proof {
            crate::eureka::token::lemma_tokens_text_snoc(ts, 0);
            assert(ts.take(0) =~= Seq::<SpecToken>::empty());
            assert(Seq::<char>::empty() + spec_token_text(ts[0]) =~= spec_token_text(ts[0]));
            assert(spec_tokens_text(ts.take(1)) == spec_token_text(ts[0]));
            assert(tokens.toks() =~= ts.skip(1));
        }
        let ghost prev1 = *tokens;
        let pre_identifier_padding = match tokens.take::<Padding>() {
            Ok(padding) => padding,
            Err(e) => {
                proof {
                    if ts.len() > 1 {
                        assert(prev1.toks()[0] == ts[1]);
                    }
                }
                return Err(e);
            },
        };
        proof {
            assert(prev1.toks()[0] == ts[1]);
            lemma_advance_compose(*old(tokens), prev1, *tokens, ts, 1);
            assert(tokens.toks() =~= ts.skip(2));
        }
        let ghost prev2 = *tokens;
        let identifier = match tokens.take::<Identifier>() {
            Ok(identifier) => identifier,
            Err(e) => {
                proof {
                    if ts.len() > 2 {
                        assert(prev2.toks()[0] == ts[2]);
                    }
                }
                return Err(e);
            },
        };
        proof {
            assert(prev2.toks()[0] == ts[2]);
            lemma_advance_compose(*old(tokens), prev2, *tokens, ts, 2);
            assert(tokens.toks() =~= ts.skip(3));
        }
        let ghost prev3 = *tokens;
        let pre_parenthesis_padding = tokens.try_take::<Padding>();
        let ghost c: int = if at_padding(ts, 3) {
            4
        } else {
            3
        };
        proof {
            if ts.len() > 3 {
                assert(prev3.toks()[0] == ts[3]);
            }
            if at_padding(ts, 3) {
                lemma_advance_compose(*old(tokens), prev3, *tokens, ts, 3);
            }
            assert(tokens.toks() =~= ts.skip(c));
        }
        let ghost prevc = *tokens;
        match tokens.expect(Punctuator::LeftParenthesis) {
            Ok(_) => {},
            Err(e) => {
                proof {
                    if c < ts.len() {
                        assert(prevc.toks()[0] == ts[c]);
                    }
                }
                return Err(e);
            },
        }
        proof {
            assert(prevc.toks()[0] == ts[c]);
            lemma_advance_compose(*old(tokens), prevc, *tokens, ts, c);
            assert(tokens.toks() =~= ts.skip(c + 1));
        }
        let ghost prevc1 = *tokens;
        match tokens.expect(Punctuator::RightParenthesis) {
            Ok(_) => {},
            Err(e) => {
                proof {
                    if c + 1 < ts.len() {
                        assert(prevc1.toks()[0] == ts[c + 1]);
                    }
                }
                return Err(e);
            },
        }
        proof {
            assert(prevc1.toks()[0] == ts[c + 1]);
            lemma_advance_compose(*old(tokens), prevc1, *tokens, ts, c + 1);
            assert(tokens.toks() =~= ts.skip(c + 2));
        }
        let ghost prevc2 = *tokens;
        let pre_brace_padding = tokens.try_take::<Padding>();
        let ghost d: int = if at_padding(ts, c + 2) {
            c + 3
        } else {
            c + 2
        };
        proof {
            if c + 2 < ts.len() {
                assert(prevc2.toks()[0] == ts[c + 2]);
            }
            if at_padding(ts, c + 2) {
                lemma_advance_compose(*old(tokens), prevc2, *tokens, ts, c + 2);
            }
            assert(tokens.toks() =~= ts.skip(d));
        }
        let ghost prevd = *tokens;
        match tokens.expect(Punctuator::LeftBrace) {
            Ok(_) => {},
            Err(e) => {
                proof {
                    if d < ts.len() {
                        assert(prevd.toks()[0] == ts[d]);
                    }
                }
                return Err(e);
            },
        }
        proof {
            assert(prevd.toks()[0] == ts[d]);
            lemma_advance_compose(*old(tokens), prevd, *tokens, ts, d);
            assert(tokens.toks() =~= ts.skip(d + 1));
        }
        let ghost prevd1 = *tokens;
        match tokens.expect(Punctuator::RightBrace) {
            Ok(_) => {},
            Err(e) => {
                proof {
                    if d + 1 < ts.len() {
                        assert(prevd1.toks()[0] == ts[d + 1]);
                    }
                }
                return Err(e);
            },
        }
        proof {
            assert(prevd1.toks()[0] == ts[d + 1]);
            lemma_advance_compose(*old(tokens), prevd1, *tokens, ts, d + 1);
            assert(tokens.toks() =~= ts.skip(d + 2));
        }
        Ok(Some(
            FunctionDefinition {
                pre_identifier_padding,
                identifier,
                pre_parenthesis_padding,
                pre_brace_padding,
            },
        ))
    }
}

} // verus!
