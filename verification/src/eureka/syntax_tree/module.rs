use crate::communication::{Error, SpecError};
use crate::eureka::syntax_tree::function_definition::{at_padding, opt_padding_text};
use crate::eureka::syntax_tree::padded_definition::{
    lemma_spec_parse_padded_definition, spec_padded_definition_text, spec_parse_padded_definition,
    PaddedDefinition, SpecPaddedDefinition,
};
use crate::eureka::syntax_tree::parse;
use crate::eureka::token::{spec_tokens_text, Padding, SpecToken, Token};
use crate::eureka::tokens::{lemma_advance_compose_many, Tokens};
use vstd::prelude::*;
use vstd::string::StringExecFns;

verus! {

/// The mathematical value of a module.
pub struct SpecModule {
    pub pre_definitions_padding: Option<Seq<char>>,
    pub definitions: Seq<SpecPaddedDefinition>,
}

/// The concatenated source text of a run of padded definitions.
pub open spec fn spec_padded_definitions_text(pds: Seq<SpecPaddedDefinition>) -> Seq<char>
    decreases pds.len(),
{
    if pds.len() == 0 {
        Seq::empty()
    } else {
        spec_padded_definition_text(pds[0]) + spec_padded_definitions_text(pds.drop_first())
    }
}

/// The exact source text a module reconstructs to.
pub open spec fn spec_module_text(m: SpecModule) -> Seq<char> {
    opt_padding_text(m.pre_definitions_padding) + spec_padded_definitions_text(m.definitions)
}

/// What parsing a run of padded definitions does: definitions in order until
/// the next token no longer starts one, or the first error, each with the
/// count of consumed tokens.
pub open spec fn spec_parse_padded_definitions(ts: Seq<SpecToken>) -> Result<
    (Seq<SpecPaddedDefinition>, int),
    (SpecError, int),
>
    decreases ts.len(),
{
    match spec_parse_padded_definition(ts) {
        Err(e) => Err(e),
        Ok(o) => match o {
            None => Ok((Seq::empty(), 0)),
            Some(p) => if 0 < p.1 <= ts.len() {
                match spec_parse_padded_definitions(ts.skip(p.1)) {
                    Ok(q) => Ok((seq![p.0] + q.0, p.1 + q.1)),
                    Err(e) => Err((e.0, p.1 + e.1)),
                }
            } else {
                // A parsed definition always consumes within the sequence; see
                // lemma_spec_parse_padded_definition.
                Ok((Seq::empty(), 0))
            },
        },
    }
}

/// A parsed run covers exactly the consumed tokens' text; counts stay within
/// the sequence.
pub proof fn lemma_spec_parse_padded_definitions(ts: Seq<SpecToken>)
    ensures
        spec_parse_padded_definitions(ts) matches Ok(p) ==> 0 <= p.1 <= ts.len()
            && spec_padded_definitions_text(p.0) == spec_tokens_text(ts.take(p.1)),
        spec_parse_padded_definitions(ts) matches Err(e) ==> 0 < e.1 <= ts.len(),
    decreases ts.len(),
{
    lemma_spec_parse_padded_definition(ts);
    match spec_parse_padded_definition(ts) {
        Err(_) => {},
        Ok(o) => match o {
            None => {
                assert(ts.take(0) =~= Seq::<SpecToken>::empty());
                assert(spec_padded_definitions_text(Seq::<SpecPaddedDefinition>::empty())
                    =~= spec_tokens_text(ts.take(0)));
            },
            Some(p) => {
                lemma_spec_parse_padded_definitions(ts.skip(p.1));
                match spec_parse_padded_definitions(ts.skip(p.1)) {
                    Ok(q) => {
                        let all = seq![p.0] + q.0;
                        assert(all.drop_first() =~= q.0);
                        assert(all[0] == p.0);
                        assert(ts.take(p.1 + q.1) =~= ts.take(p.1) + ts.skip(p.1).take(q.1));
                        crate::eureka::token::lemma_tokens_text_concat(
                            ts.take(p.1),
                            ts.skip(p.1).take(q.1),
                        );
                        assert(spec_padded_definitions_text(all) == spec_padded_definition_text(
                            p.0,
                        ) + spec_padded_definitions_text(q.0));
                    },
                    Err(_) => {},
                }
            },
        },
    }
}

/// What parsing a module does with a whole token sequence: optional leading
/// padding, then a run of padded definitions, which must exhaust the input;
/// any leftover token is an error naming that token.
pub open spec fn spec_parse_module(ts: Seq<SpecToken>) -> Result<SpecModule, (SpecError, int)> {
    let c0: int = if at_padding(ts, 0) {
        1
    } else {
        0
    };
    let lead: Option<Seq<char>> = if c0 == 1 {
        Some(ts[0]->Padding_0)
    } else {
        None
    };
    match spec_parse_padded_definitions(ts.skip(c0)) {
        Err(e) => Err((e.0, c0 + e.1)),
        Ok(p) => if c0 + p.1 == ts.len() {
            Ok(SpecModule { pre_definitions_padding: lead, definitions: p.0 })
        } else {
            Err((SpecError::UnexpectedToken(ts[c0 + p.1]), c0 + p.1))
        },
    }
}

/// A parsed module reconstructs to exactly the whole token sequence's text:
/// parsing is lossless.
pub proof fn lemma_spec_parse_module(ts: Seq<SpecToken>)
    ensures
        spec_parse_module(ts) matches Ok(m) ==> spec_module_text(m) == spec_tokens_text(ts),
        spec_parse_module(ts) matches Err(e) ==> 0 <= e.1 <= ts.len(),
{
    let c0: int = if at_padding(ts, 0) {
        1
    } else {
        0
    };
    lemma_spec_parse_padded_definitions(ts.skip(c0));
    match spec_parse_padded_definitions(ts.skip(c0)) {
        Ok(p) => {
            if c0 + p.1 == ts.len() {
                assert(ts.skip(c0).take(p.1) =~= ts.skip(c0));
                assert(ts.take(c0) + ts.skip(c0) =~= ts);
                crate::eureka::token::lemma_tokens_text_concat(ts.take(c0), ts.skip(c0));
                if c0 == 1 {
                    crate::eureka::token::lemma_tokens_text_snoc(ts, 0);
                    assert(ts.take(0) =~= Seq::<SpecToken>::empty());
                    assert(Seq::<char>::empty() + crate::eureka::token::spec_token_text(ts[0])
                        =~= crate::eureka::token::spec_token_text(ts[0]));
                } else {
                    assert(ts.take(0) =~= Seq::<SpecToken>::empty());
                    assert(Seq::<char>::empty() + spec_tokens_text(ts.skip(0)) =~= spec_tokens_text(
                        ts.skip(0),
                    ));
                }
            }
        },
        Err(_) => {},
    }
}

/// A whole source file: optional leading padding, then the definitions in
/// order, each with its trailing padding. Concatenating, in order, the text of
/// every padding and token the tree implies reconstructs the source exactly.
#[derive(Clone, Debug, Eq, Hash, PartialEq)]
pub struct Module {
    pub pre_definitions_padding: Option<Padding>,
    pub definitions: Vec<PaddedDefinition>,
}

impl View for Module {
    type V = SpecModule;

    open spec fn view(&self) -> SpecModule {
        SpecModule {
            pre_definitions_padding: match self.pre_definitions_padding {
                Some(p) => Some(p@),
                None => None,
            },
            definitions: Seq::new(self.definitions@.len(), |i: int| self.definitions@[i]@),
        }
    }
}

/// Extending a run of padded definitions by one appends its text.
proof fn lemma_padded_definitions_text_snoc(pds: Seq<SpecPaddedDefinition>, i: int)
    requires
        0 <= i < pds.len(),
    ensures
        spec_padded_definitions_text(pds.take(i + 1)) == spec_padded_definitions_text(pds.take(i))
            + spec_padded_definition_text(pds[i]),
    decreases i,
{
    if i == 0 {
        assert(pds.take(1).drop_first() =~= Seq::<SpecPaddedDefinition>::empty());
        assert(pds.take(0) =~= Seq::<SpecPaddedDefinition>::empty());
        assert(pds.take(1)[0] == pds[0]);
        assert(spec_padded_definitions_text(Seq::<SpecPaddedDefinition>::empty()) =~= Seq::<
            char,
        >::empty());
        assert(spec_padded_definitions_text(pds.take(1)) =~= spec_padded_definition_text(pds[0]));
        assert(Seq::<char>::empty() + spec_padded_definition_text(pds[0])
            =~= spec_padded_definition_text(pds[0]));
    } else {
        assert(pds.take(i + 1)[0] == pds[0]);
        assert(pds.take(i)[0] == pds[0]);
        assert(pds.take(i + 1).drop_first() =~= pds.drop_first().take(i));
        assert(pds.take(i).drop_first() =~= pds.drop_first().take(i - 1));
        assert(pds.drop_first()[i - 1] == pds[i]);
        lemma_padded_definitions_text_snoc(pds.drop_first(), i - 1);
        assert(spec_padded_definition_text(pds[0]) + (spec_padded_definitions_text(
            pds.drop_first().take(i - 1),
        ) + spec_padded_definition_text(pds[i])) =~= (spec_padded_definition_text(pds[0])
            + spec_padded_definitions_text(pds.drop_first().take(i - 1)))
            + spec_padded_definition_text(pds[i]));
    }
}

impl Module {
    /// Reconstructs the exact original source this module was parsed from.
    pub fn unlex(&self) -> (r: String)
        ensures
            r@ == spec_module_text(self@),
    {
        let mut text = String::new();
        if let Some(padding) = &self.pre_definitions_padding {
            text.append(padding.unlex());
        }
        proof {
            if self.pre_definitions_padding is None {
                assert(text@ =~= opt_padding_text(self@.pre_definitions_padding));
            }
        }
        let ghost pds = self@.definitions;
        let mut i: usize = 0;
        proof {
            assert(pds.take(0) =~= Seq::<SpecPaddedDefinition>::empty());
            assert(text@ + Seq::<char>::empty() =~= text@);
        }
        while i < self.definitions.len()
            invariant
                0 <= i <= self.definitions@.len(),
                pds == self@.definitions,
                pds.len() == self.definitions@.len(),
                text@ == opt_padding_text(self@.pre_definitions_padding)
                    + spec_padded_definitions_text(pds.take(i as int)),
            decreases self.definitions@.len() - i,
        {
            let part = self.definitions[i].unlex();
            text.append(part.as_str());
            proof {
                lemma_padded_definitions_text_snoc(pds, i as int);
                assert(pds[i as int] == self.definitions@[i as int]@);
                assert((opt_padding_text(self@.pre_definitions_padding)
                    + spec_padded_definitions_text(pds.take(i as int)))
                    + spec_padded_definition_text(pds[i as int]) =~= opt_padding_text(
                    self@.pre_definitions_padding,
                ) + spec_padded_definitions_text(pds.take(i as int + 1)));
            }
            i += 1;
        }
        proof {
            assert(pds.take(pds.len() as int) =~= pds);
        }
        text
    }

    /// Parses a whole module: optional leading padding, zero or more padded
    /// definitions, then the token stream must be exhausted. Any leftover
    /// token, and any error below, surfaces at its exact position, with the
    /// stream left at the point of failure.
    #[verifier::rlimit(80)]
    pub fn parse(tokens: &mut Tokens) -> (r: Result<Module, Error>)
        requires
            old(tokens).wf(),
        ensures
            final(tokens).wf(),
            match spec_parse_module(old(tokens).toks()) {
                Ok(m) => r matches Ok(module) && module@ == m && final(tokens).toks().len() == 0
                    && final(tokens).advanced_over(
                    *old(tokens),
                    spec_tokens_text(old(tokens).toks()),
                ),
                Err(e) => r matches Err(err) && err@ == e.0 && final(tokens).toks() == old(
                    tokens,
                ).toks().skip(e.1) && final(tokens).advanced_over(
                    *old(tokens),
                    spec_tokens_text(old(tokens).toks().take(e.1)),
                ),
            },
    {
        let ghost ts = old(tokens).toks();
        let ghost c0: int = if at_padding(ts, 0) {
            1
        } else {
            0
        };
        proof {
            assert(ts.skip(0) =~= ts);
            assert(ts.take(0) =~= Seq::<SpecToken>::empty());
        }
        let ghost prev0 = *tokens;
        let pre_definitions_padding = parse::optional::<Padding>(tokens);
        proof {
            if at_padding(ts, 0) {
                crate::eureka::token::lemma_tokens_text_snoc(ts, 0);
                assert(Seq::<char>::empty() + crate::eureka::token::spec_token_text(ts[0])
                    =~= crate::eureka::token::spec_token_text(ts[0]));
            }
            assert(tokens.toks() =~= ts.skip(c0));
        }
        let ghost ts1 = ts.skip(c0);
        let mut definitions: Vec<PaddedDefinition> = Vec::new();
        let ghost mut c: int = 0;
        proof {
            assert(ts1.skip(0) =~= ts1);
        }
        loop
            invariant
                tokens.wf(),
                ts == old(tokens).toks(),
                c0 == if at_padding(ts, 0) {
                    1int
                } else {
                    0int
                },
                ts1 == ts.skip(c0),
                0 <= c <= ts1.len(),
                ts1.len() == ts.len() - c0,
                tokens.toks() == ts1.skip(c),
                tokens.advanced_over(*old(tokens), spec_tokens_text(ts.take(c0 + c))),
                definitions@.len() <= c,
                spec_parse_padded_definitions(ts1) == (match spec_parse_padded_definitions(
                    ts1.skip(c),
                ) {
                    Ok(q) => Ok::<(Seq<SpecPaddedDefinition>, int), (SpecError, int)>(
                        (Seq::new(definitions@.len(), |i: int| definitions@[i]@) + q.0, c + q.1),
                    ),
                    Err(e) => Err((e.0, c + e.1)),
                }),
            ensures
                tokens.wf(),
                ts == old(tokens).toks(),
                c0 == if at_padding(ts, 0) {
                    1int
                } else {
                    0int
                },
                ts1 == ts.skip(c0),
                0 <= c <= ts1.len(),
                tokens.toks() == ts1.skip(c),
                tokens.advanced_over(*old(tokens), spec_tokens_text(ts.take(c0 + c))),
                spec_parse_padded_definitions(ts1) == Ok::<
                    (Seq<SpecPaddedDefinition>, int),
                    (SpecError, int),
                >((Seq::new(definitions@.len(), |i: int| definitions@[i]@), c)),
            decreases ts1.len() - c,
        {
            let ghost t = tokens.toks();
            let ghost acc = Seq::new(definitions@.len(), |i: int| definitions@[i]@);
            proof {
                lemma_spec_parse_padded_definition(t);
            }
            let ghost prev = *tokens;
            match PaddedDefinition::parse(tokens) {
                Ok(Some(pd)) => {
                    definitions.push(pd);
                    proof {
                        let k = spec_parse_padded_definition(t)->Ok_0->Some_0.1;
                        assert(ts1.skip(c).skip(k) =~= ts1.skip(c + k));
                        assert(ts.skip(c0 + c).take(k) =~= t.take(k));
                        lemma_advance_compose_many(
                            *old(tokens),
                            prev,
                            *tokens,
                            ts,
                            c0 + c,
                            k,
                        );
                        match spec_parse_padded_definitions(ts1.skip(c + k)) {
                            Ok(q2) => {
                                assert(acc + (seq![pd@] + q2.0) =~= (acc + seq![pd@]) + q2.0);
                            },
                            Err(_) => {},
                        }
                        assert(acc + seq![pd@] =~= Seq::new(
                            definitions@.len(),
                            |i: int| definitions@[i]@,
                        ));
                        c = c + k;
                    }
                },
                Ok(None) => {
                    proof {
                        assert(spec_parse_padded_definitions(ts1.skip(c)) == Ok::<
                            (Seq<SpecPaddedDefinition>, int),
                            (SpecError, int),
                        >((Seq::<SpecPaddedDefinition>::empty(), 0)));
                        assert(acc + Seq::<SpecPaddedDefinition>::empty() =~= acc);
                    }
                    break ;
                },
                Err(e) => {
                    proof {
                        let k = spec_parse_padded_definition(t)->Err_0.1;
                        assert(ts1.skip(c).skip(k) =~= ts1.skip(c + k));
                        assert(ts.skip(c0 + c).take(k) =~= t.take(k));
                        lemma_advance_compose_many(
                            *old(tokens),
                            prev,
                            *tokens,
                            ts,
                            c0 + c,
                            k,
                        );
                        assert(tokens.toks() =~= ts.skip(c0 + c + k));
                    }
                    return Err(e);
                },
            }
        }
        match tokens.peek() {
            Some(token) => {
                proof {
                    assert(token@ == ts[c0 + c]);
                }
                Err(Error::UnexpectedToken(token))
            },
            None => {
                proof {
                    assert(c0 + c == ts.len());
                    assert(ts.take(c0 + c) =~= ts);
                }
                Ok(Module { pre_definitions_padding, definitions })
            },
        }
    }
}

} // verus!
