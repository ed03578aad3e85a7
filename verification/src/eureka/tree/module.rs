use crate::communication::{Error, SpecError};
use crate::eureka::syntax_tree::definition::SpecDefinition;
use crate::eureka::syntax_tree::function_definition::at_padding;
use crate::eureka::token::{spec_tokens_text, Padding, SpecToken, Token};
use crate::eureka::tokens::{lemma_advance_compose, lemma_advance_compose_many, Tokens};
use crate::eureka::tree::{lemma_spec_parse_definition, spec_parse_definition, spec_parse_definitions, Definition};
use vstd::prelude::*;

verus! {

/// The mathematical value of a module under this layout.
pub struct SpecModule {
    pub definitions: Seq<SpecDefinition>,
    pub post_definitions_padding: Option<Seq<char>>,
}

/// What parsing a module does under this layout: a run of bare definitions,
/// then optional trailing padding, and the input must then be exhausted; any
/// leftover token is an error naming that token.
pub open spec fn spec_parse_module(ts: Seq<SpecToken>) -> Result<SpecModule, (SpecError, int)> {
    match spec_parse_definitions(ts) {
        Err(e) => Err(e),
        Ok(p) => {
            let d: int = if at_padding(ts, p.1) {
                p.1 + 1
            } else {
                p.1
            };
            let post: Option<Seq<char>> = if d == p.1 + 1 {
                Some(ts[p.1]->Padding_0)
            } else {
                None
            };
            if d == ts.len() {
                Ok(SpecModule { definitions: p.0, post_definitions_padding: post })
            } else {
                Err((SpecError::UnexpectedToken(ts[d]), d))
            }
        },
    }
}

/// A parsed run of bare definitions stays within the sequence.
pub proof fn lemma_spec_parse_definitions(ts: Seq<SpecToken>)
    ensures
        spec_parse_definitions(ts) matches Ok(p) ==> 0 <= p.1 <= ts.len(),
        spec_parse_definitions(ts) matches Err(e) ==> 0 < e.1 <= ts.len(),
    decreases ts.len(),
{
    lemma_spec_parse_definition(ts);
    match spec_parse_definition(ts) {
        Err(_) => {},
        Ok(o) => match o {
            None => {},
            Some(p) => {
                lemma_spec_parse_definitions(ts.skip(p.1));
            },
        },
    }
}

/// A whole source file under this layout: the definitions in order, then the
/// padding after the last of them, if any.
#[derive(Clone, Debug, Eq, Hash, PartialEq)]
pub struct Module {
    pub definitions: Vec<Definition>,
    pub post_definitions_padding: Option<Padding>,
}

impl View for Module {
    type V = SpecModule;

    open spec fn view(&self) -> SpecModule {
        SpecModule {
            definitions: Seq::new(self.definitions@.len(), |i: int| self.definitions@[i]@),
            post_definitions_padding: match self.post_definitions_padding {
                Some(p) => Some(p@),
                None => None,
            },
        }
    }
}

impl Module {
    /// Parses a whole module under this layout: zero or more definitions, the
    /// padding after them, then the token stream must be exhausted.
    #[verifier::rlimit(80)]
    pub fn parse(tokens: &mut Tokens) -> (r: Result<Module, Error>)
        requires
            old(tokens).wf(),
        ensures
            final(tokens).wf(),
            match spec_parse_module(old(tokens).toks()) {
                Ok(m) => r matches Ok(module) && module@ == m && final(tokens).toks().len() == 0
                    && final(tokens).advanced_over(
                    *old(tokens),
                    spec_tokens_text(old(tokens).toks()),
                ),
                Err(e) => r matches Err(err) && err@ == e.0 && final(tokens).toks() == old(
                    tokens,
                ).toks().skip(e.1) && final(tokens).advanced_over(
                    *old(tokens),
                    spec_tokens_text(old(tokens).toks().take(e.1)),
                ),
            },
    {
        let ghost ts = old(tokens).toks();
        let mut definitions: Vec<Definition> = Vec::new();
        let ghost mut c: int = 0;
        proof {
            assert(ts.skip(0) =~= ts);
            assert(ts.take(0) =~= Seq::<SpecToken>::empty());
        }
        loop
            invariant
                tokens.wf(),
                ts == old(tokens).toks(),
                0 <= c <= ts.len(),
                tokens.toks() == ts.skip(c),
                tokens.advanced_over(*old(tokens), spec_tokens_text(ts.take(c))),
                definitions@.len() <= c,
                spec_parse_definitions(ts) == (match spec_parse_definitions(ts.skip(c)) {
                    Ok(q) => Ok::<(Seq<SpecDefinition>, int), (SpecError, int)>(
                        (Seq::new(definitions@.len(), |i: int| definitions@[i]@) + q.0, c + q.1),
                    ),
                    Err(e) => Err((e.0, c + e.1)),
                }),
            ensures
                tokens.wf(),
                ts == old(tokens).toks(),
                0 <= c <= ts.len(),
                tokens.toks() == ts.skip(c),
                tokens.advanced_over(*old(tokens), spec_tokens_text(ts.take(c))),
                spec_parse_definitions(ts) == Ok::<(Seq<SpecDefinition>, int), (SpecError, int)>(
                    (Seq::new(definitions@.len(), |i: int| definitions@[i]@), c),
                ),
            decreases ts.len() - c,
        {
            let ghost t = tokens.toks();
            let ghost acc = Seq::new(definitions@.len(), |i: int| definitions@[i]@);
            proof {
                lemma_spec_parse_definition(t);
            }
            let ghost prev = *tokens;
            match Definition::parse(tokens) {
                Ok(Some(definition)) => {
                    definitions.push(definition);
                    proof {
                        let k = spec_parse_definition(t)->Ok_0->Some_0.1;
                        assert(ts.skip(c).skip(k) =~= ts.skip(c + k));
                        assert(ts.skip(c).take(k) =~= t.take(k));
                        lemma_advance_compose_many(*old(tokens), prev, *tokens, ts, c, k);
                        match spec_parse_definitions(ts.skip(c + k)) {
                            Ok(q2) => {
                                assert(acc + (seq![definitions@[definitions@.len() - 1]@] + q2.0)
                                    =~= (acc + seq![definitions@[definitions@.len() - 1]@]) + q2.0);
                            },
                            Err(_) => {},
                        }
                        assert(acc + seq![definitions@[definitions@.len() - 1]@] =~= Seq::new(
                            definitions@.len(),
                            |i: int| definitions@[i]@,
                        ));
                        c = c + k;
                    }
                },
                Ok(None) => {
                    proof {
                        assert(spec_parse_definitions(ts.skip(c)) == Ok::<
                            (Seq<SpecDefinition>, int),
                            (SpecError, int),
                        >((Seq::<SpecDefinition>::empty(), 0)));
                        assert(acc + Seq::<SpecDefinition>::empty() =~= acc);
                    }
                    break ;
                },
                Err(e) => {
                    proof {
                        let k = spec_parse_definition(t)->Err_0.1;
                        assert(ts.skip(c).skip(k) =~= ts.skip(c + k));
                        assert(ts.skip(c).take(k) =~= t.take(k));
                        lemma_advance_compose_many(*old(tokens), prev, *tokens, ts, c, k);
                        assert(tokens.toks() =~= ts.skip(c + k));
                    }
                    return Err(e);
                },
            }
        }
        let ghost prevp = *tokens;
        let post_definitions_padding = tokens.try_take::<Padding>();
        let ghost d: int = if at_padding(ts, c) {
            c + 1
        } else {
            c
        };
        proof {
            if c < ts.len() {
                assert(prevp.toks()[0] == ts[c]);
            }
            if at_padding(ts, c) {
                lemma_advance_compose(*old(tokens), prevp, *tokens, ts, c);
                assert(tokens.toks() =~= ts.skip(c + 1));
            }
        }
        match tokens.peek() {
            Some(token) => {
                proof {
                    assert(token@ == ts[d]);
                }
                Err(Error::UnexpectedToken(token))
            },
            None => {
                proof {
                    assert(d == ts.len());
                    assert(ts.take(d) =~= ts);
                }
                Ok(Module { definitions, post_definitions_padding })
            },
        }
    }
}

} // verus!
