use crate::communication::{Error, SpecError};
use crate::eureka::syntax_tree::definition::{
    spec_definition_text, spec_parse_definition, Definition, SpecDefinition,
};
use crate::eureka::syntax_tree::function_definition::{at_padding, opt_padding_text};
use crate::eureka::token::{spec_tokens_text, Padding, SpecToken};
use crate::eureka::tokens::{lemma_advance_compose, Tokens};
use vstd::prelude::*;
use vstd::string::StringExecFns;

verus! {

/// The mathematical value of a padded definition.
pub struct SpecPaddedDefinition {
    pub definition: SpecDefinition,
    pub post_definition_padding: Option<Seq<char>>,
}

/// The exact source text a padded definition reconstructs to.
pub open spec fn spec_padded_definition_text(pd: SpecPaddedDefinition) -> Seq<char> {
    spec_definition_text(pd.definition) + opt_padding_text(pd.post_definition_padding)
}

/// What parsing a padded definition does with the front of a token sequence:
/// a definition, then whatever padding follows it.
pub open spec fn spec_parse_padded_definition(ts: Seq<SpecToken>) -> Result<
    Option<(SpecPaddedDefinition, int)>,
    (SpecError, int),
> {
    match spec_parse_definition(ts) {
        Ok(o) => match o {
            None => Ok(None),
            Some(p) => {
                let c2: int = if at_padding(ts, p.1) {
                    p.1 + 1
                } else {
                    p.1
                };
                Ok(
                    Some(
                        (
                            SpecPaddedDefinition {
                                definition: p.0,
                                post_definition_padding: if c2 == p.1 + 1 {
                                    Some(ts[p.1]->Padding_0)
                                } else {
                                    None
                                },
                            },
                            c2,
                        ),
                    ),
                )
            },
        },
        Err(e) => Err(e),
    }
}

/// A parsed padded definition consumes at least one token and never more than
/// the sequence holds, and reconstructs to exactly the text of the tokens it
/// consumed; an error never counts more tokens than the sequence holds.
pub proof fn lemma_spec_parse_padded_definition(ts: Seq<SpecToken>)
    ensures
        spec_parse_padded_definition(ts) matches Ok(Some(p)) ==> 0 < p.1 <= ts.len()
            && spec_padded_definition_text(p.0) == spec_tokens_text(ts.take(p.1)),
        spec_parse_padded_definition(ts) matches Err(e) ==> 0 < e.1 <= ts.len(),
{
    crate::eureka::syntax_tree::function_definition::lemma_spec_parse_function_definition(ts);
    if spec_parse_padded_definition(ts) matches Ok(Some(p)) {
        let q = spec_parse_definition(ts)->Ok_0->Some_0;
        if at_padding(ts, q.1) {
            crate::eureka::token::lemma_tokens_text_snoc(ts, q.1);
        } else {
            assert(spec_tokens_text(ts.take(q.1)) + Seq::<char>::empty() =~= spec_tokens_text(
                ts.take(q.1),
            ));
        }
    }
}

/// A definition together with the padding that follows it, so that a module
/// can reconstruct the text between definitions exactly.
#[derive(Clone, Debug, Eq, Hash, PartialEq)]
pub struct PaddedDefinition {
    pub definition: Definition,
    pub post_definition_padding: Option<Padding>,
}

impl View for PaddedDefinition {
    type V = SpecPaddedDefinition;

    open spec fn view(&self) -> SpecPaddedDefinition {
        SpecPaddedDefinition {
            definition: self.definition@,
            post_definition_padding: match self.post_definition_padding {
                Some(p) => Some(p@),
                None => None,
            },
        }
    }
}

impl PaddedDefinition {
    /// Reconstructs the exact source text of this padded definition.
    pub fn unlex(&self) -> (r: String)
        ensures
            r@ == spec_padded_definition_text(self@),
    {
        let mut text = self.definition.unlex();
        if let Some(padding) = &self.post_definition_padding {
            text.append(padding.unlex());
        }
        proof {
            if self.post_definition_padding is None {
                assert(opt_padding_text(self@.post_definition_padding) =~= Seq::<char>::empty());
            }
            assert(text@ =~= spec_padded_definition_text(self@));
        }
        text
    }

    /// Parses one definition and the padding after it, if any; no definition
    /// starting here is no error.
    pub fn parse(tokens: &mut Tokens) -> (r: Result<Option<PaddedDefinition>, Error>)
        requires
            old(tokens).wf(),
        ensures
            final(tokens).wf(),
            match spec_parse_padded_definition(old(tokens).toks()) {
                Ok(o) => match o {
                    None => r == Ok::<Option<PaddedDefinition>, Error>(None) && *final(tokens)
                        == *old(tokens),
                    Some(p) => r matches Ok(ro) && ro matches Some(pd) && pd@ == p.0
                        && final(tokens).toks() == old(tokens).toks().skip(p.1)
                        && final(tokens).advanced_over(
                        *old(tokens),
                        spec_tokens_text(old(tokens).toks().take(p.1)),
                    ),
                },
                Err(e) => r matches Err(err) && err@ == e.0 && final(tokens).toks() == old(
                    tokens,
                ).toks().skip(e.1) && final(tokens).advanced_over(
                    *old(tokens),
                    spec_tokens_text(old(tokens).toks().take(e.1)),
                ),
            },
    {
        let ghost ts = old(tokens).toks();
        let definition = match Definition::parse(tokens) {
            Ok(Some(definition)) => definition,
            Ok(None) => {
                return Ok(None);
            },
            Err(e) => {
                return Err(e);
            },
        };
        let ghost c = spec_parse_definition(ts)->Ok_0->Some_0.1;
        let ghost prev = *tokens;
        let post_definition_padding = tokens.try_take::<Padding>();
        proof {
            crate::eureka::syntax_tree::function_definition::lemma_spec_parse_function_definition(
                ts,
            );
            if at_padding(ts, c) {
                assert(prev.toks()[0] == ts[c]);
                lemma_advance_compose(*old(tokens), prev, *tokens, ts, c);
                assert(tokens.toks() =~= ts.skip(c + 1));
            } else {
                if c < ts.len() {
                    assert(prev.toks()[0] == ts[c]);
                }
            }
        }
        Ok(Some(PaddedDefinition { definition, post_definition_padding }))
    }
}

} // verus!
