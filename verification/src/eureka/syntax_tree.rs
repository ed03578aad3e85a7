//! The format-preserving syntax tree and its recursive-descent parser: a
//! module of padded definitions, each definition carrying the exact padding
//! around its fixed tokens, so that the original source can be reconstructed
//! byte for byte.

pub mod definition;
pub mod function_definition;
pub mod module;
pub mod padded_definition;
pub mod parse;

pub use definition::Definition;
pub use function_definition::FunctionDefinition;
pub use module::Module;
pub use padded_definition::PaddedDefinition;

use crate::communication::{Error, SpecError};
use crate::eureka::token::spec_tokens_text;
use crate::eureka::tokens::{lemma_advance_compose_many, Tokens};
use function_definition::{
    lemma_spec_parse_function_definition, spec_parse_function_definition,
    spec_parse_function_definitions, SpecFunctionDefinition,
};
use vstd::prelude::*;

verus! {

/// Parses function definitions until the next token no longer starts one,
/// collecting them in order; the first error leaves the stream exactly at the
/// point of failure.
pub fn zero_or_more(tokens: &mut Tokens) -> (r: Result<Vec<FunctionDefinition>, Error>)
    requires
        old(tokens).wf(),
    ensures
        final(tokens).wf(),
        match spec_parse_function_definitions(old(tokens).toks()) {
            Ok(p) => r matches Ok(fds) && fds@.len() == p.0.len() && (forall|i: int|
                0 <= i < p.0.len() ==> #[trigger] fds@[i]@ == p.0[i]) && final(tokens).toks()
                == old(tokens).toks().skip(p.1) && final(tokens).advanced_over(
                *old(tokens),
                spec_tokens_text(old(tokens).toks().take(p.1)),
            ),
            Err(e) => r matches Err(err) && err@ == e.0 && final(tokens).toks() == old(
                tokens,
            ).toks().skip(e.1) && final(tokens).advanced_over(
                *old(tokens),
                spec_tokens_text(old(tokens).toks().take(e.1)),
            ),
        },
{
    let ghost ts = old(tokens).toks();
    let mut result: Vec<FunctionDefinition> = Vec::new();
    let ghost mut c: int = 0;
    proof {
        assert(ts.skip(0) =~= ts);
        assert(ts.take(0) =~= Seq::<crate::eureka::token::SpecToken>::empty());
    }
    loop
        invariant
            tokens.wf(),
            0 <= c <= ts.len(),
            ts == old(tokens).toks(),
            tokens.toks() == ts.skip(c),
            tokens.advanced_over(*old(tokens), spec_tokens_text(ts.take(c))),
            result@.len() <= c,
            spec_parse_function_definitions(ts) == (match spec_parse_function_definitions(
                ts.skip(c),
            ) {
                Ok(q) => Ok::<(Seq<SpecFunctionDefinition>, int), (SpecError, int)>(
                    (Seq::new(result@.len(), |i: int| result@[i]@) + q.0, c + q.1),
                ),
                Err(e) => Err((e.0, c + e.1)),
            }),
        ensures
            tokens.wf(),
            0 <= c <= ts.len(),
            ts == old(tokens).toks(),
            tokens.toks() == ts.skip(c),
            tokens.advanced_over(*old(tokens), spec_tokens_text(ts.take(c))),
            spec_parse_function_definitions(ts) == Ok::<
                (Seq<SpecFunctionDefinition>, int),
                (SpecError, int),
            >((Seq::new(result@.len(), |i: int| result@[i]@), c)),
        decreases ts.len() - c,
    {
        let ghost t = tokens.toks();
        let ghost acc = Seq::new(result@.len(), |i: int| result@[i]@);
        proof {
            lemma_spec_parse_function_definition(t);
        }
        let ghost prev = *tokens;
        match FunctionDefinition::parse(tokens) {
            Ok(Some(fd)) => {
                result.push(fd);
                proof {
                    let k = spec_parse_function_definition(t)->Ok_0->Some_0.1;
                    assert(ts.skip(c).skip(k) =~= ts.skip(c + k));
                    assert(ts.skip(c).take(k) =~= t.take(k));
                    lemma_advance_compose_many(*old(tokens), prev, *tokens, ts, c, k);
                    match spec_parse_function_definitions(ts.skip(c + k)) {
                        Ok(q2) => {
                            assert(acc + (seq![fd@] + q2.0) =~= (acc + seq![fd@]) + q2.0);
                        },
                        Err(_) => {},
                    }
                    assert(acc + seq![fd@] =~= Seq::new(result@.len(), |i: int| result@[i]@));
                    c = c + k;
                }
            },
            Ok(None) => {
                proof {
                    assert(spec_parse_function_definitions(ts.skip(c)) == Ok::<
                        (Seq<SpecFunctionDefinition>, int),
                        (SpecError, int),
                    >((Seq::<SpecFunctionDefinition>::empty(), 0)));
                    assert(acc + Seq::<SpecFunctionDefinition>::empty() =~= acc);
                }
                break ;
            },
            Err(e) => {
                proof {
                    let k = spec_parse_function_definition(t)->Err_0.1;
                    assert(ts.skip(c).skip(k) =~= ts.skip(c + k));
                    assert(ts.skip(c).take(k) =~= t.take(k));
                    lemma_advance_compose_many(*old(tokens), prev, *tokens, ts, c, k);
                    assert(tokens.toks() =~= ts.skip(c + k));
                }
                return Err(e);
            },
        }
    }
    Ok(result)
}

} // verus!
