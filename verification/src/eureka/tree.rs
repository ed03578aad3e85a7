//! An alternative syntax-tree layout over the same grammar: padding that
//! follows the last definition is attached to the module rather than to each
//! definition, an equally lossless policy for the same token streams.

pub mod function_definition;
pub mod module;

pub use function_definition::FunctionDefinition;
pub use module::Module;

use crate::communication::{Error, SpecError};
use crate::eureka::syntax_tree::definition::SpecDefinition;
use crate::eureka::syntax_tree::function_definition::spec_parse_function_definition;
use crate::eureka::token::{spec_tokens_text, SpecToken};
use crate::eureka::tokens::Tokens;
use vstd::prelude::*;

verus! {

/// A definition under this layout: a closed union, currently with function
/// definitions as its only form.
#[derive(Clone, Debug, Eq, Hash, PartialEq)]
pub enum Definition {
    Function(FunctionDefinition),
}

impl View for Definition {
    type V = SpecDefinition;

    open spec fn view(&self) -> SpecDefinition {
        match self {
            Definition::Function(fd) => SpecDefinition::Function(fd@),
        }
    }
}

/// What parsing a definition does with the front of a token sequence: as the
/// one definition form it delegates to.
pub open spec fn spec_parse_definition(ts: Seq<SpecToken>) -> Result<
    Option<(SpecDefinition, int)>,
    (SpecError, int),
> {
    crate::eureka::syntax_tree::definition::spec_parse_definition(ts)
}

/// What parsing a run of bare definitions does: definitions in order until
/// the next token no longer starts one, or the first error.
pub open spec fn spec_parse_definitions(ts: Seq<SpecToken>) -> Result<
    (Seq<SpecDefinition>, int),
    (SpecError, int),
>
    decreases ts.len(),
{
    match spec_parse_definition(ts) {
        Err(e) => Err(e),
        Ok(o) => match o {
            None => Ok((Seq::empty(), 0)),
            Some(p) => if 0 < p.1 <= ts.len() {
                match spec_parse_definitions(ts.skip(p.1)) {
                    Ok(q) => Ok((seq![p.0] + q.0, p.1 + q.1)),
                    Err(e) => Err((e.0, p.1 + e.1)),
                }
            } else {
                // A parsed definition always consumes within the sequence.
                Ok((Seq::empty(), 0))
            },
        },
    }
}

impl Definition {
    /// Parses one definition, of whichever form starts here; no definition
    /// form starting is no error.
    pub fn parse(tokens: &mut Tokens) -> (r: Result<Option<Definition>, Error>)
        requires
            old(tokens).wf(),
        ensures
            final(tokens).wf(),
            match spec_parse_definition(old(tokens).toks()) {
                Ok(o) => match o {
                    None => r == Ok::<Option<Definition>, Error>(None) && *final(tokens) == *old(
                        tokens,
                    ),
                    Some(p) => r matches Ok(ro) && ro matches Some(d) && d@ == p.0
                        && final(tokens).toks() == old(tokens).toks().skip(p.1)
                        && final(tokens).advanced_over(
                        *old(tokens),
                        spec_tokens_text(old(tokens).toks().take(p.1)),
                    ),
                },
                Err(e) => r matches Err(err) && err@ == e.0 && final(tokens).toks() == old(
                    tokens,
                ).toks().skip(e.1) && final(tokens).advanced_over(
                    *old(tokens),
                    spec_tokens_text(old(tokens).toks().take(e.1)),
                ),
            },
    {
        match FunctionDefinition::parse(tokens) {
            Ok(Some(fd)) => Ok(Some(Definition::Function(fd))),
            Ok(None) => Ok(None),
            Err(e) => Err(e),
        }
    }
}

/// A parsed definition under this layout consumes at least one token and
/// never more than the sequence holds.
pub proof fn lemma_spec_parse_definition(ts: Seq<SpecToken>)
    ensures
        spec_parse_definition(ts) matches Ok(Some(p)) ==> 0 < p.1 <= ts.len(),
        spec_parse_definition(ts) matches Err(e) ==> 0 < e.1 <= ts.len(),
{
    crate::eureka::syntax_tree::function_definition::lemma_spec_parse_function_definition(ts);
}

} // verus!
