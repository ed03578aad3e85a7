use crate::communication::{Error, SpecError};
use crate::eureka::syntax_tree::function_definition::{
    spec_parse_function_definition, FunctionDefinition, SpecFunctionDefinition,
};
use crate::eureka::token::{spec_tokens_text, SpecToken};
use crate::eureka::tokens::Tokens;
use vstd::prelude::*;

verus! {

/// The mathematical value of a definition.
pub enum SpecDefinition {
    Function(SpecFunctionDefinition),
}

/// A definition: a closed union, currently with function definitions as its
/// only form.
#[derive(Clone, Debug, Eq, Hash, PartialEq)]
pub enum Definition {
    Function(FunctionDefinition),
}

impl View for Definition {
    type V = SpecDefinition;

    open spec fn view(&self) -> SpecDefinition {
        match self {
            Definition::Function(fd) => SpecDefinition::Function(fd@),
        }
    }
}

/// The exact source text a definition reconstructs to.
pub open spec fn spec_definition_text(d: SpecDefinition) -> Seq<char> {
    match d {
        SpecDefinition::Function(fd) =>
            crate::eureka::syntax_tree::function_definition::spec_function_definition_text(fd),
    }
}

/// What parsing a definition does with the front of a token sequence: as the
/// one definition form it delegates to.
pub open spec fn spec_parse_definition(ts: Seq<SpecToken>) -> Result<
    Option<(SpecDefinition, int)>,
    (SpecError, int),
> {
    match spec_parse_function_definition(ts) {
        Ok(o) => match o {
            None => Ok(None),
            Some(p) => Ok(Some((SpecDefinition::Function(p.0), p.1))),
        },
        Err(e) => Err(e),
    }
}

impl Definition {
    /// Reconstructs the exact source text of this definition.
    pub fn unlex(&self) -> (r: String)
        ensures
            r@ == spec_definition_text(self@),
    {
        match self {
            Definition::Function(fd) => fd.unlex(),
        }
    }

    /// Parses one definition, of whichever form starts here; no definition
    /// form starting is no error.
    pub fn parse(tokens: &mut Tokens) -> (r: Result<Option<Definition>, Error>)
        requires
            old(tokens).wf(),
        ensures
            final(tokens).wf(),
            match spec_parse_definition(old(tokens).toks()) {
                Ok(o) => match o {
                    None => r == Ok::<Option<Definition>, Error>(None) && *final(tokens) == *old(
                        tokens,
                    ),
                    Some(p) => r matches Ok(ro) && ro matches Some(d) && d@ == p.0
                        && final(tokens).toks() == old(tokens).toks().skip(p.1)
                        && final(tokens).advanced_over(
                        *old(tokens),
                        spec_tokens_text(old(tokens).toks().take(p.1)),
                    ),
                },
                Err(e) => r matches Err(err) && err@ == e.0 && final(tokens).toks() == old(
                    tokens,
                ).toks().skip(e.1) && final(tokens).advanced_over(
                    *old(tokens),
                    spec_tokens_text(old(tokens).toks().take(e.1)),
                ),
            },
    {
        match FunctionDefinition::parse(tokens) {
            Ok(Some(fd)) => Ok(Some(Definition::Function(fd))),
            Ok(None) => Ok(None),
            Err(e) => Err(e),
        }
    }
}

} // verus!
