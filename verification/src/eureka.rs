//! The front end proper: validated character streams, the tokenizer, the
//! token stream, and the format-preserving syntax tree.

pub mod char;
pub mod chars;
pub mod code;
pub mod lexer;
pub mod syntax_tree;
pub mod token;
pub mod tokens;
pub mod tree;

pub use self::char::Char;
pub use chars::Chars;
pub use token::{Identifier, Keyword, Padding, Punctuation, Punctuator, Token};
pub use tokens::Tokens;

use crate::communication::{PositionError, SpecError};
use crate::eureka::syntax_tree::module::{spec_module_text, spec_parse_module, SpecModule};
use crate::eureka::syntax_tree::Module;
use crate::eureka::token::{spec_tokens, spec_tokens_text, SpecToken};
use crate::language::chars::spec_first_rejected;
use vstd::prelude::*;

verus! {

/// What the whole front end yields for a source text: the parsed module, or
/// the first error together with the position where it was detected, stated
/// over the chain of character validation, tokenizing, and parsing.
pub open spec fn spec_parse_source(s: Seq<char>) -> Result<SpecModule, (SpecError, Seq<char>)> {
    match spec_first_rejected::<Char>(s) {
        Some(i) => Err((SpecError::UnexpectedChar(s[i]), s.take(i))),
        None => match spec_tokens(s) {
            Err(e) => Err((e.0, s.take(e.1 as int))),
            Ok(ts) => match spec_parse_module(ts) {
                Ok(m) => Ok(m),
                Err(e) => Err((e.0, spec_tokens_text(ts.take(e.1)))),
            },
        },
    }
}

/// The single end-to-end entry point: validates the whole input, tokenizes it,
/// and parses it into a format-preserving module. On success the module
/// reconstructs the source exactly (the round-trip law); on failure the error
/// carries the position reached by stepping over exactly the consumed text.
pub fn parse(source: &str) -> (r: Result<Module, PositionError>)
    requires
        source@.len() + 2 <= usize::MAX,
    ensures
        match spec_parse_source(source@) {
            Ok(m) => r matches Ok(module) && module@ == m && spec_module_text(module@) == source@,
            Err(e) => r matches Err(pe) && pe.error@ == e.0 && (
            pe.position.spec_line() as int,
            pe.position.spec_column() as int,
            ) == crate::communication::position::stepped_str(1, 1, e.1),
        },
{
    let mut tokens = match Tokens::try_new(source) {
        Ok(tokens) => tokens,
        Err(pe) => {
            return Err(pe);
        },
    };
    proof {
        crate::eureka::token::lemma_spec_tokens(source@);
    }
    match Module::parse(&mut tokens) {
        Ok(module) => {
            proof {
                let ts = spec_tokens(source@)->Ok_0;
                syntax_tree::module::lemma_spec_parse_module(ts);
            }
            Ok(module)
        },
        Err(e) => {
            proof {
                let ts = spec_tokens(source@)->Ok_0;
                syntax_tree::module::lemma_spec_parse_module(ts);
            }
            Err(PositionError::new(tokens.position(), e))
        },
    }
}

} // verus!
