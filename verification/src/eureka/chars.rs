use crate::eureka;
use crate::language;
use vstd::prelude::*;

verus! {

/// The character stream of this language: the generic stream instantiated at
/// this language's accepted characters.
pub type Chars = language::Chars<eureka::Char>;

} // verus!
