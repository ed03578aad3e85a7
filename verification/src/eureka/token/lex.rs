use vstd::prelude::*;

verus! {

/// Runs a lexing function that must consume its whole input, and returns what
/// it produced. The caller warrants, through the requires clause, that the
/// function succeeds on this input with nothing left over.
pub fn entirely<'a, T, F: Fn(&'a str) -> Option<(T, &'a str)>>(lex: F, value: &'a str) -> (r: T)
    requires
        call_requires(lex, (value,)),
        forall|o: Option<(T, &'a str)>|
            call_ensures(lex, (value,), o) ==> (o matches Some(p) && p.1@.len() == 0),
    ensures
        exists|rest: &'a str| call_ensures(lex, (value,), Some((r, rest))),
{
    match lex(value) {
        Some(pair) => pair.0,
        None => vstd::pervasive::unreached(),
    }
}

} // verus!
