use crate::communication::{Error, SpecError};
use crate::eureka::token::{spec_token_text, spec_tokens_text, FromToken, IntoToken};
use crate::eureka::tokens::{spec_front, Tokens};
use crate::miscellaneous::DisplayName;
use vstd::prelude::*;

verus! {

/// Converts and consumes the next token where it is of the requested kind;
/// otherwise consumes nothing and reports nothing.
pub fn optional<T: FromToken>(tokens: &mut Tokens) -> (r: Option<T>)
    requires
        old(tokens).wf(),
    ensures
        final(tokens).wf(),
        match T::spec_from(spec_front(old(tokens).toks())) {
            Ok(v) => r matches Some(x) && x@ == v && old(tokens).toks().len() > 0
                && final(tokens).toks() == old(tokens).toks().drop_first()
                && final(tokens).advanced_over(
                *old(tokens),
                spec_token_text(old(tokens).toks()[0]),
            ),
            Err(_) => r is None && *final(tokens) == *old(tokens),
        },
{
    tokens.try_take()
}

/// As `optional`, but a missing token of the requested kind is an error
/// naming that kind.
pub fn required<T: FromToken + DisplayName>(tokens: &mut Tokens) -> (r: Result<T, Error>)
    requires
        old(tokens).wf(),
    ensures
        final(tokens).wf(),
        match T::spec_from(spec_front(old(tokens).toks())) {
            Ok(v) => r matches Ok(x) && x@ == v && old(tokens).toks().len() > 0
                && final(tokens).toks() == old(tokens).toks().drop_first()
                && final(tokens).advanced_over(
                *old(tokens),
                spec_token_text(old(tokens).toks()[0]),
            ),
            Err(_) => (r matches Err(e) && e@ == SpecError::Missing(T::spec_display_name()))
                && *final(tokens) == *old(tokens),
        },
{
    match optional::<T>(tokens) {
        Some(value) => Ok(value),
        None => Err(Error::Missing(T::display_name())),
    }
}

/// Consumes the next token where it equals the caller's exact token;
/// otherwise consumes nothing, so the position still marks the failure site.
pub fn expected<T: IntoToken>(tokens: &mut Tokens, expected_token: T) -> (r: Result<(), Error>)
    requires
        old(tokens).wf(),
    ensures
        final(tokens).wf(),
        if old(tokens).toks().len() > 0 && old(tokens).toks()[0] == expected_token.spec_token() {
            r == Ok::<(), Error>(()) && final(tokens).toks() == old(tokens).toks().drop_first()
                && final(tokens).advanced_over(
                *old(tokens),
                spec_token_text(old(tokens).toks()[0]),
            )
        } else {
            (r matches Err(e) && e@ == SpecError::MissingToken(expected_token.spec_token()))
                && *final(tokens) == *old(tokens)
        },
{
    tokens.expect(expected_token)
}

} // verus!
