use crate::eureka::token::identifier::identifier_wf;
use crate::eureka::token::keyword::{spec_keyword_lex, Keyword};
use crate::eureka::token::lex;
use crate::eureka::token::name::{lemma_name_len, lex_unquoted_name, spec_name_len};
use vstd::prelude::*;

verus! {

/// An unquoted identifier: a name, written directly in the source, that is
/// not a keyword. Only such values can exist behind this type.
#[derive(Debug, Eq, Hash)]
pub struct UnquotedIdentifier {
    value: String,
}

impl View for UnquotedIdentifier {
    type V = Seq<char>;

    closed spec fn view(&self) -> Seq<char> {
        self.value@
    }
}

impl PartialEq for UnquotedIdentifier {
    fn eq(&self, other: &UnquotedIdentifier) -> (r: bool) {
        self.value == other.value
    }
}

impl vstd::std_specs::cmp::PartialEqSpecImpl for UnquotedIdentifier {
    open spec fn obeys_eq_spec() -> bool {
        true
    }

    open spec fn eq_spec(&self, other: &UnquotedIdentifier) -> bool {
        self@ == other@
    }
}

impl Clone for UnquotedIdentifier {
    fn clone(&self) -> (r: Self)
        ensures
            r@ == self@,
    {
        UnquotedIdentifier { value: self.value.clone() }
    }
}

impl UnquotedIdentifier {
    /// The exact source text of this identifier.
    pub fn as_str(&self) -> (r: &str)
        ensures
            r@ == self@,
    {
        self.value.as_str()
    }

    /// Splits the longest leading name off a text and keeps it unless the
    /// whole text is a keyword: keywords never lex as identifiers.
    pub fn lex(src: &str) -> (r: Option<(UnquotedIdentifier, &str)>)
        ensures
            match r {
                Some(pair) => spec_keyword_lex(src@) is None && spec_name_len(src@) > 0
                    && pair.0@ == src@.take(spec_name_len(src@) as int) && pair.1@ == src@.skip(
                    spec_name_len(src@) as int,
                ),
                None => spec_keyword_lex(src@) is Some || spec_name_len(src@) == 0,
            },
    {
        if Keyword::lex(src).is_some() {
            return None;
        }
        if let Some(pair) = lex_unquoted_name(src) {
            let identifier = UnquotedIdentifier { value: pair.0.to_owned() };
            return Some((identifier, pair.1));
        }
        None
    }

    /// Builds an unquoted identifier from its exact text, which must be
    /// identifier-shaped and not a keyword.
    pub fn new(value: &str) -> (r: UnquotedIdentifier)
        requires
            identifier_wf(value@),
        ensures
            r@ == value@,
    {
        proof {
            lemma_name_len(value@);
        }
        let identifier = lex::entirely(UnquotedIdentifier::lex, value);
        proof {
            assert(identifier@ =~= value@);
        }
        identifier
    }
}

} // verus!
