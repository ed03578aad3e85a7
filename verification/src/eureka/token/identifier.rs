use crate::eureka::chars::Chars;
use crate::eureka::token::keyword::{spec_keyword_lex, Keyword};
use crate::eureka::token::name::{char_is_ident_continue, char_is_ident_start, ident_continue_pred, is_ident_start, is_identifier_text, lemma_name_len, spec_name_len};
use crate::language::chars::munch_len;
use vstd::prelude::*;

pub mod unquoted_identifier;

verus! {

/// A name that is not a keyword: a maximal run of `[A-Za-z_][A-Za-z0-9_]*`
/// whose text is outside the keyword table. Only such values can exist behind
/// this type.
#[derive(Debug, Eq, Hash)]
pub struct Identifier {
    value: String,
}

impl PartialEq for Identifier {
    fn eq(&self, other: &Identifier) -> (r: bool) {
        self.value == other.value
    }
}

impl vstd::std_specs::cmp::PartialEqSpecImpl for Identifier {
    open spec fn obeys_eq_spec() -> bool {
        true
    }

    open spec fn eq_spec(&self, other: &Identifier) -> bool {
        self@ == other@
    }
}

impl View for Identifier {
    type V = Seq<char>;

    closed spec fn view(&self) -> Seq<char> {
        self.value@
    }
}

/// The invariant of an identifier's text: identifier-shaped and not a keyword.
pub open spec fn identifier_wf(s: Seq<char>) -> bool {
    is_identifier_text(s) && spec_keyword_lex(s) is None
}

impl Identifier {
    /// Takes the longest leading identifier-or-keyword run off the stream and
    /// classifies it: a keyword where the run's text is in the keyword table,
    /// an identifier otherwise. Consumes nothing where the stream does not
    /// start with such a run.
    pub fn lex(chars: &mut Chars) -> (r: Option<Result<Identifier, Keyword>>)
        requires
            old(chars).wf(),
        ensures
            final(chars).wf(),
            ({
                let k = spec_name_len(old(chars).text()) as int;
                match r {
                    Some(classified) => k > 0 && final(chars).text() == old(chars).text().skip(k)
                        && final(chars).advanced_over(*old(chars), old(chars).text().take(k))
                        && match classified {
                        Ok(identifier) => identifier@ == old(chars).text().take(k)
                            && spec_keyword_lex(old(chars).text().take(k)) is None,
                        Err(keyword) => spec_keyword_lex(old(chars).text().take(k)) == Some(
                            keyword,
                        ),
                    },
                    None => k == 0 && *final(chars) == *old(chars),
                }
            }),
    {
        let mut value = String::new();
        let taken = chars.try_take(
            char_is_ident_start,
            &mut value,
            Ghost(|c: char| is_ident_start(c)),
        );
        if taken {
            chars.take_while(char_is_ident_continue, &mut value, Ghost(ident_continue_pred()));
            proof {
                let s = old(chars).text();
                let p = ident_continue_pred();
                let t = s.drop_first();
                let m = munch_len(t, p) as int;
                let k = spec_name_len(s) as int;
                crate::language::chars::lemma_munch_len(t, p);
                assert(k == 1 + m);
                crate::communication::position::lemma_stepped_str_concat(
                    old(chars).spec_position().spec_line() as int,
                    old(chars).spec_position().spec_column() as int,
                    s.take(1),
                    t.take(m),
                );
                assert(s.take(1) + t.take(m) =~= s.take(k));
                assert(value@ =~= s.take(k));
                assert(chars.text() =~= s.skip(k));
            }
            match Keyword::lex(value.as_str()) {
                Some(keyword) => Some(Err(keyword)),
                None => Some(Ok(Identifier { value })),
            }
        } else {
            None
        }
    }

    /// The exact source text this identifier was lexed from.
    pub fn unlex(&self) -> (r: &str)
        ensures
            r@ == self@,
    {
        self.value.as_str()
    }

    /// Builds an identifier from its exact text, which must be
    /// identifier-shaped and not a keyword.
    pub fn new(value: &str) -> (r: Identifier)
        requires
            identifier_wf(value@),
        ensures
            r@ == value@,
    {
        Identifier { value: value.to_owned() }
    }
}

impl Clone for Identifier {
    fn clone(&self) -> (r: Self)
        ensures
            r@ == self@,
    {
        Identifier { value: self.value.clone() }
    }
}

impl crate::miscellaneous::DisplayName for Identifier {
    open spec fn spec_display_name() -> Seq<char> {
        "identifier"@
    }

    fn display_name() -> (r: &'static str) {
        "identifier"
    }
}

} // verus!
