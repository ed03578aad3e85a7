use crate::language::chars::{lemma_munch_len, lemma_munch_len_is, munch_len};
use vstd::prelude::*;
use vstd::string::StrSliceExecFns;

verus! {

/// A character that may start an identifier: a letter or an underscore.
pub open spec fn is_ident_start(c: char) -> bool {
    c == '_' || ('a' <= c && c <= 'z') || ('A' <= c && c <= 'Z')
}

/// A character that may continue an identifier: a letter, a digit or an
/// underscore.
pub open spec fn is_ident_continue(c: char) -> bool {
    is_ident_start(c) || ('0' <= c && c <= '9')
}

/// A whole identifier-shaped text: a starting character followed by
/// continuing characters only.
pub open spec fn is_identifier_text(s: Seq<char>) -> bool {
    s.len() > 0 && is_ident_start(s[0]) && forall|i: int|
        1 <= i < s.len() ==> is_ident_continue(#[trigger] s[i])
}

/// The continuation predicate as a value, shared by the specs and the lexing
/// loops that consume continuing characters.
pub open spec fn ident_continue_pred() -> spec_fn(char) -> bool {
    |c: char| is_ident_continue(c)
}

/// How many leading characters of a text an unquoted name takes: zero where
/// the text does not start one, else the maximal munch.
pub open spec fn spec_name_len(s: Seq<char>) -> nat {
    if s.len() == 0 || !is_ident_start(s[0]) {
        0
    } else {
        1 + munch_len(s.drop_first(), ident_continue_pred())
    }
}

/// The maximal munch of a name: what it takes is identifier-shaped, and it
/// cannot be extended by the character after it.
pub proof fn lemma_name_len(s: Seq<char>)
    ensures
        spec_name_len(s) <= s.len(),
        spec_name_len(s) > 0 ==> is_identifier_text(s.take(spec_name_len(s) as int)),
        0 < spec_name_len(s) < s.len() ==> !is_ident_continue(s[spec_name_len(s) as int]),
        spec_name_len(s) == 0 ==> (s.len() == 0 || !is_ident_start(s[0])),
        is_identifier_text(s) ==> spec_name_len(s) == s.len(),
{
    let p = ident_continue_pred();
    let t = s.drop_first();
    lemma_munch_len(t, p);
    if s.len() > 0 && is_ident_start(s[0]) {
        let k = spec_name_len(s) as int;
        assert forall|i: int| 1 <= i < k implies is_ident_continue(#[trigger] s.take(k)[i]) by {
            assert(s[i] == t[i - 1]);
        }
        if k < s.len() {
            assert(s[k] == t[k - 1]);
        }
    }
    if is_identifier_text(s) {
        assert forall|i: int| 0 <= i < t.len() implies p(#[trigger] t[i]) by {
            assert(t[i] == s[i + 1]);
        }
        lemma_munch_len_is(t, p, t.len() as int);
    }
}

/// Decides whether a character may start an identifier.
pub fn char_is_ident_start(c: char) -> (b: bool)
    ensures
        b == is_ident_start(c),
{
    c == '_' || ('a' <= c && c <= 'z') || ('A' <= c && c <= 'Z')
}

/// Decides whether a character may continue an identifier.
pub fn char_is_ident_continue(c: char) -> (b: bool)
    ensures
        b == is_ident_continue(c),
{
    c == '_' || ('a' <= c && c <= 'z') || ('A' <= c && c <= 'Z') || ('0' <= c && c <= '9')
}

/// Splits the longest leading unquoted name off a text: a maximal run of
/// `[A-Za-z_][A-Za-z0-9_]*`, or nothing where the text does not start with
/// one.
pub fn lex_unquoted_name(src: &str) -> (r: Option<(&str, &str)>)
    ensures
        match r {
            Some(pair) => spec_name_len(src@) > 0 && pair.0@ == src@.take(
                spec_name_len(src@) as int,
            ) && pair.1@ == src@.skip(spec_name_len(src@) as int),
            None => spec_name_len(src@) == 0,
        },
{
    let ghost p = ident_continue_pred();
    let n = src.unicode_len();
    let mut len: usize = 0;
    if n > 0 {
        let c = src.get_char(0);
        if char_is_ident_start(c) {
            len = 1;
            loop
                invariant
                    1 <= len <= n,
                    n == src@.len(),
                    is_ident_start(src@[0]),
                    forall|j: int| 1 <= j < len ==> is_ident_continue(#[trigger] src@[j]),
                ensures
                    1 <= len <= n,
                    forall|j: int| 1 <= j < len ==> is_ident_continue(#[trigger] src@[j]),
                    len == n || !is_ident_continue(src@[len as int]),
                decreases n - len,
            {
                if len >= n {
                    break ;
                }
                let c = src.get_char(len);
                if !char_is_ident_continue(c) {
                    break ;
                }
                len += 1;
            }
            proof {
                let t = src@.drop_first();
                assert forall|j: int| 0 <= j < len - 1 implies p(#[trigger] t[j]) by {
                    assert(t[j] == src@[j + 1]);
                }
                if len < n {
                    assert(t[len - 1] == src@[len as int]);
                }
                lemma_munch_len_is(t, p, len - 1);
            }
        }
    }
    if len > 0 {
        let name = src.substring_char(0, len);
        let rest = src.substring_char(len, n);
        proof {
            assert(name@ =~= src@.take(spec_name_len(src@) as int));
            assert(rest@ =~= src@.skip(spec_name_len(src@) as int));
        }
        Some((name, rest))
    } else {
        None
    }
}

} // verus!
