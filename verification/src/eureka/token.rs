//! The tokens of the language and the tokenizer that produces them: a closed
//! set of variants, each able to reproduce the exact substring it was lexed
//! from.

pub mod identifier;
pub mod keyword;
pub mod lex;
pub mod name;
pub mod padding;
pub mod punctuation;
pub mod punctuator;
pub mod tokens;

pub use identifier::Identifier;
pub use keyword::Keyword;
pub use padding::Padding;
pub use punctuation::Punctuation;
pub use punctuator::Punctuator;

use crate::communication::{Error, SpecError};
use crate::eureka::chars::Chars;
use identifier::identifier_wf;
use keyword::{lemma_keyword_table_consistent, spec_keyword_lex, spec_keyword_text};
use name::{lemma_name_len, spec_name_len};
use padding::{pad_scan, padding_wf, PadScan};
use punctuation::{lemma_punctuation_text, spec_punctuation_of_char, spec_punctuation_text};
use vstd::prelude::*;

verus! {

/// One token of source text. Every variant reproduces, through `unlex`, the
/// exact substring it was lexed from.
#[derive(Debug, Eq, Hash)]
pub enum Token {
    Identifier(Identifier),
    Keyword(Keyword),
    Padding(Padding),
    Punctuation(Punctuation),
}

/// The mathematical value of a [`Token`]: text payloads as character
/// sequences.
pub enum SpecToken {
    Identifier(Seq<char>),
    Keyword(Keyword),
    Padding(Seq<char>),
    Punctuation(Punctuation),
}

impl View for Token {
    type V = SpecToken;

    open spec fn view(&self) -> SpecToken {
        match self {
            Token::Identifier(identifier) => SpecToken::Identifier(identifier@),
            Token::Keyword(keyword) => SpecToken::Keyword(*keyword),
            Token::Padding(padding) => SpecToken::Padding(padding@),
            Token::Punctuation(punctuation) => SpecToken::Punctuation(*punctuation),
        }
    }
}

/// The exact source text of a token.
pub open spec fn spec_token_text(t: SpecToken) -> Seq<char> {
    match t {
        SpecToken::Identifier(s) => s,
        SpecToken::Keyword(k) => spec_keyword_text(k),
        SpecToken::Padding(s) => s,
        SpecToken::Punctuation(p) => spec_punctuation_text(p),
    }
}

/// The invariant of a token: its text payload satisfies its variant's own
/// invariant.
pub open spec fn spec_token_wf(t: SpecToken) -> bool {
    match t {
        SpecToken::Identifier(s) => identifier_wf(s),
        SpecToken::Keyword(_) => true,
        SpecToken::Padding(s) => padding_wf(s),
        SpecToken::Punctuation(_) => true,
    }
}

/// What the tokenizer does with the front of a text: produces a token over
/// `k` consumed characters, reports the end of the input, or fails with an
/// error after `k` consumed characters. Identifier-or-keyword runs are tried
/// first, then padding, then punctuators.
pub open spec fn spec_next_token(s: Seq<char>) -> Result<Option<(SpecToken, nat)>, (
    SpecError,
    nat,
)> {
    if spec_name_len(s) > 0 {
        let k = spec_name_len(s);
        match spec_keyword_lex(s.take(k as int)) {
            Some(kw) => Ok(Some((SpecToken::Keyword(kw), k))),
            None => Ok(Some((SpecToken::Identifier(s.take(k as int)), k))),
        }
    } else {
        match pad_scan(s, 0) {
            PadScan::Overflow { used } => Err((SpecError::ExceededMaximumNestingLevel, used)),
            PadScan::Break { used, level } => {
                if level > 0 {
                    Err((SpecError::Expected("*/"@), used))
                } else if used > 0 {
                    Ok(Some((SpecToken::Padding(s.take(used as int)), used)))
                } else if s.len() == 0 {
                    Ok(None)
                } else {
                    match spec_punctuation_of_char(s[0]) {
                        Some(p) => Ok(Some((SpecToken::Punctuation(p), 1))),
                        None => Err((SpecError::UnexpectedChar(s[0]), 0)),
                    }
                }
            },
        }
    }
}

/// A produced token covers exactly the consumed prefix, is well formed, and
/// consumes at least one character; an error never counts more characters
/// than the text holds.
pub proof fn lemma_spec_next_token(s: Seq<char>)
    ensures
        spec_next_token(s) matches Ok(Some(p)) ==> 0 < p.1 <= s.len() && spec_token_text(p.0)
            == s.take(p.1 as int) && spec_token_wf(p.0),
        spec_next_token(s) matches Ok(o) ==> (o is None ==> s.len() == 0),
        spec_next_token(s) matches Err(e) ==> e.1 <= s.len(),
{
    lemma_name_len(s);
    padding::lemma_pad_scan_used_bound(s, 0);
    if spec_name_len(s) > 0 {
        let k = spec_name_len(s) as int;
        lemma_keyword_table_consistent(Keyword::Fn, s.take(k));
        if spec_keyword_lex(s.take(k)) is None {
            assert(identifier_wf(s.take(k)));
        }
    } else {
        match pad_scan(s, 0) {
            PadScan::Break { used, level } => {
                if level == 0 && used > 0 {
                    padding::lemma_pad_scan_prefix(s, 0, used, 0);
                    assert(padding_wf(s.take(used as int)));
                } else if level == 0 && used == 0 && s.len() > 0 {
                    match spec_punctuation_of_char(s[0]) {
                        Some(p) => {
                            lemma_punctuation_text(s[0], p);
                            assert(s.take(1) =~= seq![s[0]]);
                        },
                        None => {},
                    }
                }
            },
            PadScan::Overflow { .. } => {},
        }
    }
}

/// The keyword/identifier partition: a whole identifier-shaped text is
/// classified as exactly one of keyword or identifier — as the keyword whose
/// text it equals where the keyword table holds it, and as an identifier
/// otherwise — and the classification covers the whole text. Never both,
/// never neither.
pub proof fn lemma_keyword_identifier_partition(s: Seq<char>)
    requires
        name::is_identifier_text(s),
    ensures
        spec_next_token(s) matches Ok(o) && o matches Some(p) && p.1 == s.len() && p.0 == (
        match spec_keyword_lex(s) {
            Some(k) => SpecToken::Keyword(k),
            None => SpecToken::Identifier(s),
        }),
{
    lemma_name_len(s);
    assert(s.take(s.len() as int) =~= s);
}

/// Padding is idempotent: immediately after a padding token was lexed, the
/// tokenizer never yields another padding token — the first one consumed a
/// maximal run.
pub proof fn lemma_padding_idempotent(s: Seq<char>)
    requires
        spec_next_token(s) matches Ok(o) && o matches Some(p) && p.0 is Padding,
    ensures
        ({
            let k = spec_next_token(s)->Ok_0->Some_0.1 as int;
            !(spec_next_token(s.skip(k)) matches Ok(o2) && o2 matches Some(q) && q.0 is Padding)
        }),
{
    lemma_spec_next_token(s);
    let k = spec_next_token(s)->Ok_0->Some_0.1;
    padding::lemma_pad_scan_used_bound(s, 0);
    match pad_scan(s, 0) {
        PadScan::Break { used, level } => {
            padding::lemma_pad_scan_maximal(s, 0, used, level);
        },
        PadScan::Overflow { .. } => {},
    }
}

/// The concatenated source text of a token sequence.
pub open spec fn spec_tokens_text(ts: Seq<SpecToken>) -> Seq<char>
    decreases ts.len(),
{
    if ts.len() == 0 {
        Seq::empty()
    } else {
        spec_token_text(ts[0]) + spec_tokens_text(ts.drop_first())
    }
}

/// The text of concatenated token sequences is the concatenation of their
/// texts.
pub proof fn lemma_tokens_text_concat(a: Seq<SpecToken>, b: Seq<SpecToken>)
    ensures
        spec_tokens_text(a + b) == spec_tokens_text(a) + spec_tokens_text(b),
    decreases a.len(),
{
    if a.len() == 0 {
        assert(a + b =~= b);
        assert(spec_tokens_text(a) + spec_tokens_text(b) =~= spec_tokens_text(b));
    } else {
        assert((a + b)[0] == a[0]);
        assert((a + b).drop_first() =~= a.drop_first() + b);
        lemma_tokens_text_concat(a.drop_first(), b);
        assert(spec_token_text(a[0]) + (spec_tokens_text(a.drop_first()) + spec_tokens_text(b))
            =~= (spec_token_text(a[0]) + spec_tokens_text(a.drop_first())) + spec_tokens_text(b));
    }
}

/// Extending a token prefix by one token appends that token's text.
pub proof fn lemma_tokens_text_snoc(ts: Seq<SpecToken>, c: int)
    requires
        0 <= c < ts.len(),
    ensures
        spec_tokens_text(ts.take(c + 1)) == spec_tokens_text(ts.take(c)) + spec_token_text(ts[c]),
{
    assert(ts.take(c + 1) =~= ts.take(c) + seq![ts[c]]);
    lemma_tokens_text_concat(ts.take(c), seq![ts[c]]);
    assert(seq![ts[c]].drop_first() =~= Seq::<SpecToken>::empty());
    assert(spec_tokens_text(Seq::<SpecToken>::empty()) =~= Seq::<char>::empty());
    assert(spec_tokens_text(seq![ts[c]]) == spec_token_text(seq![ts[c]][0]) + spec_tokens_text(
        seq![ts[c]].drop_first(),
    ));
    assert(spec_token_text(ts[c]) + Seq::<char>::empty() =~= spec_token_text(ts[c]));
}

/// Prefixes an already-lexed token sequence, and the characters it covers, to
/// the outcome of lexing the rest.
pub open spec fn spec_tokens_prepend(
    acc: Seq<SpecToken>,
    used: nat,
    rest: Result<Seq<SpecToken>, (SpecError, nat)>,
) -> Result<Seq<SpecToken>, (SpecError, nat)> {
    match rest {
        Ok(ts) => Ok(acc + ts),
        Err(e) => Err((e.0, (used + e.1) as nat)),
    }
}

/// What lexing a whole text yields: the token sequence, or the first error
/// together with how many characters were consumed before it.
pub open spec fn spec_tokens(s: Seq<char>) -> Result<Seq<SpecToken>, (SpecError, nat)>
    decreases s.len(),
{
    match spec_next_token(s) {
        Ok(o) => match o {
            None => Ok(Seq::empty()),
            Some(p) => if 0 < p.1 <= s.len() {
                spec_tokens_prepend(seq![p.0], p.1, spec_tokens(s.skip(p.1 as int)))
            } else {
                // A produced token always consumes within the text; see
                // lemma_spec_next_token.
                Ok(Seq::empty())
            },
        },
        Err(e) => Err(e),
    }
}

/// Lexing is lossless: a fully lexed text is the concatenation of its tokens'
/// texts, each token well formed; a failed lexing never counts more consumed
/// characters than the text holds.
pub proof fn lemma_spec_tokens(s: Seq<char>)
    ensures
        spec_tokens(s) matches Ok(ts) ==> spec_tokens_text(ts) == s && forall|i: int|
            0 <= i < ts.len() ==> spec_token_wf(#[trigger] ts[i]),
        spec_tokens(s) matches Err(e) ==> e.1 <= s.len(),
    decreases s.len(),
{
    lemma_spec_next_token(s);
    match spec_next_token(s) {
        Ok(o) => match o {
            None => {
                assert(spec_tokens_text(Seq::<SpecToken>::empty()) =~= s);
            },
            Some(p) => {
                let k = p.1 as int;
                lemma_spec_tokens(s.skip(k));
                match spec_tokens(s.skip(k)) {
                    Ok(ts) => {
                        let all = seq![p.0] + ts;
                        assert(all.drop_first() =~= ts);
                        assert(all[0] == p.0);
                        assert(spec_tokens_text(all) == spec_token_text(p.0)
                            + spec_tokens_text(ts));
                        assert(s.take(k) + s.skip(k) =~= s);
                        assert forall|i: int| 0 <= i < all.len() implies spec_token_wf(
                            #[trigger] all[i],
                        ) by {
                            if i > 0 {
                                assert(all[i] == ts[i - 1]);
                            }
                        }
                    },
                    Err(_) => {},
                }
            },
        },
        Err(_) => {},
    }
}

impl Token {
    /// Lexes the next token off the stream: an identifier-or-keyword run
    /// first, else padding, else a punctuator; reports the end of the input
    /// as no token, and any other remaining character as an error.
    pub fn lex(chars: &mut Chars) -> (r: Result<Option<Token>, Error>)
        requires
            old(chars).wf(),
        ensures
            final(chars).wf(),
            match spec_next_token(old(chars).text()) {
                Ok(o) => match o {
                    Some(p) => r matches Ok(ro) && ro matches Some(tok) && tok@ == p.0
                        && final(chars).text() == old(chars).text().skip(p.1 as int)
                        && final(chars).advanced_over(*old(chars), old(chars).text().take(p.1 as int)),
                    None => r == Ok::<Option<Token>, Error>(None) && *final(chars) == *old(chars),
                },
                Err(e) => r matches Err(re) && re@ == e.0
                    && final(chars).text() == old(chars).text().skip(e.1 as int)
                    && final(chars).advanced_over(*old(chars), old(chars).text().take(e.1 as int)),
            },
    {
        let ghost s = old(chars).text();
        proof {
            lemma_spec_next_token(s);
            assert(s.take(0) =~= Seq::<char>::empty());
            assert(s.skip(0) =~= s);
        }
        if let Some(classified) = Identifier::lex(chars) {
            match classified {
                Ok(identifier) => {
                    return Ok(Some(Token::Identifier(identifier)));
                },
                Err(keyword) => {
                    proof {
                        lemma_keyword_table_consistent(
                            keyword,
                            s.take(spec_name_len(s) as int),
                        );
                    }
                    return Ok(Some(Token::Keyword(keyword)));
                },
            }
        }
        match Padding::lex(chars) {
            Ok(Some(padding)) => {
                return Ok(Some(Token::Padding(padding)));
            },
            Ok(None) => {},
            Err(e) => {
                return Err(e);
            },
        }
        if let Some(punctuation) = Punctuation::lex(chars) {
            proof {
                assert(s.take(1) =~= seq![s[0]]);
                assert(s.skip(1) =~= s.drop_first());
            }
            return Ok(Some(Token::Punctuation(punctuation)));
        }
        match chars.peek() {
            None => Ok(None),
            Some(c) => Err(Error::UnexpectedChar(c)),
        }
    }

    /// The exact source text this token was lexed from.
    pub fn unlex(&self) -> (r: &str)
        ensures
            r@ == spec_token_text(self@),
    {
        match self {
            Token::Identifier(identifier) => identifier.unlex(),
            Token::Keyword(keyword) => keyword.unlex(),
            Token::Padding(padding) => padding.unlex(),
            Token::Punctuation(punctuation) => punctuation.unlex(),
        }
    }

    /// Tokenizes a whole source text into a plain vector. A fault is reported
    /// by the exact position where it was detected.
    pub fn lex_all(src: &str) -> (r: Result<Vec<Token>, crate::text::Position>)
        requires
            src@.len() + 2 <= usize::MAX,
        ensures
            match crate::language::chars::spec_first_rejected::<crate::eureka::Char>(src@) {
                Some(i) => r matches Err(p) && (p.spec_line() as int, p.spec_column() as int)
                    == crate::communication::position::stepped_str(1, 1, src@.take(i)),
                None => match spec_tokens(src@) {
                    Ok(ts) => r matches Ok(v) && v@.len() == ts.len() && (forall|i: int|
                        0 <= i < ts.len() ==> #[trigger] v@[i]@ == ts[i]),
                    Err(e) => r matches Err(p) && (p.spec_line() as int, p.spec_column() as int)
                        == crate::communication::position::stepped_str(
                        1,
                        1,
                        src@.take(e.1 as int),
                    ),
                },
            },
    {
        match crate::eureka::tokens::Tokens::try_new(src) {
            Ok(tokens) => {
                proof {
                    lemma_spec_tokens(src@);
                }
                Ok(tokens.into_vec())
            },
            Err(pe) => {
                proof {
                    match crate::language::chars::spec_first_rejected::<crate::eureka::Char>(
                        src@,
                    ) {
                        Some(i) => {
                            crate::communication::position::lemma_stepped_str_bounds(
                                1,
                                1,
                                src@.take(i),
                            );
                        },
                        None => {
                            match spec_tokens(src@) {
                                Err(e) => {
                                    crate::communication::position::lemma_stepped_str_bounds(
                                        1,
                                        1,
                                        src@.take(e.1 as int),
                                    );
                                },
                                Ok(_) => {},
                            }
                        },
                    }
                }
                let line = pe.position.line();
                let column = pe.position.column();
                Err(crate::text::Position::new(line, column))
            },
        }
    }

    /// The relative extent of this token's text: where the text steps to from
    /// the start position. Composing a position with it through
    /// `relative_move` steps over exactly this token's text.
    pub fn relative_end(&self) -> (r: crate::text::Position)
        requires
            crate::communication::position::all_lexable(spec_token_text(self@)),
            spec_token_text(self@).len() + 2 <= usize::MAX,
        ensures
            r.wf(),
            (r.spec_line() as int, r.spec_column() as int)
                == crate::communication::position::stepped_str(1, 1, spec_token_text(self@)),
    {
        let text = self.unlex();
        let ghost s = spec_token_text(self@);
        let mut position = crate::text::Position::start();
        let n = text.unicode_len();
        let mut i: usize = 0;
        proof {
            assert(s.take(0) =~= Seq::<char>::empty());
        }
        while i < n
            invariant
                0 <= i <= n,
                n == s.len(),
                text@ == s,
                n + 2 <= usize::MAX,
                crate::communication::position::all_lexable(s),
                position.wf(),
                (position.spec_line() as int, position.spec_column() as int)
                    == crate::communication::position::stepped_str(1, 1, s.take(i as int)),
                position.spec_line() + position.spec_column() <= 2 + i,
            decreases n - i,
        {
            let c = text.get_char(i);
            proof {
                crate::communication::position::lemma_stepped_str_snoc(1, 1, s, i as int);
            }
            position.advance(c);
            i += 1;
        }
        proof {
            assert(s.take(n as int) =~= s);
        }
        position
    }
}

/// The view of a possibly absent token.
pub open spec fn token_option_view(t: Option<Token>) -> Option<SpecToken> {
    match t {
        Some(tok) => Some(tok@),
        None => None,
    }
}

/// A token classification that the stream combinators can take from the front
/// of a token stream: which tokens convert to it, what value they convert to,
/// and the error reported where the front does not convert.
pub trait FromToken: Sized + View {
    /// What converting the front token (or the end of the stream) yields.
    spec fn spec_from(t: Option<SpecToken>) -> Result<Self::V, SpecError>;

    /// The end of the stream never converts.
    proof fn lemma_end_rejected()
        ensures
            Self::spec_from(None) is Err,
    ;

    fn try_from_tokens(t: Option<Token>) -> (r: Result<Self, Error>)
        ensures
            match Self::spec_from(token_option_view(t)) {
                Ok(v) => r matches Ok(x) && x@ == v,
                Err(e) => r matches Err(err) && err@ == e,
            },
    ;
}

impl FromToken for Padding {
    open spec fn spec_from(t: Option<SpecToken>) -> Result<Seq<char>, SpecError> {
        match t {
            Some(SpecToken::Padding(s)) => Ok(s),
            _ => Err(SpecError::Expected("padding"@)),
        }
    }

    proof fn lemma_end_rejected() {
    }

    fn try_from_tokens(t: Option<Token>) -> (r: Result<Padding, Error>) {
        match t {
            Some(Token::Padding(p)) => Ok(p),
            _ => Err(Error::Expected("padding")),
        }
    }
}

impl FromToken for Identifier {
    open spec fn spec_from(t: Option<SpecToken>) -> Result<Seq<char>, SpecError> {
        match t {
            Some(SpecToken::Identifier(s)) => Ok(s),
            _ => Err(SpecError::Expected("identifier"@)),
        }
    }

    proof fn lemma_end_rejected() {
    }

    fn try_from_tokens(t: Option<Token>) -> (r: Result<Identifier, Error>) {
        match t {
            Some(Token::Identifier(i)) => Ok(i),
            _ => Err(Error::Expected("identifier")),
        }
    }
}

/// A value that embeds into a [`Token`], for combinators that expect one
/// exact token.
pub trait IntoToken: Sized {
    /// The token this value stands for.
    spec fn spec_token(self) -> SpecToken;

    fn into_token(self) -> (r: Token)
        ensures
            r@ == self.spec_token(),
    ;
}

impl IntoToken for Identifier {
    open spec fn spec_token(self) -> SpecToken {
        SpecToken::Identifier(self@)
    }

    fn into_token(self) -> (r: Token) {
        Token::Identifier(self)
    }
}

impl IntoToken for Keyword {
    open spec fn spec_token(self) -> SpecToken {
        SpecToken::Keyword(self)
    }

    fn into_token(self) -> (r: Token) {
        Token::Keyword(self)
    }
}

impl IntoToken for Padding {
    open spec fn spec_token(self) -> SpecToken {
        SpecToken::Padding(self@)
    }

    fn into_token(self) -> (r: Token) {
        Token::Padding(self)
    }
}

impl IntoToken for Punctuation {
    open spec fn spec_token(self) -> SpecToken {
        SpecToken::Punctuation(self)
    }

    fn into_token(self) -> (r: Token) {
        Token::Punctuation(self)
    }
}

impl IntoToken for Punctuator {
    open spec fn spec_token(self) -> SpecToken {
        SpecToken::Punctuation(punctuator::spec_punctuator_punctuation(self))
    }

    fn into_token(self) -> (r: Token) {
        Token::Punctuation(
            match self {
                Punctuator::LeftParenthesis => Punctuation::LeftParenthesis,
                Punctuator::RightParenthesis => Punctuation::RightParenthesis,
                Punctuator::LeftBrace => Punctuation::LeftBrace,
                Punctuator::RightBrace => Punctuation::RightBrace,
            },
        )
    }
}

impl Clone for Token {
    fn clone(&self) -> (r: Self)
        ensures
            r@ == self@,
    {
        match self {
            Token::Identifier(identifier) => Token::Identifier(identifier.clone()),
            Token::Keyword(keyword) => Token::Keyword(*keyword),
            Token::Padding(padding) => Token::Padding(padding.clone()),
            Token::Punctuation(punctuation) => Token::Punctuation(*punctuation),
        }
    }
}

impl PartialEq for Token {
    fn eq(&self, other: &Token) -> (r: bool) {
        match (self, other) {
            (Token::Identifier(a), Token::Identifier(b)) => a == b,
            (Token::Keyword(a), Token::Keyword(b)) => a == b,
            (Token::Padding(a), Token::Padding(b)) => a == b,
            (Token::Punctuation(a), Token::Punctuation(b)) => a == b,
            _ => false,
        }
    }
}

impl vstd::std_specs::cmp::PartialEqSpecImpl for Token {
    open spec fn obeys_eq_spec() -> bool {
        true
    }

    open spec fn eq_spec(&self, other: &Token) -> bool {
        self@ == other@
    }
}

impl From<Identifier> for Token {
    fn from(value: Identifier) -> (r: Token) {
        Token::Identifier(value)
    }
}

impl vstd::std_specs::convert::FromSpecImpl<Identifier> for Token {
    open spec fn obeys_from_spec() -> bool {
        true
    }

    open spec fn from_spec(value: Identifier) -> Token {
        Token::Identifier(value)
    }
}

impl From<Keyword> for Token {
    fn from(value: Keyword) -> (r: Token) {
        Token::Keyword(value)
    }
}

impl vstd::std_specs::convert::FromSpecImpl<Keyword> for Token {
    open spec fn obeys_from_spec() -> bool {
        true
    }

    open spec fn from_spec(value: Keyword) -> Token {
        Token::Keyword(value)
    }
}

impl From<Padding> for Token {
    fn from(value: Padding) -> (r: Token) {
        Token::Padding(value)
    }
}

impl vstd::std_specs::convert::FromSpecImpl<Padding> for Token {
    open spec fn obeys_from_spec() -> bool {
        true
    }

    open spec fn from_spec(value: Padding) -> Token {
        Token::Padding(value)
    }
}

impl From<Punctuation> for Token {
    fn from(value: Punctuation) -> (r: Token) {
        Token::Punctuation(value)
    }
}

impl vstd::std_specs::convert::FromSpecImpl<Punctuation> for Token {
    open spec fn obeys_from_spec() -> bool {
        true
    }

    open spec fn from_spec(value: Punctuation) -> Token {
        Token::Punctuation(value)
    }
}

} // verus!
