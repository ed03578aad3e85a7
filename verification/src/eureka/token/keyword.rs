use vstd::prelude::*;

verus! {

/// The keywords of the language, matched by exact text.
#[derive(Clone, Copy, Debug, Eq, Hash, Ord, PartialEq, PartialOrd, Structural)]
pub enum Keyword {
    Fn,
    If,
    Return,
}

/// The exact source text of a keyword.
pub open spec fn spec_keyword_text(k: Keyword) -> Seq<char> {
    match k {
        Keyword::Fn => "fn"@,
        Keyword::If => "if"@,
        Keyword::Return => "return"@,
    }
}

/// The keyword a piece of text denotes, if any: the whole text must equal the
/// keyword's own text.
pub open spec fn spec_keyword_lex(s: Seq<char>) -> Option<Keyword> {
    if s == "fn"@ {
        Some(Keyword::Fn)
    } else if s == "if"@ {
        Some(Keyword::If)
    } else if s == "return"@ {
        Some(Keyword::Return)
    } else {
        None
    }
}

/// Compares two pieces of text character by character.
pub fn str_eq(a: &str, b: &str) -> (r: bool)
    ensures
        r == (a@ == b@),
{
    let na = a.unicode_len();
    let nb = b.unicode_len();
    if na != nb {
        return false;
    }
    let mut i: usize = 0;
    while i < na
        invariant
            0 <= i <= na,
            na == a@.len(),
            na == b@.len(),
            forall|j: int| 0 <= j < i ==> a@[j] == b@[j],
        decreases na - i,
    {
        if a.get_char(i) != b.get_char(i) {
            return false;
        }
        i += 1;
    }
    proof {
        assert(a@ =~= b@);
    }
    true
}

impl Keyword {
    /// The keyword table: sorted by text and by kind alike, the two orders
    /// agreeing pairwise, for lookup in either direction.
    pub const MAP: [(&'static str, Keyword); 3] = [
        ("fn", Keyword::Fn),
        ("if", Keyword::If),
        ("return", Keyword::Return),
    ];

    /// The keyword whose text is exactly the given text, if there is one.
    pub fn lex(src: &str) -> (r: Option<Keyword>)
        ensures
            r == spec_keyword_lex(src@),
    {
        if str_eq(src, "fn") {
            Some(Keyword::Fn)
        } else if str_eq(src, "if") {
            Some(Keyword::If)
        } else if str_eq(src, "return") {
            Some(Keyword::Return)
        } else {
            None
        }
    }

    /// The exact source text this keyword was lexed from.
    pub fn unlex(&self) -> (r: &'static str)
        ensures
            r@ == spec_keyword_text(*self),
    {
        match self {
            Keyword::Fn => "fn",
            Keyword::If => "if",
            Keyword::Return => "return",
        }
    }
}

/// The two directions of the keyword table agree: looking a keyword's own text
/// back up yields exactly that keyword, and a successful lookup only ever
/// returns a keyword whose text is the looked-up text.
pub proof fn lemma_keyword_table_consistent(k: Keyword, s: Seq<char>)
    ensures
        spec_keyword_lex(spec_keyword_text(k)) == Some(k),
        spec_keyword_lex(s) matches Some(k2) ==> s == spec_keyword_text(k2),
{
    reveal_strlit("fn");
    reveal_strlit("if");
    reveal_strlit("return");
    assert("fn"@ != "if"@) by {
        assert("fn"@[0] != "if"@[0]);
    }
    assert("fn"@ != "return"@) by {
        assert("fn"@.len() != "return"@.len());
    }
    assert("if"@ != "return"@) by {
        assert("if"@.len() != "return"@.len());
    }
}

} // verus!
