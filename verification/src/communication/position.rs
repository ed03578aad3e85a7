use vstd::prelude::*;

verus! {

/// A character the front end accepts in source text: printable ASCII
/// (space through `~`) or a newline.
pub open spec fn is_lexable_char(c: char) -> bool {
    (' ' <= c && c <= '~') || c == '\n'
}

/// A character sequence every element of which the front end accepts.
pub open spec fn all_lexable(s: Seq<char>) -> bool {
    forall|i: int| 0 <= i < s.len() ==> is_lexable_char(#[trigger] s[i])
}

/// Where a single character moves a (line, column) coordinate: a newline
/// starts the next line, any other accepted character moves one column right.
pub open spec fn stepped(line: int, column: int, c: char) -> (int, int) {
    if c == '\n' {
        (line + 1, 1)
    } else {
        (line, column + 1)
    }
}

/// Where a character sequence moves a (line, column) coordinate.
/// A carriage return itself does not move the coordinate: paired with the
/// newline that must follow it, the two together take one newline step.
pub open spec fn stepped_str(line: int, column: int, s: Seq<char>) -> (int, int)
    decreases s.len(),
{
    if s.len() == 0 {
        (line, column)
    } else if s[0] == '\r' {
        stepped_str(line, column, s.drop_first())
    } else {
        stepped_str(stepped(line, column, s[0]).0, stepped(line, column, s[0]).1, s.drop_first())
    }
}

/// Text that `Position::advance_str` accepts: every character is an accepted
/// character, or a carriage return immediately followed by a newline.
pub open spec fn advance_ready(s: Seq<char>) -> bool {
    forall|i: int|
        0 <= i < s.len() ==> (is_lexable_char(#[trigger] s[i]) || (s[i] == '\r' && i + 1 < s.len()
            && s[i + 1] == '\n'))
}

/// A 1-based (line, column) coordinate in source text. Only coordinates with
/// both components at least 1 can be constructed.
#[derive(Clone, Copy, Debug, Eq, Hash, PartialEq, Structural)]
pub struct Position {
    line: usize,
    column: usize,
}

impl Position {
    /// Both components of a position are at least 1.
    pub open spec fn wf(&self) -> bool {
        self.spec_line() >= 1 && self.spec_column() >= 1
    }

    pub closed spec fn spec_line(&self) -> usize {
        self.line
    }

    pub closed spec fn spec_column(&self) -> usize {
        self.column
    }

    pub fn new(line: usize, column: usize) -> (r: Position)
        requires
            line >= 1,
            column >= 1,
        ensures
            r.spec_line() == line,
            r.spec_column() == column,
    {
        Position { line, column }
    }

    #[verifier::when_used_as_spec(spec_line)]
    pub fn line(&self) -> (r: usize)
        ensures
            r == self.spec_line(),
    {
        self.line
    }

    #[verifier::when_used_as_spec(spec_column)]
    pub fn column(&self) -> (r: usize)
        ensures
            r == self.spec_column(),
    {
        self.column
    }

    /// The first position of any text: line 1, column 1.
    pub fn start() -> (r: Position)
        ensures
            r.spec_line() == 1,
            r.spec_column() == 1,
    {
        Position::new(1, 1)
    }

    pub fn set_line(&mut self, line: usize)
        requires
            old(self).wf(),
            line >= 1,
        ensures
            final(self).spec_line() == line,
            final(self).spec_column() == old(self).spec_column(),
    {
        *self = Position::new(line, self.column());
    }

    pub fn set_column(&mut self, column: usize)
        requires
            old(self).wf(),
            column >= 1,
        ensures
            final(self).spec_line() == old(self).spec_line(),
            final(self).spec_column() == column,
    {
        *self = Position::new(self.line(), column);
    }

    /// Moves the position over one accepted character.
    pub fn advance(&mut self, c: char)
        requires
            old(self).wf(),
            is_lexable_char(c),
            c == '\n' ==> old(self).spec_line() < usize::MAX,
            c != '\n' ==> old(self).spec_column() < usize::MAX,
        ensures
            final(self).wf(),
            (final(self).spec_line() as int, final(self).spec_column() as int) == stepped(
                old(self).spec_line() as int,
                old(self).spec_column() as int,
                c,
            ),
    {
        match c {
            '\n' => {
                let line = self.line();
                self.set_line(line + 1);
                self.set_column(1);
            },
            _ => {
                let column = self.column();
                self.set_column(column + 1);
            },
        }
    }

    /// Moves the position over a whole text, a carriage return paired with the
    /// newline that must follow it taking a single newline step.
    pub fn advance_str(&mut self, s: &str)
        requires
            old(self).wf(),
            advance_ready(s@),
            old(self).spec_line() + old(self).spec_column() + s@.len() <= usize::MAX,
        ensures
            final(self).wf(),
            (final(self).spec_line() as int, final(self).spec_column() as int) == stepped_str(
                old(self).spec_line() as int,
                old(self).spec_column() as int,
                s@,
            ),
    {
        let ghost l0 = self.spec_line() as int;
        let ghost c0 = self.spec_column() as int;
        let n = s.unicode_len();
        let mut i: usize = 0;
        while i < n
            invariant
                0 <= i <= n,
                n == s@.len(),
                advance_ready(s@),
                self.wf(),
                (self.spec_line() as int, self.spec_column() as int) == stepped_str(
                    l0,
                    c0,
                    s@.take(i as int),
                ),
                self.spec_line() + self.spec_column() <= l0 + c0 + i,
                l0 + c0 + n <= usize::MAX,
            decreases n - i,
        {
            let c = s.get_char(i);
            proof {
                lemma_stepped_str_snoc(l0, c0, s@, i as int);
            }
            if c != '\r' {
                self.advance(c);
            }
            i += 1;
        }
        proof {
            assert(s@.take(n as int) =~= s@);
        }
    }
}

/// Stepping over text keeps a position well formed, grows line and column
/// together by at most the text's length, and never moves backwards: the line
/// never decreases, and on an unchanged line the column never decreases.
pub proof fn lemma_stepped_str_bounds(line: int, column: int, s: Seq<char>)
    requires
        line >= 1,
        column >= 1,
    ensures
        ({
            let (l, c) = stepped_str(line, column, s);
            l >= 1 && c >= 1 && l + c <= line + column + s.len() && l >= line && (l > line || c
                >= column)
        }),
    decreases s.len(),
{
    if s.len() > 0 {
        if s[0] == '\r' {
            lemma_stepped_str_bounds(line, column, s.drop_first());
        } else {
            lemma_stepped_str_bounds(
                stepped(line, column, s[0]).0,
                stepped(line, column, s[0]).1,
                s.drop_first(),
            );
        }
    }
}

/// Stepping over a single character other than a carriage return is one step.
pub proof fn lemma_stepped_str_one(line: int, column: int, c: char)
    requires
        c != '\r',
    ensures
        stepped_str(line, column, seq![c]) == stepped(line, column, c),
{
    assert(seq![c].drop_first() =~= Seq::<char>::empty());
    assert(stepped_str(stepped(line, column, c).0, stepped(line, column, c).1, Seq::<char>::empty())
        == stepped(line, column, c));
}

/// Stepping over a concatenation is stepping over its parts in order.
pub proof fn lemma_stepped_str_concat(line: int, column: int, a: Seq<char>, b: Seq<char>)
    ensures
        stepped_str(line, column, a + b) == stepped_str(
            stepped_str(line, column, a).0,
            stepped_str(line, column, a).1,
            b,
        ),
    decreases a.len(),
{
    if a.len() == 0 {
        assert(a + b =~= b);
    } else {
        assert((a + b)[0] == a[0]);
        assert((a + b).drop_first() =~= a.drop_first() + b);
        if a[0] == '\r' {
            lemma_stepped_str_concat(line, column, a.drop_first(), b);
        } else {
            lemma_stepped_str_concat(
                stepped(line, column, a[0]).0,
                stepped(line, column, a[0]).1,
                a.drop_first(),
                b,
            );
        }
    }
}

/// Extending the text by one character composes with a single step
/// (or with no step, for a carriage return).
pub proof fn lemma_stepped_str_snoc(line: int, column: int, s: Seq<char>, i: int)
    requires
        0 <= i < s.len(),
    ensures
        ({
            let (l, c) = stepped_str(line, column, s.take(i));
            stepped_str(line, column, s.take(i + 1)) == if s[i] == '\r' {
                (l, c)
            } else {
                stepped(l, c, s[i])
            }
        }),
    decreases i,
{
    assert(s.take(i + 1)[0] == s[0]);
    assert(s.take(i + 1).len() == i + 1);
    if i == 0 {
        assert(s.take(1).drop_first() =~= Seq::<char>::empty());
        assert(s.take(0) =~= Seq::<char>::empty());
        assert(stepped_str(line, column, s.take(0)) == (line, column));
        if s[0] == '\r' {
            assert(stepped_str(line, column, s.take(1)) == (line, column));
        } else {
            let ghost l1 = stepped(line, column, s[0]).0;
            let ghost c1 = stepped(line, column, s[0]).1;
            assert(stepped_str(l1, c1, Seq::<char>::empty()) == (l1, c1));
            assert(stepped_str(line, column, s.take(1)) == stepped(line, column, s[0]));
        }
    } else {
        let ghost s1 = s.drop_first();
        assert(s.take(i)[0] == s[0]);
        assert(s1[i - 1] == s[i]);
        assert(s.take(i + 1).drop_first() =~= s1.take(i));
        assert(s.take(i).drop_first() =~= s1.take(i - 1));
        if s[0] == '\r' {
            lemma_stepped_str_snoc(line, column, s1, i - 1);
            assert(stepped_str(line, column, s.take(i + 1)) == stepped_str(
                line,
                column,
                s1.take(i),
            ));
            assert(stepped_str(line, column, s.take(i)) == stepped_str(
                line,
                column,
                s1.take(i - 1),
            ));
        } else {
            let ghost l1 = stepped(line, column, s[0]).0;
            let ghost c1 = stepped(line, column, s[0]).1;
            lemma_stepped_str_snoc(l1, c1, s1, i - 1);
            assert(stepped_str(line, column, s.take(i + 1)) == stepped_str(l1, c1, s1.take(i)));
            assert(stepped_str(line, column, s.take(i)) == stepped_str(l1, c1, s1.take(i - 1)));
        }
    }
}

} // verus!
