use crate::communication::position::{
    all_lexable, is_lexable_char, lemma_stepped_str_bounds, lemma_stepped_str_snoc, stepped,
    stepped_str,
};
use vstd::prelude::*;

verus! {

/// A relative move by a token's own extent — the position its text steps to
/// from the start — lands exactly where stepping over the text itself would:
/// the relative encoding loses nothing.
pub proof fn lemma_rel_moved_stepped(line: int, column: int, s: Seq<char>)
    requires
        line >= 1,
        column >= 1,
        all_lexable(s),
    ensures
        ({
            let e = stepped_str(1, 1, s);
            rel_moved(line, column, e.0, e.1) == stepped_str(line, column, s)
        }),
    decreases s.len(),
{
    if s.len() == 0 {
        assert(stepped_str(1, 1, s) == (1int, 1int));
        assert(stepped_str(line, column, s) == (line, column));
    } else {
        let n = s.len() as int;
        let s0 = s.take(n - 1);
        let ch = s[n - 1];
        assert forall|i: int| 0 <= i < s0.len() implies is_lexable_char(#[trigger] s0[i]) by {
            assert(s0[i] == s[i]);
        }
        lemma_rel_moved_stepped(line, column, s0);
        assert(s.take(n) =~= s);
        lemma_stepped_str_snoc(1, 1, s, n - 1);
        lemma_stepped_str_snoc(line, column, s, n - 1);
        lemma_stepped_str_bounds(1, 1, s0);
        lemma_stepped_str_bounds(line, column, s0);
        assert(ch != '\r');
    }
}

/// Where a relative move lands: a relative extent on line 1 stays on the same
/// line and adds its columns; one on a later line advances that many lines and
/// sets the column absolutely.
pub open spec fn rel_moved(line: int, column: int, to_line: int, to_column: int) -> (int, int) {
    if to_line == 1 {
        (line, column + to_column - 1)
    } else {
        (line + to_line - 1, to_column)
    }
}

/// A 1-based (line, column) coordinate in source text. Only coordinates with
/// both components at least 1 can be constructed.
#[derive(Clone, Copy, Debug, Eq, Hash, PartialEq, Structural)]
pub struct Position {
    line: usize,
    column: usize,
}

impl Position {
    /// Both components of a position are at least 1.
    pub open spec fn wf(&self) -> bool {
        self.spec_line() >= 1 && self.spec_column() >= 1
    }

    pub closed spec fn spec_line(&self) -> usize {
        self.line
    }

    pub closed spec fn spec_column(&self) -> usize {
        self.column
    }

    pub fn new(line: usize, column: usize) -> (r: Position)
        requires
            line >= 1,
            column >= 1,
        ensures
            r.spec_line() == line,
            r.spec_column() == column,
    {
        Position { line, column }
    }

    #[verifier::when_used_as_spec(spec_line)]
    pub fn line(&self) -> (r: usize)
        ensures
            r == self.spec_line(),
    {
        self.line
    }

    #[verifier::when_used_as_spec(spec_column)]
    pub fn column(&self) -> (r: usize)
        ensures
            r == self.spec_column(),
    {
        self.column
    }

    /// The first position of any text: line 1, column 1.
    pub fn start() -> (r: Position)
        ensures
            r.spec_line() == 1,
            r.spec_column() == 1,
    {
        Position::new(1, 1)
    }

    pub fn set_line(&mut self, line: usize)
        requires
            old(self).wf(),
            line >= 1,
        ensures
            final(self).spec_line() == line,
            final(self).spec_column() == old(self).spec_column(),
    {
        *self = Position::new(line, self.column());
    }

    pub fn set_column(&mut self, column: usize)
        requires
            old(self).wf(),
            column >= 1,
        ensures
            final(self).spec_line() == old(self).spec_line(),
            final(self).spec_column() == column,
    {
        *self = Position::new(self.line(), column);
    }

    /// Moves the position over one accepted character.
    pub fn advance(&mut self, c: char)
        requires
            old(self).wf(),
            is_lexable_char(c),
            c == '\n' ==> old(self).spec_line() < usize::MAX,
            c != '\n' ==> old(self).spec_column() < usize::MAX,
        ensures
            final(self).wf(),
            (final(self).spec_line() as int, final(self).spec_column() as int) == stepped(
                old(self).spec_line() as int,
                old(self).spec_column() as int,
                c,
            ),
    {
        match c {
            '\n' => {
                let line = self.line();
                self.set_line(line + 1);
                self.set_column(1);
            },
            _ => {
                let column = self.column();
                self.set_column(column + 1);
            },
        }
    }

    /// Composes this position with a second, relative position describing a
    /// token's own extent.
    pub fn relative_move(&mut self, to: Position)
        requires
            old(self).wf(),
            to.wf(),
            to.spec_line() == 1 ==> old(self).spec_column() + to.spec_column() - 1 <= usize::MAX,
            to.spec_line() != 1 ==> old(self).spec_line() + to.spec_line() - 1 <= usize::MAX,
        ensures
            final(self).wf(),
            (final(self).spec_line() as int, final(self).spec_column() as int) == rel_moved(
                old(self).spec_line() as int,
                old(self).spec_column() as int,
                to.spec_line() as int,
                to.spec_column() as int,
            ),
    {
        if to.line() == 1 {
            let column = self.column();
            self.set_column(column - 1 + to.column());
        } else {
            let line = self.line();
            self.set_line(line - 1 + to.line());
            self.set_column(to.column());
        }
    }
}

} // verus!
