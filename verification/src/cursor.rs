use vstd::prelude::*;

use crate::render::chars_to_string;
use crate::render::dec_digits;
use crate::render::push_dec;

verus! {

/// Top-left corner of the screen region a render cursor may roam in.
pub struct Origin {
    pub line: u32,
    pub column: u32,
}

/// Extent of the screen region, in lines and columns.
pub struct Size {
    pub lines: u32,
    pub columns: u32,
}

/// A screen cursor confined to a rectangular region: it moves one cell at
/// a time and never leaves the bounds given by its origin and limit.
pub struct Cursor {
    pub line: u32,
    pub column: u32,
    pub origin: Origin,
    pub limit: Size,
}

/// The display line a cursor reports: its line and column, then the
/// origin's and the limit's coordinates, all in decimal.
pub open spec fn cursor_repr(c: Cursor) -> Seq<char> {
    "C(l:"@ + dec_digits(c.line as nat) + " c:"@ + dec_digits(c.column as nat) + " O("@
        + dec_digits(c.origin.line as nat) + seq![','] + dec_digits(c.origin.column as nat)
        + ") S("@ + dec_digits(c.limit.lines as nat) + seq![','] + dec_digits(
        c.limit.columns as nat,
    ) + seq![')'] + seq![')']
}

impl Cursor {
    /// A cursor placed at `origin`, allowed to roam `size` cells past it.
    pub fn new(origin: Origin, size: Size) -> (r: Self)
        requires
            origin.line + size.lines <= u32::MAX,
            origin.column + size.columns <= u32::MAX,
        ensures
            r.line == origin.line,
            r.column == origin.column,
            r.origin == origin,
            r.limit.lines == origin.line + size.lines,
            r.limit.columns == origin.column + size.columns,
    {
        Cursor {
            line: origin.line,
            column: origin.column,
            limit: Size { lines: origin.line + size.lines, columns: origin.column + size.columns },
            origin,
        }
    }

    /// One line down, unless the lower limit is already reached.
    pub fn down(&mut self)
        ensures
            final(self).line == if old(self).line < old(self).limit.lines {
                old(self).line + 1
            } else {
                old(self).line as int
            },
            final(self).column == old(self).column,
            final(self).origin == old(self).origin,
            final(self).limit == old(self).limit,
    {
        if self.line < self.limit.lines {
            self.line += 1;
        }
    }

    /// One line up, unless already on the origin line.
    pub fn up(&mut self)
        ensures
            final(self).line == if old(self).line > old(self).origin.line {
                old(self).line - 1
            } else {
                old(self).line as int
            },
            final(self).column == old(self).column,
            final(self).origin == old(self).origin,
            final(self).limit == old(self).limit,
    {
        if self.line > self.origin.line {
            self.line -= 1;
        }
    }

    /// One column right, unless the right limit is already reached.
    pub fn right(&mut self)
        ensures
            final(self).column == if old(self).column < old(self).limit.columns {
                old(self).column + 1
            } else {
                old(self).column as int
            },
            final(self).line == old(self).line,
            final(self).origin == old(self).origin,
            final(self).limit == old(self).limit,
    {
        if self.column < self.limit.columns {
            self.column += 1;
        }
    }

    /// One column left, unless already on the origin column.
    pub fn left(&mut self)
        ensures
            final(self).column == if old(self).column > old(self).origin.column {
                old(self).column - 1
            } else {
                old(self).column as int
            },
            final(self).line == old(self).line,
            final(self).origin == old(self).origin,
            final(self).limit == old(self).limit,
    {
        if self.column > self.origin.column {
            self.column -= 1;
        }
    }

    /// The display line for this cursor; see `cursor_repr`.
    pub fn repr(&self) -> (s: String)
        ensures
            s@ == cursor_repr(*self),
    {
        let mut v: Vec<char> = Vec::new();
        v.push('C');
        v.push('(');
        v.push('l');
        v.push(':');
        proof {
            reveal_strlit("C(l:");
            assert(v@ =~= "C(l:"@);
        }
        push_dec(&mut v, self.line as usize);
        let ghost p1 = "C(l:"@ + dec_digits(self.line as nat);
        assert(v@ =~= p1);
        v.push(' ');
        v.push('c');
        v.push(':');
        proof {
            reveal_strlit(" c:");
            assert(v@ =~= p1 + " c:"@);
        }
        push_dec(&mut v, self.column as usize);
        v.push(' ');
        v.push('O');
        v.push('(');
        proof {
            reveal_strlit(" O(");
            assert(v@ =~= p1 + " c:"@ + dec_digits(self.column as nat) + " O("@);
        }
        push_dec(&mut v, self.origin.line as usize);
        v.push(',');
        let ghost p2 = p1 + " c:"@ + dec_digits(self.column as nat) + " O("@ + dec_digits(
            self.origin.line as nat,
        ) + seq![','];
        assert(v@ =~= p2);
        push_dec(&mut v, self.origin.column as usize);
        v.push(')');
        v.push(' ');
        v.push('S');
        v.push('(');
        proof {
            reveal_strlit(") S(");
            assert(v@ =~= p2 + dec_digits(self.origin.column as nat) + ") S("@);
        }
        push_dec(&mut v, self.limit.lines as usize);
        v.push(',');
        let ghost p3 = p2 + dec_digits(self.origin.column as nat) + ") S("@ + dec_digits(
            self.limit.lines as nat,
        ) + seq![','];
        assert(v@ =~= p3);
        push_dec(&mut v, self.limit.columns as usize);
        v.push(')');
        v.push(')');
        let s = chars_to_string(v);
        proof {
            assert(s@ =~= cursor_repr(*self));
        }
        s
    }

    /// Back to the first column of the region.
    pub fn set_first_column(&mut self)
        ensures
            final(self).column == old(self).origin.column,
            final(self).line == old(self).line,
            final(self).origin == old(self).origin,
            final(self).limit == old(self).limit,
    {
        self.column = self.origin.column;
    }
}

} // verus!
