//! The document: an ordered list of lines and a cursor into it.
use vstd::prelude::*;
use vstd::math::min;

verus! {

/// A document of at least one line, with a cursor at `(line, column)`.
pub struct LineBuffer {
    pub lines: Vec<Vec<char>>,
    pub line: usize,
    pub column: usize,
}

impl LineBuffer {
    /// The lines as sequences of characters.
    pub open spec fn text(&self) -> Seq<Seq<char>> {
        Seq::new(self.lines@.len(), |i: int| self.lines@[i]@)
    }

    /// At least one line, and the cursor stands inside the document.
    pub open spec fn wf(&self) -> bool {
        &&& self.lines@.len() >= 1
        &&& self.line < self.lines@.len()
        &&& self.column <= self.lines@[self.line as int]@.len()
    }

    /// The line the cursor is on.
    pub open spec fn cur(&self) -> Seq<char> {
        self.lines@[self.line as int]@
    }

    /// `n` is this buffer after Backspace.
    pub open spec fn backspaced(self, n: LineBuffer) -> bool {
        &&& self.column > 0 ==> {
            &&& n.line == self.line
            &&& n.column == self.column - 1
            &&& n.text() == self.text().update(self.line as int, self.cur().remove(self.column - 1))
        }
        &&& self.column == 0 && self.line > 0 ==> {
            &&& n.line == self.line - 1
            &&& n.column == self.text()[self.line - 1].len()
            &&& n.text() == self.text()
        }
        &&& self.column == 0 && self.line == 0 ==> n == self
    }

    /// `n` is this buffer after Left.
    pub open spec fn moved_left(self, n: LineBuffer) -> bool {
        &&& n.lines == self.lines
        &&& n.line == self.line
        &&& n.column == if self.column > 0 {
            self.column - 1
        } else {
            0
        }
    }

    /// `n` is this buffer after Right.
    pub open spec fn moved_right(self, n: LineBuffer) -> bool {
        &&& n.lines == self.lines
        &&& n.line == self.line
        &&& n.column == if self.column < self.cur().len() {
            self.column + 1
        } else {
            self.column as int
        }
    }

    /// `n` is this buffer after Up: the column is kept where the line above
    /// is long enough, else clamped to its end.
    pub open spec fn moved_up(self, n: LineBuffer) -> bool {
        &&& n.lines == self.lines
        &&& self.line > 0 ==> {
            &&& n.line == self.line - 1
            &&& n.column == min(self.column as int, self.text()[self.line - 1].len() as int)
        }
        &&& self.line == 0 ==> n == self
    }

    /// `n` is this buffer after Down: the start of the next line.
    pub open spec fn moved_down(self, n: LineBuffer) -> bool {
        &&& n.lines == self.lines
        &&& self.line + 1 < self.lines@.len() ==> {
            &&& n.line == self.line + 1
            &&& n.column == 0
        }
        &&& self.line + 1 >= self.lines@.len() ==> n == self
    }

    /// A document of one empty line, with the cursor at its start.
    pub fn new() -> (r: LineBuffer)
        ensures
            r.wf(),
            r.text() == seq![Seq::<char>::empty()],
            r.line == 0,
            r.column == 0,
    {
        let mut lines: Vec<Vec<char>> = Vec::new();
        lines.push(Vec::new());
        let r = LineBuffer { lines, line: 0, column: 0 };
        assert(r.text() =~= seq![Seq::<char>::empty()]);
        r
    }

    /// Inserts `c` at the cursor and moves the cursor past it.
    pub fn insert_char(&mut self, c: char)
        requires
            old(self).wf(),
        ensures
            final(self).wf(),
            final(self).line == old(self).line,
            final(self).column == old(self).column + 1,
            final(self).text() == old(self).text().update(
                old(self).line as int,
                old(self).cur().insert(old(self).column as int, c),
            ),
    {
        let ghost before = self.text();
        let l = self.line;
        let col = self.column;
        self.lines[l].insert(col, c);
        let n = self.lines[l].len();
        assert(col < n);
        self.column = col + 1;
        assert(self.text() =~= before.update(l as int, before[l as int].insert(col as int, c)));
    }

    /// Backspace. Inside a line, removes the character left of the cursor.
    /// At the start of a line other than the first, moves the cursor to the
    /// end of the previous line and leaves both lines as they are: lines are
    /// never joined. At the very start of the document, does nothing.
    pub fn delete_before_cursor(&mut self)
        requires
            old(self).wf(),
        ensures
            final(self).wf(),
            old(self).backspaced(*final(self)),
    {
        let ghost before = self.text();
        let l = self.line;
        let col = self.column;
        if col > 0 {
            self.lines[l].remove(col - 1);
            self.column = col - 1;
            assert(self.text() =~= before.update(l as int, before[l as int].remove(col - 1)));
        } else if l > 0 {
            self.line = l - 1;
            self.column = self.lines[l - 1].len();
            assert(self.text() =~= before);
        }
    }

    /// Moves the cursor one character left, if it is not at the start of the line.
    pub fn move_left(&mut self)
        requires
            old(self).wf(),
        ensures
            final(self).wf(),
            old(self).moved_left(*final(self)),
    {
        if self.column > 0 {
            self.column = self.column - 1;
        }
    }

    /// Moves the cursor one character right, if it is not at the end of the line.
    pub fn move_right(&mut self)
        requires
            old(self).wf(),
        ensures
            final(self).wf(),
            old(self).moved_right(*final(self)),
    {
        if self.column < self.lines[self.line].len() {
            self.column = self.column + 1;
        }
    }

    /// Moves the cursor to the previous line, if there is one, keeping the
    /// column where that line is long enough and clamping it to the line's
    /// end otherwise.
    pub fn move_up(&mut self)
        requires
            old(self).wf(),
        ensures
            final(self).wf(),
            old(self).moved_up(*final(self)),
    {
        if self.line > 0 {
            let l = self.line - 1;
            let n = self.lines[l].len();
            self.line = l;
            if n < self.column {
                self.column = n;
            }
        }
    }

    /// Moves the cursor to the start of the next line, if there is one.
    pub fn move_down(&mut self)
        requires
            old(self).wf(),
        ensures
            final(self).wf(),
            old(self).moved_down(*final(self)),
    {
        let n = self.lines.len();
        if self.line < n - 1 {
            self.line = self.line + 1;
            self.column = 0;
        }
    }

    /// Inserts `content` as a new line right after the cursor's line. The
    /// cursor stays where it is.
    pub fn insert_line_after(&mut self, content: Vec<char>)
        requires
            old(self).wf(),
        ensures
            final(self).wf(),
            final(self).line == old(self).line,
            final(self).column == old(self).column,
            final(self).text() == old(self).text().insert(old(self).line + 1, content@),
    {
        let ghost before = self.text();
        let ghost cv = content@;
        let l = self.line;
        let n = self.lines.len();
        assert(l < n);
        self.lines.insert(l + 1, content);
        assert(self.text() =~= before.insert(l + 1, cv));
    }

    /// Removes the line at `index`. The only line of the document is
    /// emptied instead, with the cursor at its start. Removing another line
    /// before the cursor's keeps the cursor on its line; removing the
    /// cursor's own line puts the cursor at the start of the line that takes
    /// its place, or of the new last line.
    pub fn remove_line(&mut self, index: usize)
        requires
            old(self).wf(),
            index < old(self).lines@.len(),
        ensures
            final(self).wf(),
            old(self).lines@.len() == 1 ==> {
                &&& final(self).text() == seq![Seq::<char>::empty()]
                &&& final(self).line == 0
                &&& final(self).column == 0
            },
            old(self).lines@.len() > 1 ==> {
                &&& final(self).text() == old(self).text().remove(index as int)
                &&& index < old(self).line ==> final(self).line == old(self).line - 1
                    && final(self).column == old(self).column
                &&& index > old(self).line ==> final(self).line == old(self).line
                    && final(self).column == old(self).column
                &&& index == old(self).line ==> final(self).line == min(
                    old(self).line as int,
                    old(self).lines@.len() - 2,
                ) && final(self).column == 0
            },
    {
        let ghost before = self.text();
        if self.lines.len() == 1 {
            self.lines = Vec::new();
            self.lines.push(Vec::new());
            self.line = 0;
            self.column = 0;
            assert(self.text() =~= seq![Seq::<char>::empty()]);
            return;
        }
        self.lines.remove(index);
        if index < self.line {
            self.line = self.line - 1;
        } else if index == self.line {
            if self.line == self.lines.len() {
                self.line = self.line - 1;
            }
            self.column = 0;
        }
        assert(self.text() =~= before.remove(index as int));
    }

    /// Enter: opens a new empty line right after the cursor's line and moves
    /// the cursor to its start. The text after the cursor stays where it was:
    /// lines are never split.
    pub fn open_line(&mut self)
        requires
            old(self).wf(),
        ensures
            final(self).wf(),
            final(self).line == old(self).line + 1,
            final(self).column == 0,
            final(self).text() == old(self).text().insert(old(self).line + 1, Seq::empty()),
    {
        let ghost before = self.text();
        self.insert_line_after(Vec::new());
        assert(self.text().len() == before.len() + 1);
        assert(before.len() == old(self).lines@.len());
        let n = self.lines.len();
        assert(self.line + 1 < n);
        self.line = self.line + 1;
        self.column = 0;
    }

    /// Types the characters of `cs` one after another, with no other key
    /// between them: the cursor advances by exactly as many columns as
    /// characters were typed, and they stand in order at its old place.
    pub fn type_chars(&mut self, cs: &Vec<char>)
        requires
            old(self).wf(),
        ensures
            final(self).wf(),
            final(self).line == old(self).line,
            final(self).column == old(self).column + cs@.len(),
            final(self).text() == old(self).text().update(
                old(self).line as int,
                old(self).cur().subrange(0, old(self).column as int) + cs@ + old(self).cur().subrange(
                    old(self).column as int,
                    old(self).cur().len() as int,
                ),
            ),
    {
        let ghost t0 = self.text();
        let ghost l = self.line as int;
        let ghost c0 = self.column as int;
        let ghost cur0 = self.cur();
        let mut k: usize = 0;
        assert(cur0.subrange(0, c0) + cs@.subrange(0, 0) + cur0.subrange(c0, cur0.len() as int)
            =~= cur0);
        assert(t0.update(l, cur0) =~= t0);
        while k < cs.len()
            invariant
                self.wf(),
                k <= cs@.len(),
                self.line == l,
                self.column == c0 + k,
                0 <= c0 <= cur0.len(),
                l < t0.len(),
                cur0 == t0[l],
                self.text() == t0.update(
                    l,
                    cur0.subrange(0, c0) + cs@.subrange(0, k as int) + cur0.subrange(
                        c0,
                        cur0.len() as int,
                    ),
                ),
            decreases cs@.len() - k,
        {
            let ghost before = self.text();
            let ghost mid = cur0.subrange(0, c0) + cs@.subrange(0, k as int) + cur0.subrange(
                c0,
                cur0.len() as int,
            );
            assert(self.cur() == before[l]);
            assert(before[l] == mid);
            self.insert_char(cs[k]);
            k = k + 1;
            assert(self.text() == before.update(l, mid.insert(c0 + k - 1, cs@[k - 1])));
            assert(cur0.subrange(0, c0) + cs@.subrange(0, k as int) + cur0.subrange(
                c0,
                cur0.len() as int,
            ) =~= (cur0.subrange(0, c0) + cs@.subrange(0, k - 1) + cur0.subrange(
                c0,
                cur0.len() as int,
            )).insert(c0 + k - 1, cs@[k - 1]));
            assert(self.text() =~= t0.update(
                l,
                cur0.subrange(0, c0) + cs@.subrange(0, k as int) + cur0.subrange(
                    c0,
                    cur0.len() as int,
                ),
            ));
        }
        assert(cs@.subrange(0, cs@.len() as int) =~= cs@);
    }
}

/// Inserting a character and then deleting the character before the cursor
/// leaves the document as it was: the text that `insert_char` leaves,
/// changed as `delete_before_cursor` changes it from the column after the
/// new character, is the text before.
pub proof fn insert_then_delete(b: LineBuffer, c: char)
    requires
        b.wf(),
    ensures
        b.text().update(b.line as int, b.cur().insert(b.column as int, c)).update(
            b.line as int,
            b.cur().insert(b.column as int, c).remove(b.column + 1 - 1),
        ) == b.text(),
{
    assert(b.cur().insert(b.column as int, c).remove(b.column as int) =~= b.cur());
    assert(b.text().update(b.line as int, b.cur()) =~= b.text());
    assert(b.text().update(b.line as int, b.cur().insert(b.column as int, c)).update(
        b.line as int,
        b.cur(),
    ) =~= b.text().update(b.line as int, b.cur()));
}

} // verus!
