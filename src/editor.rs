//! The editor's state: the text in a gap buffer, and the line index, a
//! count of characters per line that places the cursor on screen.
use crate::gap_buffer::{decode, GapBuffer, FILLER, GAP_REFILL};
use vstd::prelude::*;

verus! {

/// Sum of the first `k` line counts.
pub open spec fn prefix(lines: Seq<usize>, k: int) -> int
    decreases k,
{
    if k <= 0 || k > lines.len() {
        0
    } else {
        prefix(lines, k - 1) + lines[k - 1]
    }
}

/// The (column, row) of `offset`, looking from line `i` on: the first line
/// whose running total of characters exceeds `offset` holds it; past every
/// line it sits at the end of the last one.
pub open spec fn coord_from(lines: Seq<usize>, offset: int, i: int) -> (int, int)
    decreases lines.len() - i,
{
    if i < 0 || i >= lines.len() {
        (lines.last() as int, lines.len() - 1)
    } else if offset < prefix(lines, i + 1) {
        (offset - prefix(lines, i), i)
    } else {
        coord_from(lines, offset, i + 1)
    }
}

/// The (column, row) at which the line index places `offset`.
pub open spec fn cursor_coord(lines: Seq<usize>, offset: int) -> (int, int) {
    coord_from(lines, offset, 0)
}

/// The line counts of `text`: one entry per line, newlines not counted.
pub open spec fn line_counts(text: Seq<char>) -> Seq<usize>
    decreases text.len(),
{
    if text.len() == 0 {
        seq![0usize]
    } else {
        let prev = line_counts(text.drop_last());
        if text.last() == '\n' {
            prev.push(0)
        } else {
            prev.update(prev.len() - 1, (prev.last() + 1) as usize)
        }
    }
}

/// The line index after a character is typed: the last line grows by one.
pub open spec fn bump_last(lines: Seq<usize>) -> Seq<usize> {
    lines.update(lines.len() - 1, (lines.last() + 1) as usize)
}

/// The line index after a backspace: the last line shrinks by one, or, when
/// it is already empty and not the only line, it goes.
pub open spec fn shrink_last(lines: Seq<usize>) -> Seq<usize> {
    if lines.last() > 0 {
        lines.update(lines.len() - 1, (lines.last() - 1) as usize)
    } else if lines.len() > 1 {
        lines.drop_last()
    } else {
        lines
    }
}

proof fn lemma_prefix_mono(lines: Seq<usize>, k: int, m: int)
    requires
        0 <= k <= m <= lines.len(),
    ensures
        prefix(lines, k) <= prefix(lines, m),
    decreases m - k,
{
    if k < m {
        lemma_prefix_mono(lines, k, m - 1);
    }
}

proof fn lemma_prefix_agree(a: Seq<usize>, b: Seq<usize>, k: int)
    requires
        0 <= k <= a.len(),
        k <= b.len(),
        a.subrange(0, k) == b.subrange(0, k),
    ensures
        prefix(a, k) == prefix(b, k),
    decreases k,
{
    if k > 0 {
        assert(a[k - 1] == a.subrange(0, k)[k - 1]);
        assert(a.subrange(0, k - 1) =~= a.subrange(0, k).subrange(0, k - 1));
        assert(b.subrange(0, k - 1) =~= b.subrange(0, k).subrange(0, k - 1));
        lemma_prefix_agree(a, b, k - 1);
    }
}

proof fn lemma_index_steps(lines: Seq<usize>)
    requires
        lines.len() >= 1,
        prefix(lines, lines.len() as int) < usize::MAX,
    ensures
        lines.last() <= prefix(lines, lines.len() as int),
        prefix(bump_last(lines), lines.len() as int) == prefix(lines, lines.len() as int) + 1,
        prefix(lines.push(0), lines.len() as int + 1) == prefix(lines, lines.len() as int),
        lines.last() > 0 ==> prefix(shrink_last(lines), lines.len() as int) == prefix(
            lines,
            lines.len() as int,
        ) - 1,
        lines.last() == 0 && lines.len() > 1 ==> prefix(shrink_last(lines), lines.len() as int - 1)
            == prefix(lines, lines.len() as int),
        lines.last() == 0 && lines.len() == 1 ==> prefix(lines, 1) == 0,
{
    let n = lines.len() as int;
    lemma_prefix_mono(lines, 0, n - 1);
    assert(prefix(lines, 0) == 0);
    let b = bump_last(lines);
    assert(b.subrange(0, n - 1) =~= lines.subrange(0, n - 1));
    lemma_prefix_agree(b, lines, n - 1);
    let p = lines.push(0);
    assert(p.subrange(0, n) =~= lines.subrange(0, n));
    lemma_prefix_agree(p, lines, n);
    let d = lines.update(n - 1, (lines.last() - 1) as usize);
    assert(d.subrange(0, n - 1) =~= lines.subrange(0, n - 1));
    lemma_prefix_agree(d, lines, n - 1);
    if n > 1 {
        let e = lines.drop_last();
        assert(e.subrange(0, n - 1) =~= lines.subrange(0, n - 1));
        lemma_prefix_agree(e, lines, n - 1);
    }
}

/// A key press, as the editor tells them apart.
#[derive(Clone, Copy, Debug, PartialEq, Eq, Structural)]
pub enum Key {
    Char(char),
    Backspace,
    Enter,
    Left,
    Right,
    Esc,
}

/// A place on screen: column `x` of row `y`.
#[derive(Clone, Copy, Debug, PartialEq, Eq, Structural)]
pub struct CursorPos {
    pub x: usize,
    pub y: usize,
}

#[derive(Debug)]
pub struct App {
    pub exit: bool,
    pub buffer: GapBuffer<char>,
    /// Characters per line, top to bottom; the last entry is the line being
    /// typed.
    pub lines: Vec<usize>,
    pub filename: String,
}

impl App {
    /// The line index has an entry, and records no more characters and
    /// line breaks than the text holds.
    pub open spec fn wf(&self) -> bool {
        &&& self.buffer.wf()
        &&& self.lines@.len() >= 1
        &&& prefix(self.lines@, self.lines@.len() as int) + self.lines@.len() - 1
            <= self.buffer.content().len()
    }

    /// The editor opened on a file's `content`: the text loaded one
    /// character per byte with the cursor at its end, and a line index that
    /// counts the characters of each line.
    pub fn from_content(content: Vec<u8>, filename: String) -> (r: App)
        requires
            content@.len() + GAP_REFILL <= usize::MAX,
        ensures
            r.wf(),
            r.buffer.loaded_from(content@),
            r.lines@ == line_counts(decode(content@)),
            r.filename == filename,
            !r.exit,
    {
        let buffer = GapBuffer::from(content);
        let ghost text = decode(content@);
        let mut lines: Vec<usize> = Vec::new();
        lines.push(0);
        assert(lines@ =~= line_counts(text.subrange(0, 0)));
        assert(prefix(lines@, 0) == 0);
        let n = buffer.cursor;
        let mut i: usize = 0;
        while i < n
            invariant
                buffer.loaded_from(content@),
                text == decode(content@),
                n == text.len(),
                i <= n,
                lines@ == line_counts(text.subrange(0, i as int)),
                lines@.len() >= 1,
                prefix(lines@, lines@.len() as int) + lines@.len() - 1 == i,
            decreases n - i,
        {
            let c = buffer.buffer[i];
            let ghost pre = lines@;
            assert(text.subrange(0, i + 1).drop_last() =~= text.subrange(0, i as int));
            let k = lines.len() - 1;
            if c == '\n' {
                lines.push(0);
                proof {
                    assert(lines@.subrange(0, k + 1) =~= pre.subrange(0, k + 1));
                    lemma_prefix_agree(lines@, pre, k as int + 1);
                }
            } else {
                let last = lines[k];
                proof {
                    lemma_prefix_mono(pre, 0, k as int);
                }
                lines[k] = last + 1;
                proof {
                    assert(lines@.subrange(0, k as int) =~= pre.subrange(0, k as int));
                    lemma_prefix_agree(lines@, pre, k as int);
                }
            }
            i += 1;
        }
        assert(text.subrange(0, n as int) =~= text);
        App { exit: false, buffer, lines, filename }
    }

    /// Where the cursor stands on screen, by the line index.
    pub fn cursor_pos(&self) -> (r: CursorPos)
        requires
            self.wf(),
        ensures
            (r.x as int, r.y as int) == cursor_coord(self.lines@, self.buffer.cursor as int),
    {
        let ghost lines = self.lines@;
        let cursor = self.buffer.cursor;
        let mut position: usize = 0;
        let mut i: usize = 0;
        proof {
            lemma_prefix_mono(lines, 0, lines.len() as int);
        }
        while i < self.lines.len()
            invariant
                self.wf(),
                lines == self.lines@,
                cursor == self.buffer.cursor,
                i <= lines.len(),
                position == prefix(lines, i as int),
                position <= cursor,
                prefix(lines, lines.len() as int) <= usize::MAX,
                cursor_coord(lines, cursor as int) == coord_from(lines, cursor as int, i as int),
            decreases lines.len() - i,
        {
            let line = self.lines[i];
            proof {
                lemma_prefix_mono(lines, i as int + 1, lines.len() as int);
            }
            if cursor < position + line {
                return CursorPos { x: cursor - position, y: i };
            }
            position += line;
            i += 1;
        }
        let last = self.lines.len() - 1;
        CursorPos { x: self.lines[last], y: last }
    }

    /// Acts on one key press: a character or a newline is typed at the
    /// cursor, backspace deletes before it, the arrows move it, and escape
    /// asks the editor to close. The line index follows each edit on its last
    /// line.
    pub fn handle_key(&mut self, key: Key)
        requires
            old(self).wf(),
        ensures
            final(self).wf(),
            final(self).filename == old(self).filename,
            match key {
                Key::Char(c) => {
                    &&& old(self).buffer.insert_step(final(self).buffer, c)
                    &&& final(self).lines@ == bump_last(old(self).lines@)
                    &&& final(self).exit == old(self).exit
                },
                Key::Enter => {
                    &&& old(self).buffer.insert_step(final(self).buffer, '\n')
                    &&& final(self).lines@ == old(self).lines@.push(0)
                    &&& final(self).exit == old(self).exit
                },
                Key::Backspace => {
                    &&& old(self).buffer.delete_step(final(self).buffer)
                    &&& final(self).lines@ == shrink_last(old(self).lines@)
                    &&& final(self).exit == old(self).exit
                },
                Key::Left => {
                    &&& old(self).buffer.left_step(final(self).buffer)
                    &&& final(self).lines@ == old(self).lines@
                    &&& final(self).exit == old(self).exit
                },
                Key::Right => {
                    &&& old(self).buffer.right_step(final(self).buffer)
                    &&& final(self).lines@ == old(self).lines@
                    &&& final(self).exit == old(self).exit
                },
                Key::Esc => {
                    &&& final(self).buffer == old(self).buffer
                    &&& final(self).lines@ == old(self).lines@
                    &&& final(self).exit
                },
            },
    {
        let ghost pre = *self;
        proof {
            lemma_index_steps(pre.lines@);
        }
        let k = self.lines.len() - 1;
        match key {
            Key::Char(ch) => {
                self.buffer.insert(ch);
                let last = self.lines[k];
                self.lines[k] = last + 1;
                assert(self.lines@ =~= bump_last(pre.lines@));
            },
            Key::Esc => {
                self.exit = true;
            },
            Key::Backspace => {
                self.buffer.delete();
                let last = self.lines[k];
                if last > 0 {
                    self.lines[k] = last - 1;
                } else if self.lines.len() > 1 {
                    self.lines.pop();
                }
                assert(self.lines@ =~= shrink_last(pre.lines@));
            },
            Key::Enter => {
                self.buffer.insert('\n');
                self.lines.push(0);
            },
            Key::Left => {
                self.buffer.left();
            },
            Key::Right => {
                self.buffer.right();
            },
        }
    }
}

impl Default for App {
    /// An editor on no file: empty text, one empty line, and the file name
    /// `undefined`.
    fn default() -> (r: Self)
        ensures
            r.wf(),
            r.buffer.content() == Seq::<char>::empty(),
            r.buffer.cursor == 0,
            r.buffer.gap_size == GAP_REFILL,
            r.buffer.gap_value == FILLER,
            r.lines@ == seq![0usize],
            r.filename@ == "undefined"@,
            !r.exit,
    {
        let mut lines: Vec<usize> = Vec::new();
        lines.push(0);
        assert(prefix(lines@, 0) == 0);
        App {
            exit: false,
            buffer: GapBuffer::new(GAP_REFILL, FILLER),
            lines,
            filename: String::from_str("undefined"),
        }
    }
}

} // verus!
