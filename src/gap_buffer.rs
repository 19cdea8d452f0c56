//! A gap buffer: a growable sequence of cells with a run of unused "gap"
//! cells kept at the cursor, so that typing and backspacing stay local.
use vstd::prelude::*;

verus! {

/// Number of filler cells added when the gap is about to run out.
pub const GAP_REFILL: usize = 10;

/// Cells `[0, cursor)` are the text before the cursor, cells
/// `[cursor, cursor + gap_size)` are the gap, and the cells after the gap are
/// the text after the cursor.
#[derive(Debug)]
pub struct GapBuffer<T> {
    pub gap_size: usize,
    pub cursor: usize,
    pub buffer: Vec<T>,
    pub gap_value: T,
}

impl<T: Copy> GapBuffer<T> {
    /// The buffer's layout holds together: the gap is non-empty, lies inside
    /// the storage and is made of filler cells.
    pub open spec fn wf(&self) -> bool {
        &&& self.gap_size >= 1
        &&& self.cursor + self.gap_size <= self.buffer@.len() <= usize::MAX
        &&& forall|i: int|
            self.cursor <= i < self.cursor + self.gap_size ==> #[trigger] self.buffer@[i]
                == self.gap_value
    }

    /// The logical text: every cell but those of the gap, in order.
    pub open spec fn content(&self) -> Seq<T> {
        self.buffer@.subrange(0, self.cursor as int) + self.buffer@.subrange(
            self.cursor + self.gap_size,
            self.buffer@.len() as int,
        )
    }

    /// What `insert(v)` does: `v` enters the text at the cursor, the cursor
    /// moves past it, and the gap either shrinks by one or, when its last
    /// cell is taken, is refilled to `GAP_REFILL` cells.
    pub open spec fn insert_step(self, next: Self, v: T) -> bool {
        &&& next.wf()
        &&& next.content() == self.content().insert(self.cursor as int, v)
        &&& next.cursor == self.cursor + 1
        &&& next.gap_size == (if self.gap_size == 1 {
            GAP_REFILL
        } else {
            (self.gap_size - 1) as usize
        })
        &&& next.gap_value == self.gap_value
    }

    /// What `delete()` does: at the start of the text nothing changes;
    /// elsewhere the cell before the cursor is removed from storage and the
    /// cursor steps back over it.
    pub open spec fn delete_step(self, next: Self) -> bool {
        if self.cursor == 0 {
            next == self
        } else {
            &&& next.wf()
            &&& next.buffer@ == self.buffer@.remove(self.cursor - 1)
            &&& next.content() == self.content().remove(self.cursor - 1)
            &&& next.cursor == self.cursor - 1
            &&& next.gap_size == self.gap_size
            &&& next.gap_value == self.gap_value
        }
    }

    /// What `right()` does: at the end of the text nothing changes;
    /// elsewhere the cursor moves one character right, the text and the gap's
    /// size staying as they were.
    pub open spec fn right_step(self, next: Self) -> bool {
        if self.cursor == self.content().len() {
            next == self
        } else {
            &&& next.wf()
            &&& next.content() == self.content()
            &&& next.cursor == self.cursor + 1
            &&& next.gap_size == self.gap_size
            &&& next.gap_value == self.gap_value
        }
    }

    /// What `left()` does: at the start of the text nothing changes;
    /// elsewhere the cursor moves one character left, the text and the gap's
    /// size staying as they were.
    pub open spec fn left_step(self, next: Self) -> bool {
        if self.cursor == 0 {
            next == self
        } else {
            &&& next.wf()
            &&& next.content() == self.content()
            &&& next.cursor == self.cursor - 1
            &&& next.gap_size == self.gap_size
            &&& next.gap_value == self.gap_value
        }
    }

    /// An empty buffer whose gap holds `gap_size` copies of `gap_value`.
    pub fn new(gap_size: usize, gap_value: T) -> (r: Self)
        requires
            gap_size >= 1,
        ensures
            r.wf(),
            r.content() == Seq::<T>::empty(),
            r.cursor == 0,
            r.gap_size == gap_size,
            r.gap_value == gap_value,
    {
        let mut buffer: Vec<T> = Vec::new();
        let mut i: usize = 0;
        while i < gap_size
            invariant
                i <= gap_size,
                buffer@.len() == i,
                forall|j: int| 0 <= j < i ==> #[trigger] buffer@[j] == gap_value,
            decreases gap_size - i,
        {
            buffer.push(gap_value);
            i += 1;
        }
        let r = GapBuffer { gap_size, cursor: 0, buffer, gap_value };
        assert(r.content() =~= Seq::<T>::empty());
        r
    }

    /// Writes `value` at the cursor and moves the cursor past it.
    pub fn insert(&mut self, value: T)
        requires
            old(self).wf(),
        ensures
            old(self).insert_step(*final(self), value),
    {
        let ghost pre = *self;
        if self.gap_size == 1 {
            self.gap_size = GAP_REFILL;
            let mut i: usize = 0;
            while i < GAP_REFILL
                invariant
                    i <= GAP_REFILL,
                    self.cursor == pre.cursor,
                    self.gap_value == pre.gap_value,
                    self.gap_size == GAP_REFILL,
                    pre.wf(),
                    pre.gap_size == 1,
                    self.buffer@.len() == pre.buffer@.len() + i,
                    forall|j: int|
                        0 <= j < self.buffer@.len() ==> #[trigger] self.buffer@[j] == (if j
                            < pre.cursor {
                            pre.buffer@[j]
                        } else if j < pre.cursor + i {
                            pre.gap_value
                        } else {
                            pre.buffer@[j - i]
                        }),
                decreases GAP_REFILL - i,
            {
                self.buffer.insert(self.cursor, self.gap_value);
                i += 1;
            }
            assert(self.buffer@[pre.cursor + GAP_REFILL] == pre.gap_value);
        } else {
            self.gap_size -= 1;
        }
        let at = self.cursor;
        let len = self.buffer.len();
        assert(at < len);
        self.buffer[at] = value;
        self.cursor = at + 1;
        assert(self.content() =~= pre.content().insert(pre.cursor as int, value));
    }

    /// Backspace: removes the character just before the cursor, if any.
    pub fn delete(&mut self)
        requires
            old(self).wf(),
        ensures
            old(self).delete_step(*final(self)),
    {
        let ghost pre = *self;
        if self.cursor > 0 {
            self.cursor -= 1;
            self.buffer.remove(self.cursor);
            assert(self.content() =~= pre.content().remove(pre.cursor - 1));
        }
    }

    /// Moves the cursor one character to the right, carrying the gap along;
    /// nothing happens at the end of the text.
    pub fn right(&mut self)
        requires
            old(self).wf(),
        ensures
            old(self).right_step(*final(self)),
    {
        let ghost pre = *self;
        let n = self.buffer.len() - self.gap_size;
        if self.cursor < n {
            let c = self.cursor;
            let g = self.gap_size;
            let mut i = c + g;
            while i > c
                invariant
                    pre.wf(),
                    c == pre.cursor,
                    g == pre.gap_size,
                    self.cursor == c,
                    self.gap_size == g,
                    self.gap_value == pre.gap_value,
                    c + g < pre.buffer@.len(),
                    c <= i <= c + g,
                    self.buffer@.len() == pre.buffer@.len(),
                    forall|j: int|
                        0 <= j < self.buffer@.len() ==> #[trigger] self.buffer@[j] == (if j < i {
                            pre.buffer@[j]
                        } else if j == i {
                            pre.buffer@[c + g]
                        } else if j <= c + g {
                            pre.buffer@[j - 1]
                        } else {
                            pre.buffer@[j]
                        }),
                decreases i,
            {
                let temp = self.buffer[i - 1];
                self.buffer[i - 1] = self.buffer[i];
                self.buffer[i] = temp;
                i -= 1;
            }
            self.cursor += 1;
            assert(self.content() =~= pre.content());
        }
    }

    /// Moves the cursor one character to the left, carrying the gap along;
    /// nothing happens at the start of the text.
    pub fn left(&mut self)
        requires
            old(self).wf(),
        ensures
            old(self).left_step(*final(self)),
    {
        let ghost pre = *self;
        if self.cursor > 0 {
            let c = self.cursor;
            let g = self.gap_size;
            let mut i = c;
            while i < c + g
                invariant
                    pre.wf(),
                    c == pre.cursor,
                    g == pre.gap_size,
                    self.cursor == c,
                    self.gap_size == g,
                    self.gap_value == pre.gap_value,
                    0 < c,
                    c + g <= pre.buffer@.len(),
                    c <= i <= c + g,
                    self.buffer@.len() == pre.buffer@.len(),
                    forall|j: int|
                        0 <= j < self.buffer@.len() ==> #[trigger] self.buffer@[j] == (if j < c
                            - 1 {
                            pre.buffer@[j]
                        } else if j < i - 1 {
                            pre.buffer@[j + 1]
                        } else if j == i - 1 {
                            pre.buffer@[c - 1]
                        } else {
                            pre.buffer@[j]
                        }),
                decreases c + g - i,
            {
                let temp = self.buffer[i];
                self.buffer[i] = self.buffer[i - 1];
                self.buffer[i - 1] = temp;
                i += 1;
            }
            self.cursor -= 1;
            assert(self.content() =~= pre.content());
        }
    }

    /// Number of characters of text, the gap excluded.
    pub fn len(&self) -> (r: usize)
        requires
            self.wf(),
        ensures
            r == self.content().len(),
    {
        self.buffer.len() - self.gap_size
    }
}

/// The filler value of a buffer loaded from bytes.
pub const FILLER: char = '\0';

/// Bytes read as text, one character per byte.
pub open spec fn decode(bytes: Seq<u8>) -> Seq<char> {
    bytes.map_values(|b: u8| b as char)
}

/// Relies on `String::push`: the character is appended at the end.
#[verifier::external_body]
pub(crate) fn push_char(s: &mut String, c: char)
    ensures
        final(s)@ == old(s)@.push(c),
{
    s.push(c);
}

impl GapBuffer<char> {
    /// The layout of a buffer just loaded from `bytes`: the decoded bytes,
    /// then a gap of `GAP_REFILL` filler cells, with the cursor at the gap.
    pub open spec fn loaded_from(self, bytes: Seq<u8>) -> bool {
        &&& self.wf()
        &&& self.buffer@ == decode(bytes) + Seq::new(GAP_REFILL as nat, |i: int| FILLER)
        &&& self.cursor == bytes.len()
        &&& self.gap_size == GAP_REFILL
        &&& self.gap_value == FILLER
    }

    /// The characters of one cell as `display_string` shows it: `[` where the
    /// gap starts, `_` before a filler cell, the cell itself, `]` where the
    /// gap ends.
    pub open spec fn cell_view(self, i: int) -> Seq<char> {
        (if i == self.cursor { seq!['['] } else { Seq::empty() }) + (if self.buffer@[i]
            == self.gap_value {
            seq!['_']
        } else {
            Seq::empty()
        }) + seq![self.buffer@[i]] + (if i == self.cursor + self.gap_size - 1 {
            seq![']']
        } else {
            Seq::empty()
        })
    }

    /// The views of the first `n` cells, one after another.
    pub open spec fn cells_view(self, n: int) -> Seq<char>
        decreases n,
    {
        if n <= 0 {
            Seq::empty()
        } else {
            self.cells_view(n - 1) + self.cell_view(n - 1)
        }
    }

    /// A buffer holding `value` read one character per byte, with a gap of
    /// `GAP_REFILL` filler cells after it and the cursor at the end of the
    /// text.
    pub fn from(value: Vec<u8>) -> (r: Self)
        requires
            value@.len() + GAP_REFILL <= usize::MAX,
        ensures
            r.loaded_from(value@),
    {
        let mut buffer: Vec<char> = Vec::new();
        let mut i: usize = 0;
        while i < value.len()
            invariant
                i <= value@.len(),
                buffer@ == decode(value@.subrange(0, i as int)),
            decreases value@.len() - i,
        {
            buffer.push(value[i] as char);
            i += 1;
            assert(decode(value@.subrange(0, i as int)) =~= decode(
                value@.subrange(0, i - 1),
            ).push(value@[i - 1] as char));
        }
        assert(value@.subrange(0, value@.len() as int) =~= value@);
        let cursor = buffer.len();
        let mut k: usize = 0;
        while k < GAP_REFILL
            invariant
                k <= GAP_REFILL,
                cursor == value@.len(),
                value@.len() + GAP_REFILL <= usize::MAX,
                buffer@ == decode(value@) + Seq::new(k as nat, |j: int| FILLER),
            decreases GAP_REFILL - k,
        {
            buffer.push(FILLER);
            k += 1;
            assert(buffer@ =~= decode(value@) + Seq::new(k as nat, |j: int| FILLER));
        }
        GapBuffer { gap_size: GAP_REFILL, cursor, buffer, gap_value: FILLER }
    }

    /// The text, filler cells excluded, as a string.
    pub fn to_string(&self) -> (r: String)
        requires
            self.wf(),
        ensures
            r@ == self.content(),
    {
        let mut s = String::new();
        let mut i: usize = 0;
        while i < self.cursor
            invariant
                self.wf(),
                i <= self.cursor,
                s@ == self.buffer@.subrange(0, i as int),
            decreases self.cursor - i,
        {
            push_char(&mut s, self.buffer[i]);
            i += 1;
            assert(s@ =~= self.buffer@.subrange(0, i as int));
        }
        let start = self.cursor + self.gap_size;
        let mut j: usize = start;
        while j < self.buffer.len()
            invariant
                self.wf(),
                start == self.cursor + self.gap_size,
                start <= j <= self.buffer@.len(),
                s@ == self.buffer@.subrange(0, self.cursor as int) + self.buffer@.subrange(
                    start as int,
                    j as int,
                ),
            decreases self.buffer@.len() - j,
        {
            push_char(&mut s, self.buffer[j]);
            j += 1;
            assert(s@ =~= self.buffer@.subrange(0, self.cursor as int) + self.buffer@.subrange(
                start as int,
                j as int,
            ));
        }
        s
    }

    /// Every cell, gap included, with the gap bracketed and each filler cell
    /// flagged by `_`.
    pub fn display_string(&self) -> (r: String)
        requires
            self.wf(),
        ensures
            r@ == self.cells_view(self.buffer@.len() as int),
    {
        let mut s = String::new();
        let mut i: usize = 0;
        while i < self.buffer.len()
            invariant
                self.wf(),
                i <= self.buffer@.len(),
                s@ == self.cells_view(i as int),
            decreases self.buffer@.len() - i,
        {
            let ghost before = s@;
            let c = self.buffer[i];
            if i == self.cursor {
                push_char(&mut s, '[');
            }
            if c == self.gap_value {
                push_char(&mut s, '_');
            }
            push_char(&mut s, c);
            if i == self.cursor + self.gap_size - 1 {
                push_char(&mut s, ']');
            }
            assert(s@ =~= before + self.cell_view(i as int));
            i += 1;
        }
        s
    }
}

/// Each insert of a run adds exactly one character: after `k` inserts the
/// text is `k` characters longer than at the start.
pub proof fn lemma_insert_run_len<T: Copy>(states: Seq<GapBuffer<T>>, values: Seq<T>, k: int)
    requires
        states.len() == values.len() + 1,
        states[0].wf(),
        forall|i: int|
            0 <= i < values.len() ==> #[trigger] states[i].insert_step(states[i + 1], values[i]),
        0 <= k <= values.len(),
    ensures
        states[k].wf(),
        states[k].content().len() == states[0].content().len() + k,
    decreases k,
{
    if k > 0 {
        lemma_insert_run_len(states, values, k - 1);
        let j = k - 1;
        assert(states[j].insert_step(states[j + 1], values[j]));
    }
}

/// A run of `n` inserts into an empty buffer leaves a text of `n`
/// characters, one more after each insert.
pub proof fn lemma_insert_run<T: Copy>(states: Seq<GapBuffer<T>>, values: Seq<T>)
    requires
        states.len() == values.len() + 1,
        states[0].wf(),
        states[0].content().len() == 0,
        forall|i: int|
            0 <= i < values.len() ==> #[trigger] states[i].insert_step(states[i + 1], values[i]),
    ensures
        forall|i: int|
            0 <= i < values.len() ==> #[trigger] states[i + 1].content().len()
                == states[i].content().len() + 1,
        states.last().content().len() == values.len(),
{
    assert forall|i: int| 0 <= i < values.len() implies #[trigger] states[i + 1].content().len()
        == states[i].content().len() + 1 by {
        lemma_insert_run_len(states, values, i);
        lemma_insert_run_len(states, values, i + 1);
    }
    lemma_insert_run_len(states, values, values.len() as int);
}

/// Inserting a character and deleting it right away gives back the text and
/// the cursor of before.
pub proof fn lemma_insert_then_delete<T: Copy>(
    a: GapBuffer<T>,
    b: GapBuffer<T>,
    c: GapBuffer<T>,
    v: T,
)
    requires
        a.wf(),
        a.insert_step(b, v),
        b.delete_step(c),
    ensures
        c.content() == a.content(),
        c.cursor == a.cursor,
{
    assert(c.content() =~= a.content());
}

/// The text of a buffer just loaded from bytes is exactly those bytes read
/// as characters: no filler cell shows in it.
pub proof fn lemma_load_round_trip(g: GapBuffer<char>, bytes: Seq<u8>)
    requires
        g.loaded_from(bytes),
    ensures
        g.content() == decode(bytes),
{
    assert(g.content() =~= decode(bytes));
}

} // verus!
