//! The transcript panel: a text console of 21 columns and 8 rows on a
//! 128x64 monochrome display, which may be absent.

use vstd::prelude::*;

verus! {

pub const COLS: usize = 21;

pub const ROWS: usize = 8;

/// Bytes of a row on the bus: a control byte, then 128 columns of dots.
pub const ROW_BYTES: usize = 129;

/// Glyphs of 0x20 to 0x7E, five columns of dots each, the least significant
/// bit on top.
pub const FONT: [u8; 475] = [
    0x00, 0x00, 0x00, 0x00, 0x00, // space
    0x00, 0x00, 0x5F, 0x00, 0x00, // !
    0x00, 0x07, 0x00, 0x07, 0x00, // "
    0x14, 0x7F, 0x14, 0x7F, 0x14, // #
    0x24, 0x2A, 0x7F, 0x2A, 0x12, // $
    0x23, 0x13, 0x08, 0x64, 0x62, // %
    0x36, 0x49, 0x55, 0x22, 0x50, // &
    0x00, 0x05, 0x03, 0x00, 0x00, // '
    0x00, 0x1C, 0x22, 0x41, 0x00, // (
    0x00, 0x41, 0x22, 0x1C, 0x00, // )
    0x14, 0x08, 0x3E, 0x08, 0x14, // *
    0x08, 0x08, 0x3E, 0x08, 0x08, // +
    0x00, 0x50, 0x30, 0x00, 0x00, // ,
    0x08, 0x08, 0x08, 0x08, 0x08, // -
    0x00, 0x60, 0x60, 0x00, 0x00, // .
    0x20, 0x10, 0x08, 0x04, 0x02, // /
    0x3E, 0x51, 0x49, 0x45, 0x3E, // 0
    0x00, 0x42, 0x7F, 0x40, 0x00, // 1
    0x42, 0x61, 0x51, 0x49, 0x46, // 2
    0x21, 0x41, 0x45, 0x4B, 0x31, // 3
    0x18, 0x14, 0x12, 0x7F, 0x10, // 4
    0x27, 0x45, 0x45, 0x45, 0x39, // 5
    0x3C, 0x4A, 0x49, 0x49, 0x30, // 6
    0x01, 0x71, 0x09, 0x05, 0x03, // 7
    0x36, 0x49, 0x49, 0x49, 0x36, // 8
    0x06, 0x49, 0x49, 0x29, 0x1E, // 9
    0x00, 0x36, 0x36, 0x00, 0x00, // :
    0x00, 0x56, 0x36, 0x00, 0x00, // ;
    0x08, 0x14, 0x22, 0x41, 0x00, // <
    0x14, 0x14, 0x14, 0x14, 0x14, // =
    0x00, 0x41, 0x22, 0x14, 0x08, // >
    0x02, 0x01, 0x51, 0x09, 0x06, // ?
    0x32, 0x49, 0x79, 0x41, 0x3E, // @
    0x7E, 0x11, 0x11, 0x11, 0x7E, // A
    0x7F, 0x49, 0x49, 0x49, 0x36, // B
    0x3E, 0x41, 0x41, 0x41, 0x22, // C
    0x7F, 0x41, 0x41, 0x22, 0x1C, // D
    0x7F, 0x49, 0x49, 0x49, 0x41, // E
    0x7F, 0x09, 0x09, 0x09, 0x01, // F
    0x3E, 0x41, 0x49, 0x49, 0x7A, // G
    0x7F, 0x08, 0x08, 0x08, 0x7F, // H
    0x00, 0x41, 0x7F, 0x41, 0x00, // I
    0x20, 0x40, 0x41, 0x3F, 0x01, // J
    0x7F, 0x08, 0x14, 0x22, 0x41, // K
    0x7F, 0x40, 0x40, 0x40, 0x40, // L
    0x7F, 0x02, 0x0C, 0x02, 0x7F, // M
    0x7F, 0x04, 0x08, 0x10, 0x7F, // N
    0x3E, 0x41, 0x41, 0x41, 0x3E, // O
    0x7F, 0x09, 0x09, 0x09, 0x06, // P
    0x3E, 0x41, 0x51, 0x21, 0x5E, // Q
    0x7F, 0x09, 0x19, 0x29, 0x46, // R
    0x46, 0x49, 0x49, 0x49, 0x31, // S
    0x01, 0x01, 0x7F, 0x01, 0x01, // T
    0x3F, 0x40, 0x40, 0x40, 0x3F, // U
    0x1F, 0x20, 0x40, 0x20, 0x1F, // V
    0x3F, 0x40, 0x38, 0x40, 0x3F, // W
    0x63, 0x14, 0x08, 0x14, 0x63, // X
    0x07, 0x08, 0x70, 0x08, 0x07, // Y
    0x61, 0x51, 0x49, 0x45, 0x43, // Z
    0x00, 0x7F, 0x41, 0x41, 0x00, // [
    0x02, 0x04, 0x08, 0x10, 0x20, // backslash
    0x00, 0x41, 0x41, 0x7F, 0x00, // ]
    0x04, 0x02, 0x01, 0x02, 0x04, // ^
    0x40, 0x40, 0x40, 0x40, 0x40, // _
    0x00, 0x01, 0x02, 0x04, 0x00, // `
    0x20, 0x54, 0x54, 0x54, 0x78, // a
    0x7F, 0x48, 0x44, 0x44, 0x38, // b
    0x38, 0x44, 0x44, 0x44, 0x20, // c
    0x38, 0x44, 0x44, 0x48, 0x7F, // d
    0x38, 0x54, 0x54, 0x54, 0x18, // e
    0x08, 0x7E, 0x09, 0x01, 0x02, // f
    0x0C, 0x52, 0x52, 0x52, 0x3E, // g
    0x7F, 0x08, 0x04, 0x04, 0x78, // h
    0x00, 0x44, 0x7D, 0x40, 0x00, // i
    0x20, 0x40, 0x44, 0x3D, 0x00, // j
    0x7F, 0x10, 0x28, 0x44, 0x00, // k
    0x00, 0x41, 0x7F, 0x40, 0x00, // l
    0x7C, 0x04, 0x18, 0x04, 0x78, // m
    0x7C, 0x08, 0x04, 0x04, 0x78, // n
    0x38, 0x44, 0x44, 0x44, 0x38, // o
    0x7C, 0x14, 0x14, 0x14, 0x08, // p
    0x08, 0x14, 0x14, 0x18, 0x7C, // q
    0x7C, 0x08, 0x04, 0x04, 0x08, // r
    0x48, 0x54, 0x54, 0x54, 0x20, // s
    0x04, 0x3F, 0x44, 0x40, 0x20, // t
    0x3C, 0x40, 0x40, 0x20, 0x7C, // u
    0x1C, 0x20, 0x40, 0x20, 0x1C, // v
    0x3C, 0x40, 0x30, 0x40, 0x3C, // w
    0x44, 0x28, 0x10, 0x28, 0x44, // x
    0x0C, 0x50, 0x50, 0x50, 0x3C, // y
    0x44, 0x64, 0x54, 0x4C, 0x44, // z
    0x00, 0x08, 0x36, 0x41, 0x00, // {
    0x00, 0x00, 0x7F, 0x00, 0x00, // |
    0x00, 0x41, 0x36, 0x08, 0x00, // }
    0x08, 0x04, 0x08, 0x10, 0x08, // ~
];

// --- text -------------------------------------------------------------------------------

/// What a byte shows as: itself if it is printable ASCII.
pub open spec fn shown(b: u8) -> u8 {
    if 0x20 <= b <= 0x7E {
        b
    } else {
        0x3Fu8
    }
}

/// The lines of a console after one more byte. Bytes that continue a
/// multi-byte character show nothing; a full line wraps when the next
/// character comes.
pub open spec fn typed(lines: Seq<Seq<u8>>, b: u8) -> Seq<Seq<u8>> {
    if 0x80 <= b < 0xC0 {
        lines
    } else if b == 0x0A {
        lines.push(Seq::empty())
    } else if lines.last().len() == COLS {
        lines.push(seq![shown(b)])
    } else {
        lines.update(lines.len() - 1, lines.last().push(shown(b)))
    }
}

/// Printable ASCII is shown as it is, everything else as a question mark.
pub proof fn law_printable_ascii_is_shown_as_it_is(b: u8)
    ensures
        0x20 <= b <= 0x7E ==> shown(b) == b,
        !(0x20 <= b <= 0x7E) ==> shown(b) == 0x3F,
{
}

/// The lines after a text.
pub open spec fn typed_all(lines: Seq<Seq<u8>>, s: Seq<u8>) -> Seq<Seq<u8>>
    decreases s.len(),
{
    if s.len() == 0 {
        lines
    } else {
        typed(typed_all(lines, s.drop_last()), s.last())
    }
}

/// A text of printable characters that fits the rest of a line is added to
/// it, character by character.
pub proof fn law_a_short_text_stands_on_its_line(lines: Seq<Seq<u8>>, s: Seq<u8>)
    requires
        lines.len() >= 1,
        lines.last().len() + s.len() <= COLS,
        forall|i: int| 0 <= i < s.len() ==> 0x20 <= #[trigger] s[i] <= 0x7E,
    ensures
        typed_all(lines, s) == lines.update(lines.len() - 1, lines.last() + s),
    decreases s.len(),
{
    let n = lines.len() - 1;
    if s.len() == 0 {
        assert(lines.update(n, lines.last() + s) =~~= lines);
    } else {
        let t = s.drop_last();
        assert forall|i: int| 0 <= i < t.len() implies 0x20 <= #[trigger] t[i] <= 0x7E by {
            assert(t[i] == s[i]);
        }
        law_a_short_text_stands_on_its_line(lines, t);
        let mid = lines.update(n, lines.last() + t);
        assert(mid.last() =~= lines.last() + t);
        assert(s[s.len() - 1] == s.last());
        assert((lines.last() + t).push(s.last()) =~= lines.last() + s);
        assert(typed_all(lines, s) =~~= lines.update(n, lines.last() + s));
    }
}

/// A character that finds its line full begins the next one, and a line feed
/// begins a line of its own: no line is longer than the screen is wide, and
/// none of the lines before the last one changes any more.
pub proof fn law_lines_wrap(lines: Seq<Seq<u8>>, s: Seq<u8>, i: int)
    requires
        fits(lines),
        0 <= i < lines.len() - 1,
    ensures
        fits(typed_all(lines, s)),
        typed_all(lines, s).len() >= lines.len(),
        typed_all(lines, s)[i] == lines[i],
    decreases s.len(),
{
    lemma_text_fits(lines, s);
    if s.len() > 0 {
        law_lines_wrap(lines, s.drop_last(), i);
    }
}

proof fn lemma_text_fits(lines: Seq<Seq<u8>>, s: Seq<u8>)
    requires
        fits(lines),
    ensures
        fits(typed_all(lines, s)),
        typed_all(lines, s).len() >= lines.len(),
    decreases s.len(),
{
    if s.len() > 0 {
        lemma_text_fits(lines, s.drop_last());
        let l = typed_all(lines, s.drop_last());
        let next = typed(l, s.last());
        assert forall|i: int| 0 <= i < next.len() implies (#[trigger] next[i]).len() <= COLS by {
            if i < l.len() - 1 {
                assert(next[i] == l[i]);
            }
        }
    }
}

/// What a full line does with one more character, and what a line feed does
/// with any line.
pub proof fn law_a_full_line_begins_another(lines: Seq<Seq<u8>>, b: u8)
    requires
        lines.len() >= 1,
    ensures
        0x20 <= b <= 0x7E && lines.last().len() == COLS ==> typed_all(lines, seq![b])
            == lines.push(seq![b]),
        typed_all(lines, seq![0x0Au8]) == lines.push(Seq::empty()),
        // the bytes behind the first of a multi-byte character
        0x80 <= b < 0xC0 ==> typed_all(lines, seq![b]) == lines,
        0xC0 <= b ==> typed_all(lines, seq![b]) == typed_all(lines, seq![0x3Fu8]),
        // control characters but for the newline
        b < 0x20 && b != 0x0A || b == 0x7F ==> typed_all(lines, seq![b]) == typed_all(
            lines,
            seq![0x3Fu8],
        ),
{
    reveal_with_fuel(typed_all, 2);
    assert(seq![b].drop_last() =~= Seq::<u8>::empty());
    assert(seq![0x0Au8].drop_last() =~= Seq::<u8>::empty());
    assert(seq![0x3Fu8].drop_last() =~= Seq::<u8>::empty());
}

/// Text comes in any pieces.
pub proof fn law_text_comes_in_pieces(lines: Seq<Seq<u8>>, a: Seq<u8>, b: Seq<u8>)
    ensures
        typed_all(lines, a + b) == typed_all(typed_all(lines, a), b),
    decreases b.len(),
{
    if b.len() == 0 {
        assert(a + b =~= a);
    } else {
        law_text_comes_in_pieces(lines, a, b.drop_last());
        assert((a + b).drop_last() =~= a + b.drop_last());
        assert((a + b).last() == b.last());
    }
}

/// Lines that a console can hold.
pub open spec fn fits(lines: Seq<Seq<u8>>) -> bool {
    &&& lines.len() >= 1
    &&& forall|i: int| 0 <= i < lines.len() ==> (#[trigger] lines[i]).len() <= COLS
}

/// What a screen that shows the last rows of `lines` has in a cell.
pub open spec fn cell_of(lines: Seq<Seq<u8>>, r: int, c: int) -> u8 {
    let top = if lines.len() > ROWS {
        lines.len() - ROWS
    } else {
        0
    };
    if top + r < lines.len() && c < lines[top + r].len() {
        lines[top + r][c]
    } else {
        0x20u8
    }
}

/// Every cell has a glyph.
pub open spec fn printable(grid: Seq<u8>) -> bool {
    forall|k: int| 0 <= k < grid.len() ==> 0x20 <= #[trigger] grid[k] <= 0x7E
}

/// A cell of a grid of rows.
pub open spec fn cell(grid: Seq<u8>, r: int, c: int) -> u8 {
    grid[COLS * r + c]
}

/// A console on a panel that may be absent.
pub struct Console {
    pub present: bool,
    pub grid: Vec<u8>,
    pub row: usize,
    pub col: usize,
}

impl Console {
    pub open spec fn wf(self) -> bool {
        &&& self.grid@.len() == 168
        &&& self.row < ROWS
        &&& self.col <= COLS
        &&& printable(self.grid@)
    }

    /// The screen shows the last rows of `lines`, and the next character
    /// goes to the end of the last one.
    pub open spec fn shows(self, lines: Seq<Seq<u8>>) -> bool {
        &&& self.wf()
        &&& fits(lines)
        &&& self.row == (if lines.len() > ROWS {
            ROWS - 1
        } else {
            lines.len() - 1
        })
        &&& self.col == lines.last().len()
        &&& forall|r: int, c: int|
            0 <= r < ROWS && 0 <= c < COLS ==> #[trigger] cell(self.grid@, r, c) == cell_of(
                lines,
                r,
                c,
            )
    }

    pub fn new() -> (s: Console)
        ensures
            !s.present,
            s.shows(seq![Seq::empty()]),
    {
        let s = Console { present: false, grid: vec![0x20u8; 168], row: 0, col: 0 };
        proof {
            let lines: Seq<Seq<u8>> = seq![Seq::empty()];
            assert(lines.last() =~= Seq::empty());
            assert forall|r: int, c: int| 0 <= r < ROWS && 0 <= c < COLS implies #[trigger] cell(
                s.grid@,
                r,
                c,
            ) == cell_of(lines, r, c) by {
                lemma_cell_index(r, c);
            }
        }
        s
    }

    /// An empty screen, if the panel is there; `true` asks for a redraw.
    pub fn clear(&mut self) -> (redraw: bool)
        requires
            old(self).wf(),
        ensures
            redraw == old(self).present,
            final(self).present == old(self).present,
            old(self).present ==> final(self).shows(seq![Seq::empty()]),
            !old(self).present ==> *final(self) == *old(self),
    {
        if !self.present {
            return false;
        }
        let fresh = Console::new();
        self.grid = fresh.grid;
        self.row = 0;
        self.col = 0;
        true
    }

    /// Everything one row up, the last row empty.
    fn scroll(&mut self)
        requires
            old(self).grid@.len() == 168,
            printable(old(self).grid@),
        ensures
            final(self).grid@.len() == 168,
            printable(final(self).grid@),
            final(self).row == ROWS - 1,
            final(self).col == old(self).col,
            final(self).present == old(self).present,
            forall|r: int, c: int|
                0 <= r < ROWS && 0 <= c < COLS ==> #[trigger] cell(final(self).grid@, r, c) == (
                if r == ROWS - 1 {
                    0x20u8
                } else {
                    cell(old(self).grid@, r + 1, c)
                }),
    {
        let ghost start = self.grid@;
        let mut i: usize = 0;
        while i < 168
            invariant
                i <= 168,
                self.grid@.len() == 168,
                start.len() == 168,
                self.col == old(self).col,
                self.present == old(self).present,
                forall|k: int|
                    0 <= k < 168 ==> #[trigger] self.grid@[k] == (if k >= i {
                        start[k]
                    } else if k < 147 {
                        start[k + 21]
                    } else {
                        0x20u8
                    }),
            decreases 168 - i,
        {
            let v: u8 = if i < 147 {
                self.grid[i + 21]
            } else {
                0x20
            };
            self.grid.set(i, v);
            i = i + 1;
        }
        self.row = ROWS - 1;
        assert forall|r: int, c: int| 0 <= r < ROWS && 0 <= c < COLS implies #[trigger] cell(
            self.grid@,
            r,
            c,
        ) == (if r == ROWS - 1 {
            0x20u8
        } else {
            cell(start, r + 1, c)
        }) by {
            lemma_cell_index(r, c);
        }
    }

    /// Moves to a fresh line.
    fn fresh_line(&mut self)
        requires
            old(self).wf(),
        ensures
            final(self).wf(),
            final(self).col == 0,
            final(self).present == old(self).present,
            forall|lines: Seq<Seq<u8>>|
                #![trigger old(self).shows(lines)]
                old(self).shows(lines) ==> final(self).shows(lines.push(Seq::empty())),
    {
        let ghost before = *self;
        self.col = 0;
        if self.row == ROWS - 1 {
            self.scroll();
        } else {
            self.row = self.row + 1;
        }
        assert forall|lines: Seq<Seq<u8>>|
            #![trigger before.shows(lines)]
            before.shows(lines) implies self.shows(lines.push(Seq::empty())) by {
            let next = lines.push(Seq::empty());
            assert(next.last() =~= Seq::empty());
            assert(fits(next)) by {
                assert forall|i: int| 0 <= i < next.len() implies (#[trigger] next[i]).len()
                    <= COLS by {
                    if i < lines.len() {
                        assert(next[i] == lines[i]);
                    }
                }
            }
            assert forall|r: int, c: int| 0 <= r < ROWS && 0 <= c < COLS implies #[trigger] cell(
                self.grid@,
                r,
                c,
            ) == cell_of(next, r, c) by {
                if lines.len() >= ROWS {
                    if r < ROWS - 1 {
                        assert(cell(before.grid@, r + 1, c) == cell_of(lines, r + 1, c));
                    }
                } else {
                    assert(cell(before.grid@, r, c) == cell_of(lines, r, c));
                }
            }
        }
    }

    /// Puts a character at the cursor of a line that has room.
    fn put(&mut self, ch: u8)
        requires
            old(self).wf(),
            old(self).col < COLS,
            0x20 <= ch <= 0x7E,
        ensures
            final(self).wf(),
            final(self).present == old(self).present,
            forall|lines: Seq<Seq<u8>>|
                #![trigger old(self).shows(lines)]
                old(self).shows(lines) ==> final(self).shows(
                    lines.update(lines.len() - 1, lines.last().push(ch)),
                ),
    {
        let ghost before = *self;
        let at: usize = self.row * COLS + self.col;
        self.grid.set(at, ch);
        self.col = self.col + 1;
        assert forall|lines: Seq<Seq<u8>>|
            #![trigger before.shows(lines)]
            before.shows(lines) implies self.shows(
            lines.update(lines.len() - 1, lines.last().push(ch)),
        ) by {
            let n = lines.len() - 1;
            let next = lines.update(n, lines.last().push(ch));
            assert(next.last() =~= lines.last().push(ch));
            assert(fits(next)) by {
                assert forall|i: int| 0 <= i < next.len() implies (#[trigger] next[i]).len()
                    <= COLS by {
                    if i < n {
                        assert(next[i] == lines[i]);
                    }
                }
            }
            assert forall|r: int, c: int| 0 <= r < ROWS && 0 <= c < COLS implies #[trigger] cell(
                self.grid@,
                r,
                c,
            ) == cell_of(next, r, c) by {
                lemma_cell_index(r, c);
                assert(cell(before.grid@, r, c) == cell_of(lines, r, c));
                if r == before.row && c == before.col {
                    assert(COLS * r + c == at);
                } else {
                    assert(COLS * r + c != at);
                }
            }
        }
    }

    /// Appends text, if the panel is there; `true` asks for a redraw.
    pub fn print(&mut self, s: &[u8]) -> (redraw: bool)
        requires
            old(self).wf(),
        ensures
            redraw == old(self).present,
            final(self).wf(),
            final(self).present == old(self).present,
            !old(self).present ==> *final(self) == *old(self),
            old(self).present ==> forall|lines: Seq<Seq<u8>>|
                #![trigger old(self).shows(lines)]
                old(self).shows(lines) ==> final(self).shows(typed_all(lines, s@)),
    {
        if !self.present {
            return false;
        }
        let ghost start = *self;
        let mut i: usize = 0;
        assert(s@.take(0) =~= Seq::empty());
        while i < s.len()
            invariant
                i <= s@.len(),
                self.wf(),
                self.present == start.present,
                forall|lines: Seq<Seq<u8>>|
                    #![trigger start.shows(lines)]
                    start.shows(lines) ==> self.shows(typed_all(lines, s@.take(i as int))),
            decreases s@.len() - i,
        {
            let ghost before = *self;
            let b: u8 = s[i];
            if b >= 0x80 && b < 0xC0 {
            } else if b == 0x0A {
                self.fresh_line();
            } else {
                let ch: u8 = if b >= 0x20 && b <= 0x7E {
                    b
                } else {
                    0x3F
                };
                let wraps = self.col == COLS;
                if wraps {
                    self.fresh_line();
                }
                let ghost mid = *self;
                self.put(ch);
                proof {
                    assert forall|lines: Seq<Seq<u8>>|
                        #![trigger before.shows(lines)]
                        before.shows(lines) implies self.shows(typed(lines, b)) by {
                        if wraps {
                            let fresh = lines.push(Seq::empty());
                            assert(mid.shows(fresh));
                            assert(fresh.last() =~= Seq::empty());
                            assert(fresh.update(fresh.len() - 1, fresh.last().push(ch))
                                =~= lines.push(seq![ch]));
                        } else {
                            assert(mid == before);
                        }
                    }
                }
            }
            proof {
                let done = s@.take(i as int);
                let next = s@.take(i + 1);
                assert(next.drop_last() =~= done);
                assert(next.last() == b);
                assert forall|lines: Seq<Seq<u8>>|
                    #![trigger start.shows(lines)]
                    start.shows(lines) implies self.shows(typed_all(lines, next)) by {
                    let l = typed_all(lines, done);
                    assert(before.shows(l));
                    assert(self.shows(typed(l, b)));
                }
            }
            i = i + 1;
        }
        assert(s@.take(s@.len() as int) =~= s@);
        true
    }

    /// The bytes that draw a row: the control byte, then each glyph and a
    /// column of space.
    pub fn render_row(&self, row: usize) -> (b: Vec<u8>)
        requires
            self.wf(),
            row < ROWS,
        ensures
            b@.len() == ROW_BYTES,
            b@[0] == 0x40,
            forall|k: int|
                0 <= k < 128 ==> #[trigger] b@[1 + k] == dot_column(self.grid@, row as int, k),
    {
        let font = FONT;
        let mut b: Vec<u8> = Vec::new();
        b.push(0x40);
        let mut k: usize = 0;
        while k < 128
            invariant
                k <= 128,
                self.wf(),
                row < ROWS,
                font == FONT,
                b@.len() == 1 + k,
                b@[0] == 0x40,
                forall|j: int|
                    0 <= j < k ==> #[trigger] b@[1 + j] == dot_column(self.grid@, row as int, j),
            decreases 128 - k,
        {
            let col: usize = k / 6;
            let x: usize = k % 6;
            let v: u8 = if col < COLS && x < 5 {
                let ch: u8 = self.grid[row * COLS + col];
                font[(ch as usize - 0x20) * 5 + x]
            } else {
                0
            };
            b.push(v);
            k = k + 1;
        }
        b
    }

    /// What a redraw writes on the bus, in order; a write that is not
    /// acknowledged ends it. Nothing is written to a panel that is absent.
    pub fn render(&self) -> (w: Vec<Vec<u8>>)
        requires
            self.wf(),
        ensures
            !self.present ==> w@.len() == 0,
            self.present ==> drawn(w@, self.grid@, ROWS as int),
    {
        let mut w: Vec<Vec<u8>> = Vec::new();
        if !self.present {
            return w;
        }
        let mut row: usize = 0;
        while row < ROWS
            invariant
                row <= ROWS,
                self.wf(),
                drawn(w@, self.grid@, row as int),
            decreases ROWS - row,
        {
            let ghost before = w@;
            let page: u8 = row as u8;
            let columns: [u8; 3] = [0x21, 0, 127];
            let pages: [u8; 3] = [0x22, page, page];
            w.push(cmd(columns.as_slice()));
            w.push(cmd(pages.as_slice()));
            w.push(self.render_row(row));
            proof {
                let now = w@;
                assert(now[3 * row as int]@ =~= seq![0u8, 0x21, 0, 127]);
                assert(now[3 * row + 1]@ =~= seq![0u8, 0x22, page, page]);
                assert forall|r: int| 0 <= r < row + 1 implies #[trigger] is_row(
                    now,
                    self.grid@,
                    r,
                ) by {
                    if r < row {
                        assert(is_row(before, self.grid@, r));
                        assert(now[3 * r] == before[3 * r] && now[3 * r + 1] == before[3 * r + 1]
                            && now[3 * r + 2] == before[3 * r + 2]);
                    }
                }
            }
            row = row + 1;
        }
        w
    }
}

/// The three writes of row `r`: its columns, its page and its dots.
pub open spec fn is_row(w: Seq<Vec<u8>>, grid: Seq<u8>, r: int) -> bool {
    &&& w[3 * r]@ == seq![0u8, 0x21, 0, 127]
    &&& w[3 * r + 1]@ == seq![0u8, 0x22, r as u8, r as u8]
    &&& w[3 * r + 2]@.len() == ROW_BYTES
    &&& w[3 * r + 2]@[0] == 0x40
    &&& forall|k: int| 0 <= k < 128 ==> #[trigger] w[3 * r + 2]@[1 + k] == dot_column(grid, r, k)
}

/// The first `n` rows are drawn.
pub open spec fn drawn(w: Seq<Vec<u8>>, grid: Seq<u8>, n: int) -> bool {
    &&& w.len() == 3 * n
    &&& forall|r: int| 0 <= r < n ==> #[trigger] is_row(w, grid, r)
}

/// The dots in column `k` of a row: glyphs are five wide in cells of six.
pub open spec fn dot_column(grid: Seq<u8>, row: int, k: int) -> u8 {
    if k / 6 < COLS && k % 6 < 5 {
        FONT@[5 * (cell(grid, row, k / 6) - 0x20) + k % 6]
    } else {
        0
    }
}

/// A console that is empty shows a text of at most a line as it is, and
/// nothing else.
pub proof fn law_a_text_is_shown(s: Console, text: Seq<u8>, r: int, c: int)
    requires
        s.shows(typed_all(seq![Seq::empty()], text)),
        text.len() <= COLS,
        forall|i: int| 0 <= i < text.len() ==> 0x20 <= #[trigger] text[i] <= 0x7E,
        0 <= r < ROWS,
        0 <= c < COLS,
    ensures
        s.grid@[COLS * r + c] == (if r == 0 && c < text.len() {
            text[c]
        } else {
            0x20u8
        }),
{
    let empty: Seq<Seq<u8>> = seq![Seq::empty()];
    assert(empty.last() =~= Seq::empty());
    law_a_short_text_stands_on_its_line(empty, text);
    let lines = empty.update(0, empty.last() + text);
    assert(empty.last() + text =~= text);
    assert(lines[0] == text);
    assert(cell(s.grid@, r, c) == cell_of(lines, r, c));
}

/// The screen shows the end of the text: its bottom row is the last line
/// once there are enough of them, and the rows above are the lines before.
pub proof fn law_the_last_lines_are_shown(s: Console, lines: Seq<Seq<u8>>, up: int, c: int)
    requires
        s.shows(lines),
        lines.len() >= ROWS,
        0 <= up < ROWS,
        0 <= c < COLS,
    ensures
        s.grid@[COLS * (ROWS - 1 - up) + c] == (if c < lines[lines.len() - 1 - up].len() {
            lines[lines.len() - 1 - up][c]
        } else {
            0x20u8
        }),
{
    assert(cell(s.grid@, ROWS - 1 - up, c) == cell_of(lines, ROWS - 1 - up, c));
}

/// The next character goes behind the last line where that line is shown:
/// in front of the cursor stands the line, behind it and below it nothing.
pub proof fn law_the_cursor_follows_the_text(s: Console, lines: Seq<Seq<u8>>, r: int, c: int)
    requires
        s.shows(lines),
        s.row <= r < ROWS,
        0 <= c < COLS,
    ensures
        s.grid@[COLS * r + c] == (if r == s.row && c < s.col {
            lines[lines.len() - 1][c]
        } else {
            0x20u8
        }),
        s.col == lines[lines.len() - 1].len(),
        // the screen scrolls only when it is full
        s.row < ROWS - 1 ==> s.row == lines.len() - 1,
{
    assert(cell(s.grid@, r, c) == cell_of(lines, r, c));
}

/// A row of dots holds its 21 glyphs side by side, each five columns of the
/// font and one of space.
pub proof fn law_glyphs_stand_side_by_side(grid: Seq<u8>, row: int, c: int, x: int)
    requires
        grid.len() == 168,
        printable(grid),
        0 <= row < ROWS,
        0 <= c < COLS,
        0 <= x < 6,
    ensures
        dot_column(grid, row, 6 * c + x) == (if x < 5 {
            FONT@[5 * (grid[COLS * row + c] - 0x20) + x]
        } else {
            0u8
        }),
        dot_column(grid, row, 126) == 0,
        dot_column(grid, row, 127) == 0,
{
    assert((6 * c + x) / 6 == c && (6 * c + x) % 6 == x);
}

proof fn lemma_cell_index(r: int, c: int)
    requires
        0 <= r < ROWS,
        0 <= c < COLS,
    ensures
        0 <= COLS * r + c < 168,
        r < ROWS - 1 ==> COLS * r + c < 147 && COLS * (r + 1) + c == COLS * r + c + 21,
        r == ROWS - 1 ==> COLS * r + c >= 147,
{
}

// --- the panel --------------------------------------------------------------------------

/// Bus addresses of the panel.
pub const ADDR: u8 = 0x3C;

pub const ADDR_ALT: u8 = 0x3D;

/// The commands that bring the panel up, after it has been switched off.
pub open spec fn setup_commands() -> Seq<Seq<u8>> {
    seq![
        seq![0xD5u8, 0x80u8],
        seq![0xA8u8, 0x3Fu8],
        seq![0xD3u8, 0x00u8],
        seq![0x40u8],
        seq![0x8Du8, 0x14u8],
        seq![0x20u8, 0x00u8],
        seq![0xA1u8],
        seq![0xC8u8],
        seq![0xDAu8, 0x12u8],
        seq![0x81u8, 0x7Fu8],
        seq![0xD9u8, 0xF1u8],
        seq![0xDBu8, 0x40u8],
        seq![0xA4u8],
        seq![0xA6u8],
        seq![0xAFu8],
    ]
}

/// Command `i` of the setup: one byte or two.
pub fn setup_command(i: usize) -> (c: Vec<u8>)
    requires
        i < 15,
    ensures
        c@ == setup_commands()[i as int],
{
    let pairs: [(u8, u8, bool); 15] = [
        (0xD5, 0x80, true),
        (0xA8, 0x3F, true),
        (0xD3, 0x00, true),
        (0x40, 0, false),
        (0x8D, 0x14, true),
        (0x20, 0x00, true),
        (0xA1, 0, false),
        (0xC8, 0, false),
        (0xDA, 0x12, true),
        (0x81, 0x7F, true),
        (0xD9, 0xF1, true),
        (0xDB, 0x40, true),
        (0xA4, 0, false),
        (0xA6, 0, false),
        (0xAF, 0, false),
    ];
    let p = pairs[i];
    let mut c: Vec<u8> = Vec::new();
    c.push(p.0);
    if p.2 {
        c.push(p.1);
    }
    assert(c@ =~= setup_commands()[i as int]);
    c
}

/// A command as it goes over the bus: the control byte, then the command.
pub fn cmd(bytes: &[u8]) -> (b: Vec<u8>)
    requires
        bytes@.len() <= 7,
    ensures
        b@ == seq![0u8] + bytes@,
{
    let mut b: Vec<u8> = Vec::new();
    b.push(0);
    b.extend_from_slice(bytes);
    assert(b@ =~= seq![0u8] + bytes@);
    b
}

/// Looking for the panel and bringing it up.
#[derive(Clone, Copy, PartialEq, Eq, Structural, Debug)]
pub struct Bringup {
    pub addr: u8,
    /// Commands acknowledged; the first is the one that switches off.
    pub done: usize,
}

#[derive(Clone, Copy, PartialEq, Eq, Structural, Debug)]
pub enum Panel {
    /// Switch the panel at the address off.
    Off,
    /// Send this command of the setup.
    Setup(usize),
    Found,
    Absent,
}

impl Bringup {
    pub fn init() -> (b: Bringup)
        ensures
            b == (Bringup { addr: ADDR, done: 0 }),
    {
        Bringup { addr: ADDR, done: 0 }
    }

    /// Whether the last command was acknowledged: the other address is tried
    /// once, and every command of the setup has to be.
    pub fn acked(&mut self, ok: bool) -> (p: Panel)
        requires
            old(self).done <= 15,
            old(self).addr == ADDR || old(self).addr == ADDR_ALT,
        ensures
            p == (if ok {
                if old(self).done < 15 {
                    Panel::Setup(old(self).done)
                } else {
                    Panel::Found
                }
            } else if old(self).done == 0 && old(self).addr == ADDR {
                Panel::Off
            } else {
                Panel::Absent
            }),
            final(self).addr == (if p == Panel::Off {
                ADDR_ALT
            } else {
                old(self).addr
            }),
            final(self).done == (if p is Setup {
                old(self).done + 1
            } else {
                old(self).done as int
            }),
    {
        if ok {
            if self.done < 15 {
                let i: usize = self.done;
                self.done = i + 1;
                Panel::Setup(i)
            } else {
                Panel::Found
            }
        } else if self.done == 0 && self.addr == ADDR {
            self.addr = ADDR_ALT;
            Panel::Off
        } else {
            Panel::Absent
        }
    }
}

} // verus!
