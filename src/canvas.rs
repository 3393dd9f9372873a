//! A canvas of braille characters: each character cell holds a 2 x 4 grid of dots.
use vstd::prelude::*;
use crate::text::string_of_chars;

verus! {

/// The dot bit of column `dx` (0 or 1) and row `dy` (0 to 3) within a cell.
pub open spec fn dot_bit(dx: int, dy: int) -> u32 {
    if dx == 0 {
        if dy == 0 { 0x01 } else if dy == 1 { 0x02 } else if dy == 2 { 0x04 } else { 0x40 }
    } else {
        if dy == 0 { 0x08 } else if dy == 1 { 0x10 } else if dy == 2 { 0x20 } else { 0x80 }
    }
}

fn pixel_of(x: usize, y: usize) -> (r: u32)
    ensures
        r == dot_bit((x % 2) as int, (y % 4) as int),
        r <= 0x80,
{
    let dx = x % 2;
    let dy = y % 4;
    if dx == 0 {
        if dy == 0 { 0x01 } else if dy == 1 { 0x02 } else if dy == 2 { 0x04 } else { 0x40 }
    } else {
        if dy == 0 { 0x08 } else if dy == 1 { 0x10 } else if dy == 2 { 0x20 } else { 0x80 }
    }
}

/// A fresh row: ten empty cells.
pub open spec fn blank_row() -> Seq<u32> {
    Seq::new(10, |i: int| 0u32)
}

/// The cells after making room for cell (`row`, `col`): missing rows are added
/// as blank rows, and row `row` is extended with empty cells up to `col`.
pub open spec fn padded(px: Seq<Seq<u32>>, row: int, col: int) -> Seq<Seq<u32>> {
    let rows = if row >= px.len() { px + Seq::new((row + 1 - px.len()) as nat, |i: int| blank_row()) } else { px };
    if col >= rows[row].len() {
        rows.update(row, rows[row] + Seq::new((col + 1 - rows[row].len()) as nat, |i: int| 0u32))
    } else {
        rows
    }
}

/// The cells with the dot at (`x`, `y`) set.
pub open spec fn with_dot(px: Seq<Seq<u32>>, x: int, y: int) -> Seq<Seq<u32>> {
    let p = padded(px, y / 4, x / 2);
    p.update(y / 4, p[y / 4].update(x / 2, p[y / 4][x / 2] | dot_bit(x % 2, y % 4)))
}

/// The cells with the dot at (`x`, `y`) cleared.
pub open spec fn without_dot(px: Seq<Seq<u32>>, x: int, y: int) -> Seq<Seq<u32>> {
    let p = padded(px, y / 4, x / 2);
    p.update(y / 4, p[y / 4].update(x / 2, p[y / 4][x / 2] & !dot_bit(x % 2, y % 4)))
}

/// Whether the dot at (`x`, `y`) is set.
pub open spec fn dot_is_set(px: Seq<Seq<u32>>, x: int, y: int) -> bool {
    y / 4 < px.len() && x / 2 < px[y / 4].len() && px[y / 4][x / 2] & dot_bit(x % 2, y % 4) != 0
}

/// The braille character with dot bits `p`.
pub open spec fn braille(p: u32) -> char {
    (0x2800 + p) as char
}

/// The text of the cells: one line per row, joined by newlines.
pub open spec fn frame_text(px: Seq<Seq<u32>>) -> Seq<char>
    decreases px.len(),
{
    if px.len() == 0 {
        seq![]
    } else if px.len() == 1 {
        px[0].map_values(|p: u32| braille(p))
    } else {
        frame_text(px.drop_last()) + seq!['\n'] + px.last().map_values(|p: u32| braille(p))
    }
}

/// Relies on `char::from_u32`: the braille character `0x2800 + p`, which is a valid scalar value.
#[verifier::external_body]
fn braille_char(p: u32) -> (r: char)
    requires
        p <= 0xff,
    ensures
        r == braille(p),
{
    char::from_u32(0x2800 + p).unwrap()
}

/// A grid of braille cells that grows as dots are set.
#[derive(Debug, PartialEq, Eq)]
pub struct Canvas {
    pixels: Vec<Vec<u32>>,
}

impl View for Canvas {
    type V = Seq<Seq<u32>>;

    closed spec fn view(&self) -> Seq<Seq<u32>> {
        self.pixels@.map_values(|r: Vec<u32>| r@)
    }
}

impl Canvas {
    /// Every cell holds dot bits only.
    pub open spec fn wf(&self) -> bool {
        forall|r: int, c: int| 0 <= r < self@.len() && 0 <= c < self@[r].len() ==> #[trigger] self@[r][c] <= 0xff
    }

    /// An empty canvas.
    pub fn new() -> (r: Canvas)
        ensures
            r.wf(),
            r@.len() == 0,
    {
        let r = Canvas { pixels: Vec::new() };
        assert(r@ =~= Seq::<Seq<u32>>::empty());
        r
    }

    /// Removes every dot.
    pub fn clear(&mut self)
        ensures
            final(self).wf(),
            final(self)@.len() == 0,
    {
        self.pixels = Vec::new();
        assert(self@ =~= Seq::<Seq<u32>>::empty());
    }

    fn pad_row(&mut self, row: usize)
        requires
            old(self).wf(),
            row >= old(self)@.len(),
            row < usize::MAX,
        ensures
            final(self).wf(),
            final(self)@ == old(self)@ + Seq::new((row + 1 - old(self)@.len()) as nat, |i: int| blank_row()),
    {
        let ghost old_view = self@;
        while self.pixels.len() <= row
            invariant
                old_view == old(self)@,
                old(self)@.len() <= self@.len() <= row + 1,
                self.pixels@.len() == self@.len(),
                self@ == old_view + Seq::new((self@.len() - old_view.len()) as nat, |i: int| blank_row()),
                self.wf(),
            decreases row + 1 - self.pixels@.len(),
        {
            let mut blank: Vec<u32> = Vec::new();
            let mut k: usize = 0;
            while k < 10
                invariant
                    k <= 10,
                    blank@ == Seq::new(k as nat, |i: int| 0u32),
                decreases 10 - k,
            {
                blank.push(0);
                k = k + 1;
                assert(blank@ =~= Seq::new(k as nat, |i: int| 0u32));
            }
            let ghost before = self@;
            self.pixels.push(blank);
            assert(self@ =~= before.push(blank_row()));
            assert(self@ =~= old_view + Seq::new((self@.len() - old_view.len()) as nat, |i: int| blank_row()));
        }
    }

    fn pad_col(&mut self, row: usize, col: usize)
        requires
            old(self).wf(),
            row < old(self)@.len(),
            col >= old(self)@[row as int].len(),
            col < usize::MAX,
        ensures
            final(self).wf(),
            final(self)@ == old(self)@.update(
                row as int,
                old(self)@[row as int] + Seq::new((col + 1 - old(self)@[row as int].len()) as nat, |i: int| 0u32),
            ),
    {
        let mut line = self.pixels[row].clone();
        let ghost start = line@;
        assert(start == old(self)@[row as int]);
        while line.len() <= col
            invariant
                start.len() <= line@.len() <= col + 1,
                line@ == start + Seq::new((line@.len() - start.len()) as nat, |i: int| 0u32),
                forall|c: int| 0 <= c < start.len() ==> start[c] <= 0xff,
            decreases col + 1 - line@.len(),
        {
            line.push(0);
            assert(line@ =~= start + Seq::new((line@.len() - start.len()) as nat, |i: int| 0u32));
        }
        let ghost before = self@;
        self.pixels.set(row, line);
        assert(self@ =~= before.update(row as int, line@));
    }

    fn pad_row_col(&mut self, row: usize, col: usize)
        requires
            old(self).wf(),
            row < usize::MAX,
            col < usize::MAX,
        ensures
            final(self).wf(),
            final(self)@ == padded(old(self)@, row as int, col as int),
            row < final(self)@.len(),
            col < final(self)@[row as int].len(),
    {
        if row >= self.pixels.len() {
            self.pad_row(row);
        }
        assert(self.pixels@.len() == self@.len());
        if col >= self.pixels[row].len() {
            self.pad_col(row, col);
        }
    }

    /// Sets the dot at (`x`, `y`): column `x`, row `y`, both counted in dots.
    pub fn set_dot(&mut self, x: usize, y: usize)
        requires
            old(self).wf(),
        ensures
            final(self).wf(),
            final(self)@ == with_dot(old(self)@, x as int, y as int),
    {
        let (row, col) = (y / 4, x / 2);
        self.pad_row_col(row, col);
        let pixel = pixel_of(x, y);
        let v = self.pixels[row][col] | pixel;
        proof {
            let old_v = self@[row as int][col as int];
            assert(old_v <= 0xff);
            assert(v <= 0xff) by (bit_vector)
                requires
                    v == old_v | pixel,
                    old_v <= 0xff,
                    pixel <= 0x80,
            ;
        }
        let mut line = self.pixels[row].clone();
        line.set(col, v);
        let ghost before = self@;
        self.pixels.set(row, line);
        assert(self@ =~= before.update(row as int, before[row as int].update(col as int, v)));
    }

    /// Clears the dot at (`x`, `y`).
    pub fn unset_dot(&mut self, x: usize, y: usize)
        requires
            old(self).wf(),
        ensures
            final(self).wf(),
            final(self)@ == without_dot(old(self)@, x as int, y as int),
    {
        let (row, col) = (y / 4, x / 2);
        self.pad_row_col(row, col);
        let pixel = pixel_of(x, y);
        let v = self.pixels[row][col] & !pixel;
        proof {
            let old_v = self@[row as int][col as int];
            assert(v <= 0xff) by (bit_vector)
                requires
                    v == old_v & !pixel,
                    old_v <= 0xff,
            ;
        }
        let mut line = self.pixels[row].clone();
        line.set(col, v);
        let ghost before = self@;
        self.pixels.set(row, line);
        assert(self@ =~= before.update(row as int, before[row as int].update(col as int, v)));
    }

    /// Whether the dot at (`x`, `y`) is set.
    pub fn get_dot(&self, x: usize, y: usize) -> (r: bool)
        ensures
            r == dot_is_set(self@, x as int, y as int),
    {
        let (row, col) = (y / 4, x / 2);
        if row < self.pixels.len() && col < self.pixels[row].len() {
            self.pixels[row][col] & pixel_of(x, y) != 0
        } else {
            false
        }
    }

    /// Flips the dot at (`x`, `y`).
    pub fn toggle_dot(&mut self, x: usize, y: usize)
        requires
            old(self).wf(),
        ensures
            final(self).wf(),
            dot_is_set(old(self)@, x as int, y as int) ==> final(self)@ == without_dot(old(self)@, x as int, y as int),
            !dot_is_set(old(self)@, x as int, y as int) ==> final(self)@ == with_dot(old(self)@, x as int, y as int),
    {
        if self.get_dot(x, y) {
            self.unset_dot(x, y);
        } else {
            self.set_dot(x, y);
        }
    }

    /// The canvas as text: one line of braille characters per row of cells.
    pub fn frame(&self) -> (r: String)
        requires
            self.wf(),
        ensures
            r@ == frame_text(self@),
    {
        let mut out: Vec<char> = Vec::new();
        let mut r: usize = 0;
        while r < self.pixels.len()
            invariant
                self.wf(),
                r <= self@.len(),
                self.pixels@.len() == self@.len(),
                out@ == frame_text(self@.subrange(0, r as int)),
            decreases self@.len() - r,
        {
            let ghost prefix = out@;
            if r > 0 {
                out.push('\n');
            }
            let row = &self.pixels[r];
            let ghost row_view = self@[r as int];
            assert(row@ == row_view);
            let ghost mid = out@;
            let mut c: usize = 0;
            while c < row.len()
                invariant
                    self.wf(),
                    r < self@.len(),
                    row@ == row_view,
                    row_view == self@[r as int],
                    c <= row@.len(),
                    out@ == mid + row_view.subrange(0, c as int).map_values(|p: u32| braille(p)),
                decreases row@.len() - c,
            {
                assert(row_view[c as int] <= 0xff);
                out.push(braille_char(row[c]));
                c = c + 1;
                assert(out@ =~= mid + row_view.subrange(0, c as int).map_values(|p: u32| braille(p)));
            }
            proof {
                assert(row_view.subrange(0, row_view.len() as int) =~= row_view);
                let next = self@.subrange(0, r + 1);
                assert(next.drop_last() =~= self@.subrange(0, r as int));
                assert(out@ =~= frame_text(next));
            }
            r = r + 1;
        }
        assert(self@.subrange(0, self@.len() as int) =~= self@);
        string_of_chars(out.as_slice())
    }
}

} // verus!
