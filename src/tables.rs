//! Text tables: a header row and body rows, each cell padded to its column's width.
use vstd::prelude::*;
use vstd::string::*;
use crate::text::string_of_chars;

verus! {

/// The length in bytes of the UTF-8 encoding of `s`, as `str::len` reports it.
pub open spec fn utf8_len(s: Seq<char>) -> nat {
    (vstd::utf8::encode_utf8(s).len() as usize) as nat
}

/// `n + 3`, held at `usize::MAX`.
pub open spec fn plus3(n: nat) -> int {
    if n + 3 > usize::MAX { usize::MAX as int } else { n as int + 3 }
}

/// How cell text sits in its column.
#[derive(Clone, Copy, Debug, PartialEq, Eq, Structural)]
pub enum Align {
    Left,
    Center,
    Right,
}

impl Align {
    pub fn new() -> (r: Align)
        ensures
            r == Align::Center,
    {
        Align::Center
    }
}

/// Where separator lines go: nowhere, under the header, or between all rows.
#[derive(Clone, Copy, Debug, PartialEq, Eq, Structural)]
pub enum Segment {
    Nowhere,
    OnlyHeader,
    Full,
}

impl Segment {
    pub fn new() -> (r: Segment)
        ensures
            r == Segment::OnlyHeader,
    {
        Segment::OnlyHeader
    }
}

/// The characters of a decorated frame: corners, top and bottom edges with their
/// joints, left and right sides, separator line and its joint, and the cell separator.
#[derive(Clone, Copy, Debug)]
pub struct DecChar {
    pub lt: char,
    pub rt: char,
    pub lb: char,
    pub rb: char,
    pub tm: char,
    pub bm: char,
    pub lm: char,
    pub rm: char,
    pub th: char,
    pub bh: char,
    pub lv: char,
    pub rv: char,
    pub sh: char,
    pub shv: char,
    pub sep: char,
}

impl DecChar {
    /// Rounded light corners on the left, double lines on the right and bottom.
    pub fn new() -> (r: DecChar)
        ensures
            r == (DecChar {
                lt: '\u{256d}', rt: '\u{2556}', lb: '\u{2570}', rb: '\u{255d}',
                tm: '\u{2500}', bm: '\u{2550}', lm: '\u{251c}', rm: '\u{2562}',
                th: '\u{2500}', bh: '\u{2550}', lv: '\u{2502}', rv: '\u{2551}',
                sh: '\u{2504}', shv: '\u{2504}', sep: ' ',
            }),
    {
        DecChar {
            lt: '\u{256d}',
            rt: '\u{2556}',
            lb: '\u{2570}',
            rb: '\u{255d}',
            tm: '\u{2500}',
            bm: '\u{2550}',
            lm: '\u{251c}',
            rm: '\u{2562}',
            th: '\u{2500}',
            bh: '\u{2550}',
            lv: '\u{2502}',
            rv: '\u{2551}',
            sh: '\u{2504}',
            shv: '\u{2504}',
            sep: ' ',
        }
    }
}

/// A row whose number of cells differs from the header's, or a column whose
/// number of cells differs from the number of rows.
#[derive(Clone, Copy, Debug, PartialEq, Eq, Structural)]
pub struct PushErr;

pub open spec fn repeat(c: char, n: nat) -> Seq<char> {
    Seq::new(n, |i: int| c)
}

/// `parts` joined by `sep`.
pub open spec fn join(parts: Seq<Seq<char>>, sep: char) -> Seq<char>
    decreases parts.len(),
{
    if parts.len() == 0 {
        seq![]
    } else if parts.len() == 1 {
        parts[0]
    } else {
        join(parts.drop_last(), sep) + seq![sep] + parts.last()
    }
}

/// `s` padded with spaces to `w` characters, as `align` says.
pub open spec fn aligned(s: Seq<char>, w: nat, align: Align) -> Seq<char> {
    if s.len() >= w {
        s
    } else {
        let pad = (w - s.len()) as nat;
        match align {
            Align::Left => s + repeat(' ', pad),
            Align::Right => repeat(' ', pad) + s,
            Align::Center => repeat(' ', pad / 2) + s + repeat(' ', (pad + 1) / 2),
        }
    }
}

/// The cells of `row` padded to `widths` (as many as both have).
pub open spec fn padded_cells(widths: Seq<usize>, row: Seq<Seq<char>>, align: Align) -> Seq<Seq<char>> {
    let n = if widths.len() < row.len() { widths.len() } else { row.len() };
    Seq::new(n, |i: int| aligned(row[i], widths[i] as nat, align))
}

/// One rule per column of the given widths, joined by `joint`.
pub open spec fn rule(widths: Seq<usize>, c: char, joint: char) -> Seq<char> {
    join(widths.map_values(|w: usize| repeat(c, w as nat)), joint)
}

/// The column widths after counting `row`: three more than each cell's byte length
/// (held at `usize::MAX`)
/// for the first row; later, per column, the larger of the old width less three and
/// the cell's byte length plus three.
pub open spec fn counted_widths(widths: Seq<usize>, row: Seq<Seq<char>>) -> Seq<int> {
    if widths.len() == 0 {
        Seq::new(row.len(), |i: int| plus3(utf8_len(row[i])))
    } else {
        let n = if widths.len() < row.len() { widths.len() } else { row.len() };
        Seq::new(n, |i: int| if widths[i] - 3 > plus3(utf8_len(row[i])) { widths[i] - 3 } else { plus3(utf8_len(row[i])) })
    }
}

pub open spec fn row_view(row: Seq<String>) -> Seq<Seq<char>> {
    row.map_values(|s: String| s@)
}

fn rule_chars(widths: &Vec<usize>, c: char, joint: char) -> (r: Vec<char>)
    ensures
        r@ == rule(widths@, c, joint),
{
    let mut out: Vec<char> = Vec::new();
    let mut i: usize = 0;
    while i < widths.len()
        invariant
            i <= widths@.len(),
            out@ == rule(widths@.subrange(0, i as int), c, joint),
        decreases widths@.len() - i,
    {
        let ghost before = out@;
        if i > 0 {
            out.push(joint);
        }
        push_repeat(&mut out, c, widths[i]);
        proof {
            let parts = widths@.subrange(0, i + 1).map_values(|w: usize| repeat(c, w as nat));
            assert(parts.drop_last() =~= widths@.subrange(0, i as int).map_values(|w: usize| repeat(c, w as nat)));
            assert(out@ =~= join(parts, joint));
        }
        i = i + 1;
    }
    assert(widths@.subrange(0, widths@.len() as int) =~= widths@);
    out
}

fn line_chars(widths: &Vec<usize>, row: &Vec<String>, align: Align, sep: char) -> (r: Vec<char>)
    ensures
        r@ == join(padded_cells(widths@, row_view(row@), align), sep),
{
    let n = if widths.len() < row.len() { widths.len() } else { row.len() };
    let ghost cells = padded_cells(widths@, row_view(row@), align);
    let mut out: Vec<char> = Vec::new();
    let mut i: usize = 0;
    while i < n
        invariant
            n == cells.len(),
            n <= widths@.len(),
            n <= row@.len(),
            cells == padded_cells(widths@, row_view(row@), align),
            i <= n,
            out@ == join(cells.subrange(0, i as int), sep),
        decreases n - i,
    {
        if i > 0 {
            out.push(sep);
        }
        push_aligned(&mut out, row[i].as_str(), widths[i], align);
        proof {
            let parts = cells.subrange(0, i + 1);
            assert(parts.drop_last() =~= cells.subrange(0, i as int));
            assert(parts.last() == aligned(row@[i as int]@, widths@[i as int] as nat, align));
            assert(out@ =~= join(parts, sep));
        }
        i = i + 1;
    }
    assert(cells.subrange(0, n as int) =~= cells);
    out
}

fn framed(left: Option<char>, mid: Vec<char>, right: Option<char>) -> (r: String)
    ensures
        r@ == (match left { Some(c) => seq![c], None => seq![] }) + mid@ + (match right { Some(c) => seq![c], None => seq![] }),
{
    let mut out: Vec<char> = Vec::new();
    if let Some(c) = left {
        out.push(c);
    }
    push_all(&mut out, &mid);
    if let Some(c) = right {
        out.push(c);
    }
    proof {
        let l = match left { Some(c) => seq![c], None => seq![] };
        let rr = match right { Some(c) => seq![c], None => seq![] };
        assert(out@ =~= l + mid@ + rr);
    }
    string_of_chars(out.as_slice())
}

/// A table of text.
pub struct Table {
    align: Align,
    seg: Segment,
    rows: Vec<Vec<String>>,
    header: Vec<String>,
    max_widths: Vec<usize>,
    made_seg: Vec<char>,
    dec_char: DecChar,
    is_dec: bool,
}

fn chars_of(s: &str) -> (r: Vec<char>)
    ensures
        r@ == s@,
{
    let n = s.unicode_len();
    let mut v: Vec<char> = Vec::new();
    let mut i: usize = 0;
    while i < n
        invariant
            n == s@.len(),
            i <= n,
            v@ == s@.subrange(0, i as int),
        decreases n - i,
    {
        v.push(s.get_char(i));
        i = i + 1;
        assert(v@ =~= s@.subrange(0, i as int));
    }
    assert(v@ =~= s@);
    v
}

pub(crate) fn push_repeat(out: &mut Vec<char>, c: char, n: usize)
    ensures
        final(out)@ == old(out)@ + repeat(c, n as nat),
{
    let mut i: usize = 0;
    while i < n
        invariant
            i <= n,
            out@ == old(out)@ + repeat(c, i as nat),
        decreases n - i,
    {
        out.push(c);
        i = i + 1;
        assert(out@ =~= old(out)@ + repeat(c, i as nat));
    }
}

fn push_all(out: &mut Vec<char>, s: &Vec<char>)
    ensures
        final(out)@ == old(out)@ + s@,
{
    let mut i: usize = 0;
    while i < s.len()
        invariant
            i <= s@.len(),
            out@ == old(out)@ + s@.subrange(0, i as int),
        decreases s@.len() - i,
    {
        out.push(s[i]);
        i = i + 1;
        assert(out@ =~= old(out)@ + s@.subrange(0, i as int));
    }
    assert(s@.subrange(0, s@.len() as int) =~= s@);
}

/// `s` padded to `w` characters as `align` says.
pub(crate) fn push_aligned(out: &mut Vec<char>, s: &str, w: usize, align: Align)
    ensures
        final(out)@ == old(out)@ + aligned(s@, w as nat, align),
{
    let text = chars_of(s);
    let n = text.len();
    if n >= w {
        push_all(out, &text);
        return;
    }
    let pad = w - n;
    match align {
        Align::Left => {
            push_all(out, &text);
            push_repeat(out, ' ', pad);
        },
        Align::Right => {
            push_repeat(out, ' ', pad);
            push_all(out, &text);
        },
        Align::Center => {
            push_repeat(out, ' ', pad / 2);
            push_all(out, &text);
            push_repeat(out, ' ', pad - pad / 2);
            assert(pad - pad / 2 == (pad + 1) / 2);
        },
    }
}

/// The lines of the body: each row between the side characters, each followed by
/// a separator line when `full`.
pub open spec fn body_lines(rows: Seq<Seq<Seq<char>>>, widths: Seq<usize>, align: Align, sep: char, pre: Seq<char>, suf: Seq<char>, rule_line: Seq<char>, full: bool) -> Seq<Seq<char>>
    decreases rows.len(),
{
    if rows.len() == 0 {
        seq![]
    } else {
        let before = body_lines(rows.drop_last(), widths, align, sep, pre, suf, rule_line, full);
        let line = pre + join(padded_cells(widths, rows.last(), align), sep) + suf;
        if full { before.push(line).push(rule_line) } else { before.push(line) }
    }
}

impl Table {
    /// The rows, as text.
    pub closed spec fn rows_text(&self) -> Seq<Seq<Seq<char>>> {
        self.rows@.map_values(|r: Vec<String>| row_view(r@))
    }

    /// The header, as text.
    pub closed spec fn header_text(&self) -> Seq<Seq<char>> {
        row_view(self.header@)
    }

    /// The column widths.
    pub closed spec fn widths(&self) -> Seq<usize> {
        self.max_widths@
    }

    pub closed spec fn wf(&self) -> bool {
        forall|i: int| 0 <= i < self.max_widths@.len() ==> #[trigger] self.max_widths@[i] >= 3
    }

    /// The lines that `make_table` gives.
    pub closed spec fn lines(&self) -> Seq<Seq<char>> {
        let d = self.dec_char;
        let w = self.max_widths@;
        let seg_line = rule(w, d.sh, d.shv);
        let top = if self.is_dec { seq![seq![d.lt] + rule(w, d.th, d.tm) + seq![d.rt]] } else { seq![] };
        let head = seq![seq![d.lv] + join(padded_cells(w, self.header_text(), self.align), d.sep) + seq![d.rv]];
        let head_seg = if self.seg == Segment::OnlyHeader {
            if self.is_dec { seq![seq![d.lm] + seg_line + seq![d.rm]] } else { seq![seg_line] }
        } else {
            seq![]
        };
        let body = if self.is_dec {
            body_lines(self.rows_text(), w, self.align, d.sep, seq![d.lv], seq![d.rv], seg_line, self.seg == Segment::Full)
        } else {
            body_lines(self.rows_text(), w, self.align, d.sep, seq![], seq![], seg_line, self.seg == Segment::Full)
        };
        let upper = top + head + head_seg + body;
        let kept = if self.seg == Segment::Full { upper.drop_last() } else { upper };
        let foot = if self.is_dec { seq![seq![d.lb] + rule(w, d.bh, d.bm) + seq![d.rb]] } else { seq![] };
        kept + foot
    }

    /// An empty table, framed when `is_dec`.
    pub fn new(is_dec: bool) -> (r: Table)
        ensures
            r.wf(),
            r.rows_text().len() == 0,
            r.header_text().len() == 0,
            r.widths().len() == 0,
    {
        let r = Table {
            align: Align::new(),
            seg: Segment::new(),
            rows: Vec::new(),
            header: Vec::new(),
            max_widths: Vec::new(),
            made_seg: Vec::new(),
            dec_char: DecChar::new(),
            is_dec,
        };
        assert(r.rows_text() =~= Seq::<Seq<Seq<char>>>::empty());
        assert(r.header_text() =~= Seq::<Seq<char>>::empty());
        r
    }

    pub fn set_header(&mut self, header: Vec<String>)
        requires
            old(self).wf(),
        ensures
            final(self).wf(),
            final(self).header_text() == row_view(header@),
            final(self).rows_text() == old(self).rows_text(),
            final(self).widths() == old(self).widths(),
    {
        self.header = header;
    }

    fn re_count_width(&mut self, row: &Vec<String>)
        requires
            old(self).wf(),
        ensures
            final(self).wf(),
            final(self).widths().map_values(|w: usize| w as int) == counted_widths(old(self).widths(), row_view(row@)),
            final(self).rows_text() == old(self).rows_text(),
            final(self).header_text() == old(self).header_text(),
    {
        let ghost old_w = self.max_widths@;
        let ghost rv = row_view(row@);
        let mut fresh: Vec<usize> = Vec::new();
        let first = self.max_widths.len() == 0;
        let n = if first || row.len() < self.max_widths.len() { row.len() } else { self.max_widths.len() };
        let mut i: usize = 0;
        while i < n
            invariant
                old(self).wf(),
                self.max_widths@ == old_w,
                old_w == old(self).max_widths@,
                rv == row_view(row@),
                first == (old_w.len() == 0),
                n == (if first || row@.len() < old_w.len() { row@.len() } else { old_w.len() }),
                i <= n,
                fresh@.len() == i,
                forall|k: int| 0 <= k < i ==> #[trigger] fresh@[k] >= 3,
                forall|k: int| 0 <= k < i ==> #[trigger] fresh@[k] as int == counted_widths(old_w, rv)[k],
            decreases n - i,
        {
            let b = row[i].as_str().len().saturating_add(3);
            let v = if first {
                b
            } else {
                let a = self.max_widths[i] - 3;
                if a > b { a } else { b }
            };
            fresh.push(v);
            i = i + 1;
        }
        self.max_widths = fresh;
        proof {
            assert(self.max_widths@.map_values(|w: usize| w as int) =~= counted_widths(old_w, rv));
        }
    }

    /// Adds a row; it must have as many cells as the header.
    pub fn push(&mut self, row: Vec<String>) -> (r: Result<(), PushErr>)
        requires
            old(self).wf(),
        ensures
            final(self).wf(),
            final(self).header_text() == old(self).header_text(),
            row@.len() != old(self).header_text().len() ==> r is Err && final(self).rows_text() == old(self).rows_text()
                && final(self).widths() == old(self).widths(),
            row@.len() == old(self).header_text().len() ==> r is Ok
                && final(self).rows_text() == old(self).rows_text().push(row_view(row@))
                && final(self).widths().map_values(|w: usize| w as int) == counted_widths(old(self).widths(), row_view(row@)),
    {
        if row.len() != self.header.len() {
            return Err(PushErr);
        }
        self.re_count_width(&row);
        let ghost before = self.rows@;
        self.rows.push(row);
        assert(self.rows_text() =~= old(self).rows_text().push(row_view(row@)));
        Ok(())
    }

    /// Adds each row in turn, stopping at the first that does not fit (see [`Table::push`]).
    pub fn set_rows(&mut self, rows: Vec<Vec<String>>) -> (r: Result<(), PushErr>)
        requires
            old(self).wf(),
        ensures
            final(self).wf(),
            final(self).header_text() == old(self).header_text(),
            r is Ok <==> forall|i: int| 0 <= i < rows@.len() ==> (#[trigger] rows@[i])@.len() == old(self).header_text().len(),
            r is Ok ==> final(self).rows_text() == old(self).rows_text() + rows@.map_values(|x: Vec<String>| row_view(x@)),
            r is Err ==> exists|k: int| 0 <= k < rows@.len() && (#[trigger] rows@[k])@.len() != old(self).header_text().len()
                && (forall|j: int| 0 <= j < k ==> (#[trigger] rows@[j])@.len() == old(self).header_text().len())
                && final(self).rows_text() == old(self).rows_text() + rows@.subrange(0, k).map_values(|x: Vec<String>| row_view(x@)),
    {
        let ghost all = rows@;
        let total = rows.len();
        let mut rest = rows;
        let mut i: usize = 0;
        while rest.len() > 0
            invariant
                self.wf(),
                i <= all.len(),
                all == rows@,
                all.len() == total,
                i + rest@.len() == all.len(),
                rest@ == all.subrange(i as int, all.len() as int),
                self.header_text() == old(self).header_text(),
                forall|k: int| 0 <= k < i ==> (#[trigger] all[k])@.len() == old(self).header_text().len(),
                self.rows_text() == old(self).rows_text() + all.subrange(0, i as int).map_values(|x: Vec<String>| row_view(x@)),
            decreases rest@.len(),
        {
            let row = rest.remove(0);
            assert(row == all[i as int]);
            match self.push(row) {
                Err(e) => {
                    assert(all[i as int]@.len() != old(self).header_text().len());
                    return Err(e);
                },
                Ok(()) => {},
            }
            i = i + 1;
            assert(all.subrange(0, i as int).map_values(|x: Vec<String>| row_view(x@))
                =~= all.subrange(0, i - 1).map_values(|x: Vec<String>| row_view(x@)).push(row_view(all[i - 1]@)));
            assert(rest@ =~= all.subrange(i as int, all.len() as int));
        }
        assert(all.subrange(0, all.len() as int) =~= all);
        Ok(())
    }
    /// Adds a column: one cell per row, and its header.
    pub fn push_col(&mut self, col: Vec<String>, header: String) -> (r: Result<(), PushErr>)
        requires
            old(self).wf(),
        ensures
            final(self).wf(),
            final(self).widths() == old(self).widths(),
            col@.len() != old(self).rows_text().len() ==> r is Err && final(self).rows_text() == old(self).rows_text()
                && final(self).header_text() == old(self).header_text(),
            col@.len() == old(self).rows_text().len() ==> r is Ok
                && final(self).header_text() == old(self).header_text().push(header@)
                && final(self).rows_text() == Seq::new(col@.len(), |i: int| old(self).rows_text()[i].push(col@[i]@)),
    {
        if col.len() != self.rows.len() {
            return Err(PushErr);
        }
        let ghost cells = col@;
        let ghost start = self.rows_text();
        let n = col.len();
        let mut rest = col;
        let mut i: usize = 0;
        while i < n
            invariant
                self.wf(),
                self.max_widths@ == old(self).max_widths@,
                self.header@ == old(self).header@,
                n == cells.len(),
                self.rows@.len() == n,
                i <= n,
                rest@ == cells.subrange(i as int, n as int),
                start == old(self).rows_text(),
                start.len() == n,
                self.rows_text().len() == n,
                forall|k: int| 0 <= k < i ==> #[trigger] self.rows_text()[k] == start[k].push(cells[k]@),
                forall|k: int| i <= k < n ==> #[trigger] self.rows_text()[k] == start[k],
            decreases n - i,
        {
            let cell = rest.remove(0);
            assert(cell == cells[i as int]);
            let ghost before = self.rows_text();
            let ghost before_rows = self.rows@;
            let mut row = self.rows.remove(i);
            row.push(cell);
            let ghost grown = row@;
            let ghost grown_vec = row;
            self.rows.insert(i, row);
            proof {
                assert(self.rows@ =~= before_rows.update(i as int, grown_vec));
                assert(row_view(grown) =~= before[i as int].push(cells[i as int]@));
                assert forall|k: int| 0 <= k < n && k != i implies #[trigger] self.rows_text()[k] == before[k] by {
                    assert(self.rows@[k] == before_rows[k]);
                }
                assert(self.rows_text()[i as int] == row_view(grown));
            }
            i = i + 1;
            assert(rest@ =~= cells.subrange(i as int, n as int));
        }
        self.header.push(header);
        assert(self.header_text() =~= old(self).header_text().push(header@));
        assert(self.rows_text() =~= Seq::new(cells.len(), |k: int| start[k].push(cells[k]@)));
        Ok(())
    }
    /// The table as lines of text: an optional top edge, the header, a separator
    /// line, the rows, and an optional bottom edge.
    pub fn make_table(&mut self) -> (r: Vec<String>)
        requires
            old(self).wf(),
        ensures
            final(self).wf(),
            final(self).lines() == old(self).lines(),
            r@.map_values(|l: String| l@) == old(self).lines(),
    {
        let d = self.dec_char;
        self.made_seg = rule_chars(&self.max_widths, d.sh, d.shv);
        let mut lines: Vec<String> = Vec::new();
        let ghost w = self.max_widths@;
        let ghost seg_line = rule(w, d.sh, d.shv);
        let ghost top = if self.is_dec { seq![seq![d.lt] + rule(w, d.th, d.tm) + seq![d.rt]] } else { seq![] };
        if self.is_dec {
            lines.push(framed(Some(d.lt), rule_chars(&self.max_widths, d.th, d.tm), Some(d.rt)));
        }
        lines.push(framed(Some(d.lv), line_chars(&self.max_widths, &self.header, self.align, d.sep), Some(d.rv)));
        if self.seg == Segment::OnlyHeader {
            let made = rule_chars(&self.max_widths, d.sh, d.shv);
            if self.is_dec {
                lines.push(framed(Some(d.lm), made, Some(d.rm)));
            } else {
                lines.push(framed(None, made, None));
            }
        }
        let ghost upper_head = lines@.map_values(|l: String| l@);
        let full = self.seg == Segment::Full;
        let (pre, suf) = if self.is_dec { (Some(d.lv), Some(d.rv)) } else { (None, None) };
        let ghost pre_s = match pre { Some(c) => seq![c], None => Seq::<char>::empty() };
        let ghost suf_s = match suf { Some(c) => seq![c], None => Seq::<char>::empty() };
        let mut i: usize = 0;
        while i < self.rows.len()
            invariant
                self.wf(),
                self.max_widths@ == w,
                d == self.dec_char,
                full == (self.seg == Segment::Full),
                i <= self.rows@.len(),
                seg_line == rule(w, d.sh, d.shv),
                pre_s == (if self.is_dec { seq![d.lv] } else { Seq::<char>::empty() }),
                suf_s == (if self.is_dec { seq![d.rv] } else { Seq::<char>::empty() }),
                pre_s == (match pre { Some(c) => seq![c], None => Seq::<char>::empty() }),
                suf_s == (match suf { Some(c) => seq![c], None => Seq::<char>::empty() }),
                lines@.map_values(|l: String| l@) == upper_head
                    + body_lines(self.rows_text().subrange(0, i as int), w, self.align, d.sep, pre_s, suf_s, seg_line, full),
            decreases self.rows@.len() - i,
        {
            let ghost l0 = lines@.map_values(|l: String| l@);
            let row_line = framed(pre, line_chars(&self.max_widths, &self.rows[i], self.align, d.sep), suf);
            let ghost rl = row_line@;
            lines.push(row_line);
            let ghost l1 = lines@.map_values(|l: String| l@);
            assert(l1 =~= l0.push(rl));
            if full {
                let sl = framed(None, rule_chars(&self.max_widths, d.sh, d.shv), None);
                assert(sl@ =~= seg_line);
                lines.push(sl);
                assert(lines@.map_values(|l: String| l@) =~= l1.push(seg_line));
            }
            proof {
                let rs = self.rows_text().subrange(0, i + 1);
                let prev = self.rows_text().subrange(0, i as int);
                assert(rs.drop_last() =~= prev);
                assert(rs.last() == row_view(self.rows@[i as int]@));
                let line = pre_s + join(padded_cells(w, rs.last(), self.align), d.sep) + suf_s;
                assert(rl == line);
                let bl_prev = body_lines(prev, w, self.align, d.sep, pre_s, suf_s, seg_line, full);
                let bl = body_lines(rs, w, self.align, d.sep, pre_s, suf_s, seg_line, full);
                if full {
                    assert(bl == bl_prev.push(line).push(seg_line));
                    assert(lines@.map_values(|l: String| l@) =~= upper_head + bl);
                } else {
                    assert(bl == bl_prev.push(line));
                    assert(lines@.map_values(|l: String| l@) =~= upper_head + bl);
                }
            }
            i = i + 1;
        }
        proof {
            assert(self.rows_text().subrange(0, self.rows@.len() as int) =~= self.rows_text());
        }
        let ghost upper = lines@.map_values(|l: String| l@);
        if full {
            lines.pop();
            assert(lines@.map_values(|l: String| l@) =~= upper.drop_last());
        }
        let ghost kept = lines@.map_values(|l: String| l@);
        if self.is_dec {
            let foot = framed(Some(d.lb), rule_chars(&self.max_widths, d.bh, d.bm), Some(d.rb));
            let ghost fl = foot@;
            lines.push(foot);
            assert(lines@.map_values(|l: String| l@) =~= kept.push(fl));
        }
        proof {
            let body = body_lines(self.rows_text(), w, self.align, d.sep, pre_s, suf_s, seg_line, full);
            assert(upper == upper_head + body);
            assert(self.rows_text() == old(self).rows_text());
            assert(lines@.map_values(|l: String| l@) =~= old(self).lines());
        }
        lines
    }
}

} // verus!
