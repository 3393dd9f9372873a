//! Text shown inside a window-like frame with a title bar.
use vstd::prelude::*;
use crate::tables::{aligned, plus3, push_aligned, push_repeat, repeat, utf8_len, Align};
use crate::text::string_of_chars;

verus! {

/// The longest byte length among `lines` (0 when there are none).
pub open spec fn max_len(lines: Seq<Seq<char>>) -> nat
    decreases lines.len(),
{
    if lines.len() == 0 {
        0
    } else {
        let rest = max_len(lines.drop_last());
        if utf8_len(lines.last()) > rest { utf8_len(lines.last()) } else { rest }
    }
}

pub open spec fn texts(lines: Seq<String>) -> Seq<Seq<char>> {
    lines.map_values(|s: String| s@)
}

/// The text width of the frame: three more than the longest line's byte length
/// (held at `usize::MAX`).
pub fn get_max_width(lines: &[String]) -> (r: usize)
    ensures
        r == plus3(max_len(texts(lines@))),
{
    let mut max_width: usize = 0;
    let mut i: usize = 0;
    while i < lines.len()
        invariant
            i <= lines@.len(),
            max_width == max_len(texts(lines@.subrange(0, i as int))),
        decreases lines@.len() - i,
    {
        let n = lines[i].as_str().len();
        proof {
            assert(texts(lines@.subrange(0, i + 1)).drop_last() =~= texts(lines@.subrange(0, i as int)));
            assert(texts(lines@.subrange(0, i + 1)).last() == lines@[i as int]@);
        }
        if n > max_width {
            max_width = n;
        }
        i = i + 1;
    }
    assert(lines@.subrange(0, lines@.len() as int) =~= lines@);
    max_width.saturating_add(3)
}

/// The title bar icons.
pub open spec fn icons() -> Seq<char> {
    seq!['-', ' ', '\u{25a1}', ' ', 'x', ' ']
}

/// The framed text for `lines` at text width `w`: top edge, title bar, a rule, one
/// line per input line padded to `w`, bottom edge.
pub open spec fn frame_lines(lines: Seq<Seq<char>>, w: nat) -> Seq<Seq<char>> {
    let bar = repeat('\u{2500}', w + 2);
    seq![
        seq!['\u{250c}'] + bar + seq!['\u{2510}'],
        seq!['\u{2502}'] + aligned(icons(), w + 2, Align::Right) + seq!['\u{2502}'],
        seq!['\u{251c}'] + bar + seq!['\u{2524}'],
    ] + Seq::new(lines.len(), |i: int| seq!['\u{2502}', ' '] + aligned(lines[i], w, Align::Left) + seq![' ', '\u{2502}'])
        + seq![seq!['\u{2514}'] + bar + seq!['\u{2518}']]
}

fn edge(left: char, w: usize, right: char) -> (r: String)
    requires
        w < usize::MAX - 2,
    ensures
        r@ == seq![left] + repeat('\u{2500}', (w + 2) as nat) + seq![right],
{
    let mut out: Vec<char> = Vec::new();
    out.push(left);
    push_repeat(&mut out, '\u{2500}', w + 2);
    out.push(right);
    assert(out@ =~= seq![left] + repeat('\u{2500}', (w + 2) as nat) + seq![right]);
    string_of_chars(out.as_slice())
}

/// The lines of `lines` in a frame of text width `max_width` (see [`get_max_width`]).
pub fn add_frame(lines: &[String], max_width: usize) -> (r: Vec<String>)
    requires
        max_width < usize::MAX - 2,
    ensures
        r@.map_values(|s: String| s@) == frame_lines(texts(lines@), max_width as nat),
{
    let mut out: Vec<String> = Vec::new();
    let first = edge('\u{250c}', max_width, '\u{2510}');
    let ghost first_v = first@;
    out.push(first);
    let mut bar: Vec<char> = Vec::new();
    bar.push('\u{2502}');
    push_aligned(&mut bar, "- \u{25a1} x ", max_width + 2, Align::Right);
    bar.push('\u{2502}');
    proof {
        reveal_strlit("- \u{25a1} x ");
        assert("- \u{25a1} x "@ =~= icons());
    }
    let ghost bar_v = bar@;
    out.push(string_of_chars(bar.as_slice()));
    let third = edge('\u{251c}', max_width, '\u{2524}');
    let ghost third_v = third@;
    out.push(third);
    let ghost head = out@.map_values(|s: String| s@);
    assert(head =~= seq![first_v, bar_v, third_v]);
    let mut i: usize = 0;
    while i < lines.len()
        invariant
            i <= lines@.len(),
            head.len() == 3,
            out@.map_values(|s: String| s@) == head + Seq::new(i as nat, |k: int|
                seq!['\u{2502}', ' '] + aligned(lines@[k]@, max_width as nat, Align::Left) + seq![' ', '\u{2502}']),
        decreases lines@.len() - i,
    {
        let mut l: Vec<char> = Vec::new();
        l.push('\u{2502}');
        l.push(' ');
        push_aligned(&mut l, lines[i].as_str(), max_width, Align::Left);
        l.push(' ');
        l.push('\u{2502}');
        let ghost lv = l@;
        let ghost o0 = out@.map_values(|s: String| s@);
        out.push(string_of_chars(l.as_slice()));
        assert(out@.map_values(|s: String| s@) =~= o0.push(lv));
        i = i + 1;
        assert(lv =~= seq!['\u{2502}', ' '] + aligned(lines@[i - 1]@, max_width as nat, Align::Left) + seq![' ', '\u{2502}']);
        assert(out@.map_values(|s: String| s@) =~= head + Seq::new(i as nat, |k: int|
            seq!['\u{2502}', ' '] + aligned(lines@[k]@, max_width as nat, Align::Left) + seq![' ', '\u{2502}']));
    }
    let ghost body = out@.map_values(|s: String| s@);
    let last = edge('\u{2514}', max_width, '\u{2518}');
    let ghost last_v = last@;
    out.push(last);
    assert(out@.map_values(|s: String| s@) =~= body.push(last_v));
    proof {
        let t = texts(lines@);
        let w = max_width as nat;
        assert(Seq::new(lines@.len(), |k: int| seq!['\u{2502}', ' '] + aligned(lines@[k]@, w, Align::Left) + seq![' ', '\u{2502}'])
            =~= Seq::new(t.len(), |k: int| seq!['\u{2502}', ' '] + aligned(t[k], w, Align::Left) + seq![' ', '\u{2502}']));
        assert(bar_v == seq!['\u{2502}'] + aligned(icons(), w + 2, Align::Right) + seq!['\u{2502}']);
        assert(out@.map_values(|s: String| s@) =~= frame_lines(t, w));
    }
    out
}

} // verus!
