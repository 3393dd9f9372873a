//! Coloured characters for shading a rendered surface, darkest first.
use vstd::prelude::*;
use rand::Rng;

verus! {

/// A character with a 24-bit colour.
#[derive(Clone, Copy, Debug)]
pub struct Colored {
    pub color: (u8, u8, u8),
    pub ch: char,
}

impl Colored {
    pub fn new(color: (u8, u8, u8), ch: char) -> (r: Colored)
        ensures
            r.color == color,
            r.ch == ch,
    {
        Colored { color, ch }
    }
}

/// How the shading characters are coloured.
#[derive(Clone, Copy, Debug)]
pub enum Imp {
    /// A random walk of the base colour, made lighter towards the bright end.
    Color,
    /// Grey, lighter towards the bright end.
    Light,
    /// One grey for all.
    Plain,
}

/// The shading characters, darkest first.
pub open spec fn shades() -> Seq<char> {
    seq!['.', ',', '-', '~', ':', ';', '=', '!', '*', '#', '$', '@']
}

/// The shading characters, all in light grey.
pub fn gen_none_char() -> (r: Vec<Colored>)
    ensures
        r@.len() == shades().len(),
        forall|i: int| 0 <= i < r@.len() ==> (#[trigger] r@[i]).ch == shades()[i] && r@[i].color == (192u8, 192u8, 192u8),
{
    let color = (192u8, 192u8, 192u8);
    let chars = ['.', ',', '-', '~', ':', ';', '=', '!', '*', '#', '$', '@'];
    let mut colored: Vec<Colored> = Vec::new();
    let mut i: usize = 0;
    while i < 12
        invariant
            i <= 12,
            chars@ == shades(),
            colored@.len() == i,
            forall|k: int| 0 <= k < i ==> (#[trigger] colored@[k]).ch == shades()[k] && colored@[k].color == color,
        decreases 12 - i,
    {
        colored.push(Colored::new(color, chars[i]));
        i = i + 1;
    }
    colored
}

/// One colour component moved by a random `offset` in `0..=16`: down near the
/// top, up near the bottom, by `offset - 8` in between.
pub open spec fn jitter(a: u8, offset: u8) -> u8 {
    if a >= 240 {
        (a - offset) as u8
    } else if a <= 16 {
        (a + offset) as u8
    } else {
        (a + offset - 8) as u8
    }
}

/// Relies on `rand::Rng::gen_range` over `0..=16` with the thread-local generator.
#[verifier::external_body]
fn random_offset() -> (r: u8)
    ensures
        r <= 16,
{
    rand::thread_rng().gen_range(0..=16u8)
}

/// One colour component moved by `offset` (see [`jitter`]).
pub fn jitter_by(a: u8, offset: u8) -> (r: u8)
    requires
        offset <= 16,
    ensures
        r == jitter(a, offset),
{
    if a >= 240 {
        a - offset
    } else if a <= 16 {
        a + offset
    } else {
        a + offset - 8
    }
}

fn jitter_component(a: u8) -> (r: u8)
    ensures
        exists|off: u8| off <= 16 && r == jitter(a, off),
{
    let off = random_offset();
    jitter_by(a, off)
}

/// Moves each component of `color` by its own random offset (see [`jitter`]).
pub fn jitter_color(color: &mut (u8, u8, u8))
    ensures
        exists|o: u8| o <= 16 && final(color).0 == jitter(old(color).0, o),
        exists|o: u8| o <= 16 && final(color).1 == jitter(old(color).1, o),
        exists|o: u8| o <= 16 && final(color).2 == jitter(old(color).2, o),
{
    color.0 = jitter_component(color.0);
    color.1 = jitter_component(color.1);
    color.2 = jitter_component(color.2);
}

} // verus!
