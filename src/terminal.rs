//! The drawing area that fits the terminal.
use vstd::prelude::*;

verus! {

/// Relies on `terminal_size::terminal_size`: the terminal's columns and rows, if it has a size.
#[verifier::external_body]
fn terminal_dims() -> (r: Option<(u16, u16)>)
{
    terminal_size::terminal_size().map(|(w, h)| (w.0, h.0))
}

/// The drawing area for a terminal of the given size: twice the height by five
/// rows less in a wide terminal, the width by half of it otherwise, 60 by 30 when
/// the size is unknown.
pub open spec fn area_for(dims: Option<(u16, u16)>) -> (usize, usize) {
    match dims {
        Some((w, h)) => if w > 2 * h {
            ((2 * h) as usize, (if h >= 5 { h - 5 } else { 0 }) as usize)
        } else {
            (w as usize, (w / 2) as usize)
        },
        None => (60, 30),
    }
}

/// The drawing area for a terminal of the given size (see [`area_for`]).
pub fn area_of(dims: Option<(u16, u16)>) -> (r: (usize, usize))
    ensures
        r == area_for(dims),
{
    match dims {
        Some((w, h)) => {
            if w as u32 > 2 * h as u32 {
                (2 * h as usize, if h >= 5 { (h - 5) as usize } else { 0 })
            } else {
                (w as usize, (w / 2) as usize)
            }
        },
        None => (60, 30),
    }
}

/// The drawing area for the terminal as it is now.
pub fn get_term_size() -> (r: (usize, usize))
    ensures
        exists|dims: Option<(u16, u16)>| r == area_for(dims),
{
    area_of(terminal_dims())
}

/// The new drawing area, if it differs from `old`.
pub fn listen_term_change(old: (usize, usize)) -> (r: Option<(usize, usize)>)
    ensures
        r matches Some(now) ==> now != old && exists|dims: Option<(u16, u16)>| now == area_for(dims),
        r is None ==> exists|dims: Option<(u16, u16)>| old == area_for(dims),
{
    let now = get_term_size();
    if old.0 == now.0 && old.1 == now.1 {
        return None;
    }
    Some(now)
}

} // verus!
