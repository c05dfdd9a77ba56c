//! The save format: the width on a first line, then one `'1'` or `'0'` per
//! cell in row-major order on a second line.

use vstd::prelude::*;
use crate::text::{decimal, first_line, parse_usize, second_line};

verus! {

/// The character that stands for a cell.
pub open spec fn cell_char(alive: bool) -> char {
    if alive {
        '1'
    } else {
        '0'
    }
}

/// The cells of a `w`-wide matrix of `h` rows, one character each, row by row.
pub open spec fn cells_text(g: Seq<Seq<bool>>, w: int, h: int) -> Seq<char> {
    Seq::new((w * h) as nat, |i: int| cell_char(g[i / w][i % w]))
}

/// The saved form of a `w` by `h` matrix.
pub open spec fn save_text(g: Seq<Seq<bool>>, w: int, h: int) -> Seq<char> {
    decimal(w as nat) + seq!['\n'] + cells_text(g, w, h) + seq!['\n']
}

/// The width that a saved text gives: its first line read as a positive
/// number, or `fallback` where it is missing, not a number, or zero.
pub open spec fn stored_width(t: Seq<char>, fallback: nat) -> nat {
    let p = parse_usize(first_line(t));
    if p is Some && p->0 > 0 {
        p->0
    } else {
        fallback
    }
}

/// The state of cell `(x, y)` after loading `t` into a matrix `g` that is
/// `w` wide: the character at `y * sw + x` of the second line, where `sw` is
/// the stored width, if `x < sw` and the line is that long; else unchanged.
pub open spec fn loaded_cell(g: Seq<Seq<bool>>, t: Seq<char>, w: nat, x: int, y: int) -> bool {
    let sw = stored_width(t, w);
    let d = second_line(t);
    if x < sw && y * sw + x < d.len() {
        d[y * sw + x] == '1'
    } else {
        g[y][x]
    }
}

} // verus!
