//! The text frame that a terminal shows of a grid: a box drawn with
//! line characters, a full block for each alive cell and a space for each
//! dead one.

use vstd::prelude::*;
use crate::grid::Grid;

verus! {

/// A horizontal edge of the box, `w` cells wide, between corners `l` and `r`.
pub open spec fn border_line(l: char, r: char, w: nat) -> Seq<char> {
    seq![l] + Seq::new(w, |i: int| '═') + seq![r, '\n']
}

/// The character shown for a cell.
pub open spec fn glyph(alive: bool) -> char {
    if alive {
        '█'
    } else {
        ' '
    }
}

/// One row of cells between the box's sides.
pub open spec fn row_line(row: Seq<bool>) -> Seq<char> {
    seq!['║'] + row.map_values(|b: bool| glyph(b)) + seq!['║', '\n']
}

/// The rows of `g`, one line each, top first.
pub open spec fn rows_text(g: Seq<Seq<bool>>) -> Seq<char>
    decreases g.len(),
{
    if g.len() == 0 {
        Seq::empty()
    } else {
        rows_text(g.drop_last()) + row_line(g.last())
    }
}

/// The whole frame of a `w`-wide matrix `g`.
pub open spec fn frame_text(g: Seq<Seq<bool>>, w: nat) -> Seq<char> {
    border_line('╔', '╗', w) + rows_text(g) + border_line('╚', '╝', w)
}

fn append_border(s: &mut String, l: &str, r: &str, w: usize)
    requires
        l@.len() == 1,
        r@.len() == 1,
    ensures
        final(s)@ == old(s)@ + border_line(l@[0], r@[0], w as nat),
{
    proof {
        reveal_strlit("═");
        reveal_strlit("\n");
    }
    s.append(l);
    for i in 0..w
        invariant
            "═"@ == seq!['═'],
            s@ == old(s)@ + l@ + Seq::new(i as nat, |k: int| '═'),
    {
        s.append("═");
        assert(s@ =~= old(s)@ + l@ + Seq::new((i + 1) as nat, |k: int| '═'));
    }
    s.append(r);
    s.append("\n");
    assert(s@ =~= old(s)@ + border_line(l@[0], r@[0], w as nat));
}

impl Grid {
    /// The frame that a terminal shows of the grid, one line per row inside
    /// a box, each line ended by `'\n'`.
    pub fn render_text(&self) -> (r: String)
        requires
            self.wf(),
        ensures
            r@ == frame_text(self@, self.spec_width()),
    {
        let w = self.width();
        let h = self.height();
        proof {
            reveal_strlit("╔");
            reveal_strlit("╗");
            reveal_strlit("╚");
            reveal_strlit("╝");
        }
        let mut s = String::new();
        append_border(&mut s, "╔", "╗", w);
        let ghost top = border_line('╔', '╗', w as nat);
        for y in 0..h
            invariant
                self.wf(),
                w == self.spec_width(),
                h == self.spec_height(),
                top == border_line('╔', '╗', w as nat),
                s@ == top + rows_text(self@.subrange(0, y as int)),
        {
            proof {
                reveal_strlit("║");
                reveal_strlit("█");
                reveal_strlit(" ");
                reveal_strlit("\n");
            }
            let ghost before = s@;
            let ghost row = self@[y as int];
            s.append("║");
            for x in 0..w
                invariant
                    self.wf(),
                    w == self.spec_width(),
                    h == self.spec_height(),
                    0 <= y < h,
                    row == self@[y as int],
                    "█"@ == seq!['█'],
                    " "@ == seq![' '],
                    s@ == before + seq!['║'] + row.subrange(0, x as int).map_values(|b: bool| glyph(b)),
            {
                let alive = self.get_cell(x, y);
                s.append(if alive { "█" } else { " " });
                assert(row.subrange(0, x + 1).map_values(|b: bool| glyph(b)) =~= row.subrange(0, x as int).map_values(|b: bool| glyph(b)).push(glyph(alive)));
                assert(s@ =~= before + seq!['║'] + row.subrange(0, x + 1).map_values(|b: bool| glyph(b)));
            }
            s.append("║");
            s.append("\n");
            proof {
                assert(row.subrange(0, w as int) =~= row);
                assert(s@ =~= before + row_line(row));
                let p = self@.subrange(0, y + 1);
                assert(p.drop_last() =~= self@.subrange(0, y as int));
                assert(p.last() == row);
                assert(s@ =~= top + rows_text(p));
            }
        }
        append_border(&mut s, "╚", "╝", w);
        assert(self@.subrange(0, h as int) =~= self@);
        assert(s@ =~= frame_text(self@, w as nat));
        s
    }
}

} // verus!
