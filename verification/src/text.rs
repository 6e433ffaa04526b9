//! Plain-text rendering of a grid and the inverse parse.
//!
//! A frame is one line per row, one glyph per column — `'#'` for Alive,
//! `'.'` for Dead — each line terminated by a newline.

use vstd::prelude::*;
use vstd::arithmetic::div_mod::lemma_fundamental_div_mod;
use vstd::arithmetic::div_mod::lemma_fundamental_div_mod_converse_mod;
use vstd::string::StrSliceExecFns;

use crate::cell::CellState;
use crate::grid::Grid;

verus! {

/// The glyph rendered for a cell: '#' when Alive, '.' when Dead.
pub open spec fn glyph_of(c: CellState) -> char {
    match c {
        CellState::Alive => '#',
        CellState::Dead => '.',
    }
}

/// The index of column x of row y inside a frame of width w: each row takes
/// w glyphs plus one newline.
pub open spec fn frame_index(w: int, x: int, y: int) -> int {
    y * (w + 1) + x
}

/// `s` is the textual frame of `g`: `g.height` lines, each holding the
/// `g.width` glyphs of one row followed by a newline.
pub open spec fn renders_to(s: Seq<char>, g: Grid) -> bool {
    &&& g.wf()
    &&& s.len() == g.height * (g.width + 1)
    &&& forall|x: int, y: int|
        g.spec_in_bounds(x, y) ==> s[frame_index(g.width as int, x, y)] == glyph_of(
            #[trigger] g.cell(x, y),
        )
    &&& forall|y: int|
        0 <= y < g.height ==> s[#[trigger] frame_index(g.width as int, g.width as int, y)] == '\n'
}

/// A frame position of a row before `yrow` lies strictly below the start of
/// row `yrow`.
proof fn lemma_frame_index_before_row(w: int, x: int, y: int, yrow: int)
    requires
        w >= 1,
        0 <= x <= w,
        0 <= y < yrow,
    ensures
        0 <= frame_index(w, x, y) < yrow * (w + 1),
{
    assert(0 <= y * (w + 1) + x < yrow * (w + 1)) by (nonlinear_arith)
        requires
            w >= 1,
            0 <= x <= w,
            0 <= y < yrow,
    ;
}

/// The glyph of one cell as a one-character string: "#" for Alive, "." for
/// Dead.
pub fn symbol_for(cell: CellState) -> (r: String)
    ensures
        r@.len() == 1,
        r@[0] == glyph_of(cell),
{
    match cell {
        CellState::Alive => {
            let s = "#";
            proof {
                reveal_strlit("#");
            }
            s.to_owned()
        },
        CellState::Dead => {
            let s = ".";
            proof {
                reveal_strlit(".");
            }
            s.to_owned()
        },
    }
}

/// Renders the grid as text: one line per row, one glyph per column, each
/// row terminated by a newline. The grid is only read.
pub fn render(grid: &Grid) -> (r: String)
    requires
        grid.wf(),
    ensures
        renders_to(r@, *grid),
{
    let w = grid.width;
    let h = grid.height;
    let mut out = String::new();
    let mut y: usize = 0;
    while y < h
        invariant
            grid.wf(),
            w == grid.width,
            h == grid.height,
            y <= h,
            out@.len() == y * (w + 1),
            forall|xx: int, yy: int|
                grid.spec_in_bounds(xx, yy) && yy < y ==> out@[frame_index(w as int, xx, yy)]
                    == glyph_of(#[trigger] grid.cell(xx, yy)),
            forall|yy: int|
                0 <= yy < y ==> out@[#[trigger] frame_index(w as int, w as int, yy)] == '\n',
        decreases h - y,
    {
        let ghost row_start: int = out@.len() as int;
        let mut x: usize = 0;
        while x < w
            invariant
                grid.wf(),
                w == grid.width,
                h == grid.height,
                y < h,
                x <= w,
                row_start == (y as int) * (w as int + 1),
                out@.len() == row_start + x,
                forall|xx: int, yy: int|
                    grid.spec_in_bounds(xx, yy) && yy < y ==> out@[frame_index(w as int, xx, yy)]
                        == glyph_of(#[trigger] grid.cell(xx, yy)),
                forall|yy: int|
                    0 <= yy < y ==> out@[#[trigger] frame_index(w as int, w as int, yy)] == '\n',
                forall|xx: int|
                    0 <= xx < x ==> out@[frame_index(w as int, xx, y as int)] == glyph_of(
                        #[trigger] grid.cell(xx, y as int),
                    ),
            decreases w - x,
        {
            let sym = symbol_for(grid.at(x, y));
            out.append(sym.as_str());
            x += 1;
            proof {
                assert forall|xx: int, yy: int|
                    grid.spec_in_bounds(xx, yy) && yy < y implies out@[frame_index(
                    w as int,
                    xx,
                    yy,
                )] == glyph_of(#[trigger] grid.cell(xx, yy)) by {
                    lemma_frame_index_before_row(w as int, xx, yy, y as int);
                }
                assert forall|yy: int|
                    0 <= yy < y implies out@[#[trigger] frame_index(w as int, w as int, yy)]
                    == '\n' by {
                    lemma_frame_index_before_row(w as int, w as int, yy, y as int);
                }
            }
        }
        let nl = "\n";
        proof {
            reveal_strlit("\n");
        }
        out.append(nl);
        y += 1;
        proof {
            assert((y - 1) * (w as int + 1) + (w as int + 1) == (y as int) * (w as int + 1))
                by (nonlinear_arith);
            assert forall|xx: int, yy: int|
                grid.spec_in_bounds(xx, yy) && yy < y implies out@[frame_index(w as int, xx, yy)]
                == glyph_of(#[trigger] grid.cell(xx, yy)) by {
                if yy < y - 1 {
                    lemma_frame_index_before_row(w as int, xx, yy, y as int - 1);
                }
            }
            assert forall|yy: int|
                0 <= yy < y implies out@[#[trigger] frame_index(w as int, w as int, yy)]
                == '\n' by {
                if yy < y - 1 {
                    lemma_frame_index_before_row(w as int, w as int, yy, y as int - 1);
                }
            }
        }
    }
    out
}

/// A frame position of an in-range row lies inside the frame.
proof fn lemma_pos_in_frame(w: int, stride: int, h: int, n: int, x: int, y: int)
    requires
        stride == w + 1,
        w >= 1,
        h >= 1,
        n == stride * h,
        0 <= x <= w,
        0 <= y < h,
    ensures
        0 <= y * stride + x < n,
{
    assert(0 <= y * stride + x < stride * h) by (nonlinear_arith)
        requires
            stride == w + 1,
            w >= 1,
            0 <= x <= w,
            0 <= y < h,
    ;
}

/// The first newline of a frame sits at the end of row 0, so its index is
/// the width of any grid the frame renders.
proof fn lemma_width_determined(s: Seq<char>, g: Grid, w: int)
    requires
        renders_to(s, g),
        0 <= w < s.len(),
        s[w] == '\n',
        forall|j: int| 0 <= j < w ==> s[j] != '\n',
    ensures
        g.width == w,
{
    let gw = g.width as int;
    assert(gw < s.len()) by (nonlinear_arith)
        requires
            s.len() == (g.height as int) * (gw + 1),
            g.height >= 1,
            gw >= 1,
    ;
    if gw < w {
        assert(s[frame_index(gw, gw, 0)] == '\n');
        assert(frame_index(gw, gw, 0) == gw);
        assert(false);
    }
    if w < gw {
        assert(s[frame_index(gw, w, 0)] == glyph_of(g.cell(w, 0)));
        assert(frame_index(gw, w, 0) == w);
        assert(false);
    }
}

/// The index of the first newline in `text`, or None when there is none.
fn find_newline(text: &str) -> (r: Option<usize>)
    ensures
        match r {
            Some(i) => {
                &&& i < text@.len()
                &&& text@[i as int] == '\n'
                &&& forall|j: int| 0 <= j < i ==> text@[j] != '\n'
            },
            None => forall|j: int| 0 <= j < text@.len() ==> text@[j] != '\n',
        },
{
    let n = text.unicode_len();
    let mut w: usize = 0;
    while w < n
        invariant
            w <= n,
            n as nat == text@.len(),
            forall|j: int| 0 <= j < w ==> text@[j] != '\n',
        decreases n - w,
    {
        if text.get_char(w) == '\n' {
            return Some(w);
        }
        w += 1;
    }
    None
}

/// Parses a textual frame back into a grid. Returns `Some` exactly when
/// some grid renders to the text, and the parsed grid is then a grid the
/// text renders — by `lemma_render_injective` the only one, so parsing a
/// rendered frame reconstructs the rendered grid's cell-state matrix.
pub fn parse(text: &str) -> (r: Option<Grid>)
    ensures
        match r {
            Some(g) => renders_to(text@, g),
            None => !exists|g: Grid| renders_to(text@, g),
        },
{
    let n = text.unicode_len();
    let w = match find_newline(text) {
        Some(i) => i,
        None => {
            proof {
                if exists|g: Grid| renders_to(text@, g) {
                    let g = choose|g: Grid| renders_to(text@, g);
                    let gw = g.width as int;
                    assert(gw < text@.len()) by (nonlinear_arith)
                        requires
                            text@.len() == (g.height as int) * (gw + 1),
                            g.height >= 1,
                            gw >= 1,
                    ;
                    assert(text@[frame_index(gw, gw, 0)] == '\n');
                    assert(frame_index(gw, gw, 0) == gw);
                    assert(false);
                }
            }
            return None;
        },
    };
    if w == 0 {
        proof {
            if exists|g: Grid| renders_to(text@, g) {
                let g = choose|g: Grid| renders_to(text@, g);
                lemma_width_determined(text@, g, 0);
                assert(false);
            }
        }
        return None;
    }
    let stride = w + 1;
    if n % stride != 0 {
        proof {
            if exists|g: Grid| renders_to(text@, g) {
                let g = choose|g: Grid| renders_to(text@, g);
                lemma_width_determined(text@, g, w as int);
                lemma_fundamental_div_mod_converse_mod(
                    n as int,
                    stride as int,
                    g.height as int,
                    0,
                );
                assert(false);
            }
        }
        return None;
    }
    let h = n / stride;
    proof {
        lemma_fundamental_div_mod(n as int, stride as int);
        assert(h >= 1) by (nonlinear_arith)
            requires
                n as int == (stride as int) * (h as int),
                n >= stride,
                stride >= 2,
        ;
    }
    let mut grid = match Grid::new(w, h) {
        Ok(g) => g,
        Err(_) => {
            return None;
        },
    };
    let mut y: usize = 0;
    while y < h
        invariant
            n as nat == text@.len(),
            stride == w + 1,
            n as int == (stride as int) * (h as int),
            w >= 1,
            w < n,
            h >= 1,
            y <= h,
            grid.wf(),
            grid.width == w,
            grid.height == h,
            text@[w as int] == '\n',
            forall|j: int| 0 <= j < w ==> text@[j] != '\n',
            forall|xx: int, yy: int|
                grid.spec_in_bounds(xx, yy) && yy < y ==> text@[frame_index(w as int, xx, yy)]
                    == glyph_of(#[trigger] grid.cell(xx, yy)),
            forall|yy: int|
                0 <= yy < y ==> text@[#[trigger] frame_index(w as int, w as int, yy)] == '\n',
        decreases h - y,
    {
        let mut x: usize = 0;
        while x < w
            invariant
                n as nat == text@.len(),
                stride == w + 1,
                n as int == (stride as int) * (h as int),
                w >= 1,
                w < n,
                h >= 1,
                y < h,
                x <= w,
                grid.wf(),
                grid.width == w,
                grid.height == h,
                text@[w as int] == '\n',
                forall|j: int| 0 <= j < w ==> text@[j] != '\n',
                forall|xx: int, yy: int|
                    grid.spec_in_bounds(xx, yy) && (yy < y || (yy == y && xx < x)) ==> text@[
                        frame_index(w as int, xx, yy)
                    ] == glyph_of(#[trigger] grid.cell(xx, yy)),
                forall|yy: int|
                    0 <= yy < y ==> text@[#[trigger] frame_index(w as int, w as int, yy)] == '\n',
            decreases w - x,
        {
            proof {
                lemma_pos_in_frame(
                    w as int,
                    stride as int,
                    h as int,
                    n as int,
                    x as int,
                    y as int,
                );
            }
            let idx = y * stride + x;
            let ch = text.get_char(idx);
            let cell = if ch == '#' {
                CellState::Alive
            } else if ch == '.' {
                CellState::Dead
            } else {
                proof {
                    if exists|g: Grid| renders_to(text@, g) {
                        let g = choose|g: Grid| renders_to(text@, g);
                        lemma_width_determined(text@, g, w as int);
                        assert(g.height == h) by (nonlinear_arith)
                            requires
                                (g.height as int) * (w as int + 1) == n as int,
                                n as int == (stride as int) * (h as int),
                                stride == w + 1,
                                w >= 1,
                        ;
                        assert(text@[frame_index(w as int, x as int, y as int)] == glyph_of(
                            g.cell(x as int, y as int),
                        ));
                        assert(false);
                    }
                }
                return None;
            };
            grid.set(x, y, cell);
            x += 1;
        }
        proof {
            lemma_pos_in_frame(w as int, stride as int, h as int, n as int, w as int, y as int);
        }
        let nl_idx = y * stride + w;
        if text.get_char(nl_idx) != '\n' {
            proof {
                if exists|g: Grid| renders_to(text@, g) {
                    let g = choose|g: Grid| renders_to(text@, g);
                    lemma_width_determined(text@, g, w as int);
                    assert(g.height == h) by (nonlinear_arith)
                        requires
                            (g.height as int) * (w as int + 1) == n as int,
                            n as int == (stride as int) * (h as int),
                            stride == w + 1,
                            w >= 1,
                    ;
                    assert(text@[frame_index(w as int, w as int, y as int)] == '\n');
                    assert(false);
                }
            }
            return None;
        }
        y += 1;
    }
    proof {
        assert((h as int) * (w as int + 1) == (stride as int) * (h as int)) by (nonlinear_arith)
            requires
                stride == w + 1,
        ;
    }
    Some(grid)
}

/// Rendering determines the grid: two grids with the same textual frame have
/// the same dimensions and identical cell states. Together with the
/// contracts of `render` and `parse`, this says that parsing a rendered
/// frame reconstructs the rendered grid's cell-state matrix exactly.
pub proof fn lemma_render_injective(s: Seq<char>, g1: Grid, g2: Grid)
    requires
        renders_to(s, g1),
        renders_to(s, g2),
    ensures
        g1.width == g2.width,
        g1.height == g2.height,
        forall|x: int, y: int|
            g1.spec_in_bounds(x, y) ==> #[trigger] g1.cell(x, y) == g2.cell(x, y),
{
    let w1 = g1.width as int;
    let w2 = g2.width as int;
    if w1 < w2 {
        assert(s[frame_index(w1, w1, 0)] == '\n');
        assert(s[frame_index(w2, w1, 0)] == glyph_of(g2.cell(w1, 0)));
        assert(frame_index(w1, w1, 0) == frame_index(w2, w1, 0));
        assert(false);
    }
    if w2 < w1 {
        assert(s[frame_index(w2, w2, 0)] == '\n');
        assert(s[frame_index(w1, w2, 0)] == glyph_of(g1.cell(w2, 0)));
        assert(frame_index(w2, w2, 0) == frame_index(w1, w2, 0));
        assert(false);
    }
    assert(g1.height == g2.height) by (nonlinear_arith)
        requires
            (g1.height as int) * (w1 + 1) == (g2.height as int) * (w2 + 1),
            w1 == w2,
            w1 >= 1,
    ;
    assert forall|x: int, y: int|
        g1.spec_in_bounds(x, y) implies #[trigger] g1.cell(x, y) == g2.cell(x, y) by {
        assert(s[frame_index(w1, x, y)] == glyph_of(g1.cell(x, y)));
        assert(s[frame_index(w2, x, y)] == glyph_of(g2.cell(x, y)));
    }
}

} // verus!
