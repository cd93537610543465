use vstd::prelude::*;
use crate::frame::{Color, Pixel, Grid, MAX_DIM, grid_shaped};
use crate::render::{Op, RenderState, diff_cell, diff_row, diff_rows, diff_ops, full_cell, full_move, full_row, full_rows, full_ops, start_state, with_color};

verus! {

/// What a terminal holds in one cell: the color it was written in (`None`
/// for the default) and the character.
pub type TermCell = Option<(Option<Color>, char)>;

/// A model of an ANSI terminal: its cells, cursor (0-based) and color.
pub struct Term {
    pub cells: spec_fn(int, int) -> TermCell,
    pub col: int,
    pub row: int,
    pub color: Option<Color>,
}

/// The terminal after `n` blanks are written from the cursor on.
pub open spec fn blanked(t: Term, n: nat) -> spec_fn(int, int) -> TermCell {
    |x: int, y: int|
        if y == t.row && t.col <= x < t.col + n {
            Some((t.color, ' '))
        } else {
            (t.cells)(x, y)
        }
}

/// What one step does to the terminal.
pub open spec fn term_step(t: Term, op: Op) -> Term {
    match op {
        Op::Clear => Term { cells: |x: int, y: int| None::<(Option<Color>, char)>, col: t.col, row: t.row, color: t.color },
        Op::Jump { col, row } => Term { cells: t.cells, col: col - 1, row: row - 1, color: t.color },
        Op::Pad(n) => Term { cells: blanked(t, n), col: t.col + n, row: t.row, color: t.color },
        Op::Paint(c) => Term { cells: t.cells, col: t.col, row: t.row, color: Some(c) },
        Op::Glyph(g) => Term {
            cells: |x: int, y: int|
                if x == t.col && y == t.row {
                    Some((t.color, g))
                } else {
                    (t.cells)(x, y)
                },
            col: t.col + 1,
            row: t.row,
            color: t.color,
        },
        Op::Reset => Term { cells: t.cells, col: t.col, row: t.row, color: None },
    }
}

/// The terminal after a sequence of steps.
pub open spec fn run(t: Term, ops: Seq<Op>) -> Term
    decreases ops.len(),
{
    if ops.len() == 0 {
        t
    } else {
        term_step(run(t, ops.drop_last()), ops.last())
    }
}

proof fn lemma_run_push(t: Term, ops: Seq<Op>, op: Op)
    ensures
        run(t, ops.push(op)) == term_step(run(t, ops), op),
{
    assert(ops.push(op).drop_last() =~= ops);
}

/// Whether the terminal's cell `(x, y)` looks like the grid cell: the same
/// glyph in the same color, or blank (nothing, or a space) for an empty cell.
pub open spec fn shows(t: Term, x: int, y: int, cell: Option<Pixel>) -> bool {
    match cell {
        Some(p) => (t.cells)(x, y) == Some((Some(p.color), p.glyph)),
        None => (t.cells)(x, y) is None || (t.cells)(x, y)->Some_0.1 == ' ',
    }
}

/// The terminal shows every cell of a `w` by `h` grid.
pub open spec fn shows_grid(t: Term, g: Grid, w: nat, h: nat) -> bool {
    forall|x: int, y: int| 0 <= x < w && 0 <= y < h ==> #[trigger] shows(t, x, y, g[y][x])
}

/// Cell `(x, y)` comes before column `n` of row `r` in row-major order.
pub open spec fn before_pos(x: int, y: int, n: int, r: int) -> bool {
    y < r || (y == r && x < n)
}

/// The renderer's knowledge agrees with the terminal: the cursor and color
/// it believes in are the real ones.
pub open spec fn in_sync(st: RenderState, t: Term) -> bool {
    &&& (st.cursor matches Some((c, r)) ==> t.col == c && t.row == r)
    &&& (st.last is Some ==> t.color == st.last)
}

/// Midway through a diff frame at column `n` of row `r`: cells already
/// visited show `cur`, the others still show `prev`.
pub open spec fn diff_progress(t: Term, cur: Grid, prev: Grid, w: nat, h: nat, n: int, r: int) -> bool {
    forall|x: int, y: int|
        0 <= x < w && 0 <= y < h ==> if #[trigger] before_pos(x, y, n, r) {
            shows(t, x, y, cur[y][x])
        } else {
            shows(t, x, y, prev[y][x])
        }
}

proof fn lemma_diff_cell_shows(
    t0: Term,
    st: RenderState,
    cur: Grid,
    prev: Grid,
    w: nat,
    h: nat,
    x: usize,
    y: usize,
)
    requires
        grid_shaped(cur, w, h),
        grid_shaped(prev, w, h),
        x < w,
        y < h,
        w <= MAX_DIM,
        h <= MAX_DIM,
        in_sync(st, run(t0, st.ops)),
        diff_progress(run(t0, st.ops), cur, prev, w, h, x as int, y as int),
    ensures
        in_sync(
            diff_cell(st, x, y, cur[y as int][x as int], prev[y as int][x as int]),
            run(t0, diff_cell(st, x, y, cur[y as int][x as int], prev[y as int][x as int]).ops),
        ),
        diff_progress(
            run(t0, diff_cell(st, x, y, cur[y as int][x as int], prev[y as int][x as int]).ops),
            cur,
            prev,
            w,
            h,
            x + 1,
            y as int,
        ),
{
    let c = cur[y as int][x as int];
    let p = prev[y as int][x as int];
    let t = run(t0, st.ops);
    let st2 = diff_cell(st, x, y, c, p);
    let t2 = run(t0, st2.ops);
    if c == p {
        assert forall|a: int, b: int| 0 <= a < w && 0 <= b < h implies if #[trigger] before_pos(a, b, x + 1, y as int) {
            shows(t2, a, b, cur[b][a])
        } else {
            shows(t2, a, b, prev[b][a])
        } by {
            if before_pos(a, b, x as int, y as int) {
            }
        }
    } else {
        let jump = Op::Jump { col: (x + 1) as nat, row: (y + 1) as nat };
        let moved = if st.cursor == Some((x, y)) { st.ops } else { st.ops.push(jump) };
        lemma_run_push(t0, st.ops, jump);
        let tm = run(t0, moved);
        assert(tm.col == x && tm.row == y);
        assert(tm.cells == t.cells);
        assert(tm.color == t.color);
        match c {
            Some(px) => {
                let colored = with_color(moved, st.last, px.color);
                lemma_run_push(t0, moved, Op::Paint(px.color));
                let tc = run(t0, colored);
                assert(tc.color == Some(px.color));
                assert(tc.cells == t.cells && tc.col == x && tc.row == y);
                lemma_run_push(t0, colored, Op::Glyph(px.glyph));
                assert(t2 == term_step(tc, Op::Glyph(px.glyph)));
                assert forall|a: int, b: int| 0 <= a < w && 0 <= b < h implies if #[trigger] before_pos(a, b, x + 1, y as int) {
                    shows(t2, a, b, cur[b][a])
                } else {
                    shows(t2, a, b, prev[b][a])
                } by {
                    if before_pos(a, b, x as int, y as int) {
                    }
                    if a == x && b == y {
                    } else {
                        assert((t2.cells)(a, b) == (t.cells)(a, b));
                    }
                }
            },
            None => {
                lemma_run_push(t0, moved, Op::Pad(1));
                assert(t2 == term_step(tm, Op::Pad(1)));
                assert forall|a: int, b: int| 0 <= a < w && 0 <= b < h implies if #[trigger] before_pos(a, b, x + 1, y as int) {
                    shows(t2, a, b, cur[b][a])
                } else {
                    shows(t2, a, b, prev[b][a])
                } by {
                    if before_pos(a, b, x as int, y as int) {
                    }
                    if a == x && b == y {
                    } else {
                        assert((t2.cells)(a, b) == (t.cells)(a, b));
                    }
                }
            },
        }
    }
}

proof fn lemma_diff_row_shows(t0: Term, st: RenderState, cur: Grid, prev: Grid, w: nat, h: nat, y: usize, n: nat)
    requires
        grid_shaped(cur, w, h),
        grid_shaped(prev, w, h),
        y < h,
        n <= w,
        w <= MAX_DIM,
        h <= MAX_DIM,
        in_sync(st, run(t0, st.ops)),
        diff_progress(run(t0, st.ops), cur, prev, w, h, 0, y as int),
    ensures
        in_sync(
            diff_row(st, cur[y as int], prev[y as int], y, n),
            run(t0, diff_row(st, cur[y as int], prev[y as int], y, n).ops),
        ),
        diff_progress(
            run(t0, diff_row(st, cur[y as int], prev[y as int], y, n).ops),
            cur,
            prev,
            w,
            h,
            n as int,
            y as int,
        ),
    decreases n,
{
    if n > 0 {
        lemma_diff_row_shows(t0, st, cur, prev, w, h, y, (n - 1) as nat);
        let before = diff_row(st, cur[y as int], prev[y as int], y, (n - 1) as nat);
        lemma_diff_cell_shows(t0, before, cur, prev, w, h, (n - 1) as usize, y);
    }
}

proof fn lemma_diff_rows_shows(t0: Term, st: RenderState, cur: Grid, prev: Grid, w: nat, h: nat, m: nat)
    requires
        grid_shaped(cur, w, h),
        grid_shaped(prev, w, h),
        m <= h,
        w <= MAX_DIM,
        h <= MAX_DIM,
        in_sync(st, run(t0, st.ops)),
        diff_progress(run(t0, st.ops), cur, prev, w, h, 0, 0),
    ensures
        in_sync(diff_rows(st, cur, prev, m), run(t0, diff_rows(st, cur, prev, m).ops)),
        diff_progress(run(t0, diff_rows(st, cur, prev, m).ops), cur, prev, w, h, 0, m as int),
    decreases m,
{
    if m > 0 {
        lemma_diff_rows_shows(t0, st, cur, prev, w, h, (m - 1) as nat);
        let before = diff_rows(st, cur, prev, (m - 1) as nat);
        lemma_diff_row_shows(t0, before, cur, prev, w, h, (m - 1) as usize, w);
        let t = run(t0, diff_rows(st, cur, prev, m).ops);
        assert(cur[m - 1].len() == w);
        assert forall|x: int, y: int| 0 <= x < w && 0 <= y < h implies if #[trigger] before_pos(x, y, 0, m as int) {
            shows(t, x, y, cur[y][x])
        } else {
            shows(t, x, y, prev[y][x])
        } by {
            if before_pos(x, y, w as int, m - 1) {
            }
        }
    }
}

/// Diff frames draw the grid: on a terminal that shows the previous frame,
/// the steps of a diff frame leave it showing the current one, wherever the
/// cursor was and whatever color was set.
pub proof fn law_diff_renders(cur: Grid, prev: Grid, w: nat, h: nat, t0: Term)
    requires
        grid_shaped(cur, w, h),
        grid_shaped(prev, w, h),
        w <= MAX_DIM,
        h <= MAX_DIM,
        shows_grid(t0, prev, w, h),
    ensures
        shows_grid(run(t0, diff_ops(cur, prev)), cur, w, h),
{
    let st = start_state(Seq::empty());
    assert(run(t0, st.ops) == t0);
    assert forall|x: int, y: int| 0 <= x < w && 0 <= y < h implies if #[trigger] before_pos(x, y, 0, 0) {
        shows(t0, x, y, cur[y][x])
    } else {
        shows(t0, x, y, prev[y][x])
    } by {
        assert(shows(t0, x, y, prev[y][x]));
    }
    lemma_diff_rows_shows(t0, st, cur, prev, w, h, h);
    let fin = diff_rows(st, cur, prev, h);
    lemma_run_push(t0, fin.ops, Op::Reset);
    let t = run(t0, diff_ops(cur, prev));
    assert(cur.len() == h);
    assert forall|x: int, y: int| 0 <= x < w && 0 <= y < h implies #[trigger] shows(t, x, y, cur[y][x]) by {
        assert(before_pos(x, y, 0, h as int));
    }
}

/// Midway through a full-clear frame at column `n` of row `r`: cells
/// already visited show `g`, the others are still cleared; and the cells
/// between the cursor and column `n`, if the cursor is on this row, are
/// empty in `g`.
pub open spec fn full_progress(st: RenderState, t: Term, g: Grid, w: nat, h: nat, n: int, r: int) -> bool {
    &&& forall|x: int, y: int|
        0 <= x < w && 0 <= y < h ==> if #[trigger] before_pos(x, y, n, r) {
            shows(t, x, y, g[y][x])
        } else {
            (t.cells)(x, y) is None
        }
    &&& (st.cursor matches Some((c, rr)) ==> rr <= r && (rr == r ==> c <= n && forall|k: int|
        c <= k < n ==> #[trigger] g[r][k] is None))
}

proof fn lemma_full_cell_shows(t0: Term, st: RenderState, g: Grid, w: nat, h: nat, x: usize, y: usize)
    requires
        grid_shaped(g, w, h),
        x < w,
        y < h,
        w <= MAX_DIM,
        h <= MAX_DIM,
        in_sync(st, run(t0, st.ops)),
        full_progress(st, run(t0, st.ops), g, w, h, x as int, y as int),
    ensures
        in_sync(full_cell(st, x, y, g[y as int][x as int]), run(t0, full_cell(st, x, y, g[y as int][x as int]).ops)),
        full_progress(
            full_cell(st, x, y, g[y as int][x as int]),
            run(t0, full_cell(st, x, y, g[y as int][x as int]).ops),
            g,
            w,
            h,
            x + 1,
            y as int,
        ),
{
    let cell = g[y as int][x as int];
    let t = run(t0, st.ops);
    let st2 = full_cell(st, x, y, cell);
    let t2 = run(t0, st2.ops);
    match cell {
        None => {
            assert forall|a: int, b: int| 0 <= a < w && 0 <= b < h implies if #[trigger] before_pos(a, b, x + 1, y as int) {
                shows(t2, a, b, g[b][a])
            } else {
                (t2.cells)(a, b) is None
            } by {
                if before_pos(a, b, x as int, y as int) {
                }
            }
            if let Some((c, rr)) = st.cursor {
                if rr == y {
                    assert forall|k: int| c <= k < x + 1 implies #[trigger] g[y as int][k] is None by {
                        if k < x {
                            assert(g[rr as int][k] is None);
                        }
                    }
                }
            }
        },
        Some(p) => {
            let moved = full_move(st, x, y);
            let jump = Op::Jump { col: (x + 1) as nat, row: (y + 1) as nat };
            lemma_run_push(t0, st.ops, jump);
            let tm = run(t0, moved);
            // After positioning: cursor at (x, y), cells before it in this row
            // that were blanked are empty in g; the rest unchanged.
            match st.cursor {
                Some((c, rr)) => {
                    if c == x && rr == y {
                    } else if rr == y && c < x && x - c < 8 {
                        lemma_run_push(t0, st.ops, Op::Pad((x - c) as nat));
                        assert(tm == term_step(t, Op::Pad((x - c) as nat)));
                    } else {
                    }
                },
                None => {},
            }
            assert(tm.col == x && tm.row == y);
            assert(tm.color == t.color);
            assert forall|a: int, b: int| 0 <= a < w && 0 <= b < h implies if #[trigger] before_pos(a, b, x as int, y as int) {
                shows(tm, a, b, g[b][a])
            } else {
                (tm.cells)(a, b) is None
            } by {
                if before_pos(a, b, x as int, y as int) {
                }
                if let Some((c, rr)) = st.cursor {
                    if rr == y && c < x && x - c < 8 && !(c == x && rr == y) && b == y && c <= a < x {
                        assert(g[rr as int][a] is None);
                    }
                }
            }
            let colored = with_color(moved, st.last, p.color);
            lemma_run_push(t0, moved, Op::Paint(p.color));
            let tc = run(t0, colored);
            assert(tc.color == Some(p.color));
            assert(tc.cells == tm.cells && tc.col == x && tc.row == y);
            lemma_run_push(t0, colored, Op::Glyph(p.glyph));
            assert(t2 == term_step(tc, Op::Glyph(p.glyph)));
            assert forall|a: int, b: int| 0 <= a < w && 0 <= b < h implies if #[trigger] before_pos(a, b, x + 1, y as int) {
                shows(t2, a, b, g[b][a])
            } else {
                (t2.cells)(a, b) is None
            } by {
                if before_pos(a, b, x as int, y as int) {
                }
                if a == x && b == y {
                } else {
                    assert((t2.cells)(a, b) == (tm.cells)(a, b));
                }
            }
        },
    }
}

proof fn lemma_full_row_shows(t0: Term, st: RenderState, g: Grid, w: nat, h: nat, y: usize, n: nat)
    requires
        grid_shaped(g, w, h),
        y < h,
        n <= w,
        w <= MAX_DIM,
        h <= MAX_DIM,
        in_sync(st, run(t0, st.ops)),
        full_progress(st, run(t0, st.ops), g, w, h, 0, y as int),
    ensures
        in_sync(full_row(st, g[y as int], y, n), run(t0, full_row(st, g[y as int], y, n).ops)),
        full_progress(
            full_row(st, g[y as int], y, n),
            run(t0, full_row(st, g[y as int], y, n).ops),
            g,
            w,
            h,
            n as int,
            y as int,
        ),
    decreases n,
{
    if n > 0 {
        lemma_full_row_shows(t0, st, g, w, h, y, (n - 1) as nat);
        let before = full_row(st, g[y as int], y, (n - 1) as nat);
        lemma_full_cell_shows(t0, before, g, w, h, (n - 1) as usize, y);
    }
}

proof fn lemma_full_rows_shows(t0: Term, st: RenderState, g: Grid, w: nat, h: nat, m: nat)
    requires
        grid_shaped(g, w, h),
        m <= h,
        w <= MAX_DIM,
        h <= MAX_DIM,
        in_sync(st, run(t0, st.ops)),
        full_progress(st, run(t0, st.ops), g, w, h, 0, 0),
        st.cursor is None,
    ensures
        in_sync(full_rows(st, g, m), run(t0, full_rows(st, g, m).ops)),
        full_progress(full_rows(st, g, m), run(t0, full_rows(st, g, m).ops), g, w, h, 0, m as int),
    decreases m,
{
    if m > 0 {
        lemma_full_rows_shows(t0, st, g, w, h, (m - 1) as nat);
        let before = full_rows(st, g, (m - 1) as nat);
        lemma_full_row_shows(t0, before, g, w, h, (m - 1) as usize, w);
        let st2 = full_rows(st, g, m);
        let t = run(t0, st2.ops);
        assert(g[m - 1].len() == w);
        assert forall|x: int, y: int| 0 <= x < w && 0 <= y < h implies if #[trigger] before_pos(x, y, 0, m as int) {
            shows(t, x, y, g[y][x])
        } else {
            (t.cells)(x, y) is None
        } by {
            if before_pos(x, y, w as int, m - 1) {
            }
        }
    }
}

/// Full-clear frames draw the grid: whatever the terminal showed before,
/// and wherever its cursor was, the steps of a full-clear frame leave it
/// showing exactly the grid.
pub proof fn law_full_clear_renders(g: Grid, w: nat, h: nat, t0: Term)
    requires
        grid_shaped(g, w, h),
        w <= MAX_DIM,
        h <= MAX_DIM,
    ensures
        shows_grid(run(t0, full_ops(g)), g, w, h),
{
    let st = start_state(seq![Op::Clear]);
    lemma_run_push(t0, Seq::empty(), Op::Clear);
    assert(seq![Op::Clear] =~= Seq::<Op>::empty().push(Op::Clear));
    let t1 = run(t0, st.ops);
    assert forall|x: int, y: int| 0 <= x < w && 0 <= y < h implies if #[trigger] before_pos(x, y, 0, 0) {
        shows(t1, x, y, g[y][x])
    } else {
        (t1.cells)(x, y) is None
    } by {
    }
    lemma_full_rows_shows(t0, st, g, w, h, h);
    let fin = full_rows(st, g, h);
    lemma_run_push(t0, fin.ops, Op::Reset);
    let t = run(t0, full_ops(g));
    assert(g.len() == h);
    assert forall|x: int, y: int| 0 <= x < w && 0 <= y < h implies #[trigger] shows(t, x, y, g[y][x]) by {
        assert(before_pos(x, y, 0, h as int));
    }
}

} // verus!
