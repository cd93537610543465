use vstd::prelude::*;
use crate::frame::{Color, Pixel, Grid, FrameBuffer, MAX_DIM, grid_shaped, blank_grid};
use crate::text::{dec, lemma_dec_len, push_char, push_dec};

verus! {

/// One step of terminal output.
pub enum Op {
    /// Clear the whole screen.
    Clear,
    /// Move the cursor to a 1-based column and row.
    Jump { col: nat, row: nat },
    /// Write this many spaces.
    Pad(nat),
    /// Set the foreground color.
    Paint(Color),
    /// Write one glyph.
    Glyph(char),
    /// Reset all attributes.
    Reset,
}

/// `ESC [ row ; col H`: move the cursor.
pub open spec fn jump_text(col: nat, row: nat) -> Seq<char> {
    seq!['\x1b', '['] + dec(row) + seq![';'] + dec(col) + seq!['H']
}

/// `ESC [ 38 ; 2 ; r ; g ; b m`: set a 24-bit foreground color.
pub open spec fn paint_text(c: Color) -> Seq<char> {
    seq!['\x1b', '[', '3', '8', ';', '2', ';'] + dec(c.r as nat) + seq![';'] + dec(c.g as nat)
        + seq![';'] + dec(c.b as nat) + seq!['m']
}

/// The characters that one step writes.
pub open spec fn op_text(op: Op) -> Seq<char> {
    match op {
        Op::Clear => seq!['\x1b', '[', '2', 'J'],
        Op::Jump { col, row } => jump_text(col, row),
        Op::Pad(n) => Seq::new(n, |i: int| ' '),
        Op::Paint(c) => paint_text(c),
        Op::Glyph(g) => seq![g],
        Op::Reset => seq!['\x1b', '[', '0', 'm'],
    }
}

/// The characters that a sequence of steps writes.
pub open spec fn text_of(ops: Seq<Op>) -> Seq<char>
    decreases ops.len(),
{
    if ops.len() == 0 {
        Seq::empty()
    } else {
        text_of(ops.drop_last()) + op_text(ops.last())
    }
}

/// How many glyphs a sequence of steps writes.
pub open spec fn glyph_count(ops: Seq<Op>) -> nat
    decreases ops.len(),
{
    if ops.len() == 0 {
        0
    } else {
        glyph_count(ops.drop_last()) + if ops.last() is Glyph { 1nat } else { 0nat }
    }
}

/// How many color changes a sequence of steps holds.
pub open spec fn paint_count(ops: Seq<Op>) -> nat
    decreases ops.len(),
{
    if ops.len() == 0 {
        0
    } else {
        paint_count(ops.drop_last()) + if ops.last() is Paint { 1nat } else { 0nat }
    }
}

pub proof fn lemma_push_op(ops: Seq<Op>, op: Op)
    ensures
        text_of(ops.push(op)) == text_of(ops) + op_text(op),
        glyph_count(ops.push(op)) == glyph_count(ops) + if op is Glyph { 1nat } else { 0nat },
        paint_count(ops.push(op)) == paint_count(ops) + if op is Paint { 1nat } else { 0nat },
{
    assert(ops.push(op).drop_last() =~= ops);
}

/// What the renderer knows while it writes a frame: where the terminal
/// cursor is (if known), the color last set, and the steps so far.
pub struct RenderState {
    pub cursor: Option<(usize, usize)>,
    pub last: Option<Color>,
    pub ops: Seq<Op>,
}

/// The state at the start of a frame: cursor and color unknown.
pub open spec fn start_state(ops: Seq<Op>) -> RenderState {
    RenderState { cursor: None, last: None, ops }
}

/// Sets the color unless it is already the last one set.
pub open spec fn with_color(ops: Seq<Op>, last: Option<Color>, c: Color) -> Seq<Op> {
    if last == Some(c) {
        ops
    } else {
        ops.push(Op::Paint(c))
    }
}

// ---- full-clear strategy ----

/// Full-clear positioning: nothing when the cursor is already there, spaces
/// for a gap of under 8 columns on the same row, a jump otherwise.
pub open spec fn full_move(st: RenderState, x: usize, y: usize) -> Seq<Op> {
    match st.cursor {
        Some((c, r)) => if c == x && r == y {
            st.ops
        } else if r == y && c < x && x - c < 8 {
            st.ops.push(Op::Pad((x - c) as nat))
        } else {
            st.ops.push(Op::Jump { col: (x + 1) as nat, row: (y + 1) as nat })
        },
        None => st.ops.push(Op::Jump { col: (x + 1) as nat, row: (y + 1) as nat }),
    }
}

/// Full-clear handling of the cell at column `x`, row `y`: empty cells are
/// skipped, painted ones positioned, colored if needed, and written.
pub open spec fn full_cell(st: RenderState, x: usize, y: usize, cell: Option<Pixel>) -> RenderState {
    match cell {
        None => st,
        Some(p) => RenderState {
            cursor: Some(((x + 1) as usize, y)),
            last: Some(p.color),
            ops: with_color(full_move(st, x, y), st.last, p.color).push(Op::Glyph(p.glyph)),
        },
    }
}

/// Full-clear handling of the first `n` cells of row `y`.
pub open spec fn full_row(st: RenderState, row: Seq<Option<Pixel>>, y: usize, n: nat) -> RenderState
    decreases n,
{
    if n == 0 {
        st
    } else {
        full_cell(full_row(st, row, y, (n - 1) as nat), (n - 1) as usize, y, row[n - 1])
    }
}

/// Full-clear handling of the first `m` rows.
pub open spec fn full_rows(st: RenderState, g: Grid, m: nat) -> RenderState
    decreases m,
{
    if m == 0 {
        st
    } else {
        let prev = full_rows(st, g, (m - 1) as nat);
        full_row(prev, g[m - 1], (m - 1) as usize, g[m - 1].len())
    }
}

/// The steps of a full-clear frame: clear, every painted cell, reset.
pub open spec fn full_ops(g: Grid) -> Seq<Op> {
    full_rows(start_state(seq![Op::Clear]), g, g.len()).ops.push(Op::Reset)
}

// ---- diff strategy ----

/// Diff handling of one cell whose content was `prev` and is now `cur`:
/// nothing when equal; otherwise position (unless already there), then the
/// glyph with its color, or a space where the cell became empty.
pub open spec fn diff_cell(
    st: RenderState,
    x: usize,
    y: usize,
    cur: Option<Pixel>,
    prev: Option<Pixel>,
) -> RenderState {
    if cur == prev {
        st
    } else {
        let moved = if st.cursor == Some((x, y)) {
            st.ops
        } else {
            st.ops.push(Op::Jump { col: (x + 1) as nat, row: (y + 1) as nat })
        };
        match cur {
            Some(p) => RenderState {
                cursor: Some(((x + 1) as usize, y)),
                last: Some(p.color),
                ops: with_color(moved, st.last, p.color).push(Op::Glyph(p.glyph)),
            },
            None => RenderState {
                cursor: Some(((x + 1) as usize, y)),
                last: st.last,
                ops: moved.push(Op::Pad(1)),
            },
        }
    }
}

/// Diff handling of the first `n` cells of row `y`.
pub open spec fn diff_row(
    st: RenderState,
    cur: Seq<Option<Pixel>>,
    prev: Seq<Option<Pixel>>,
    y: usize,
    n: nat,
) -> RenderState
    decreases n,
{
    if n == 0 {
        st
    } else {
        diff_cell(diff_row(st, cur, prev, y, (n - 1) as nat), (n - 1) as usize, y, cur[n - 1], prev[n - 1])
    }
}

/// Diff handling of the first `m` rows.
pub open spec fn diff_rows(st: RenderState, cur: Grid, prev: Grid, m: nat) -> RenderState
    decreases m,
{
    if m == 0 {
        st
    } else {
        let before = diff_rows(st, cur, prev, (m - 1) as nat);
        diff_row(before, cur[m - 1], prev[m - 1], (m - 1) as usize, cur[m - 1].len())
    }
}

/// The steps of a diff frame: every changed cell, then reset.
pub open spec fn diff_ops(cur: Grid, prev: Grid) -> Seq<Op> {
    diff_rows(start_state(Seq::empty()), cur, prev, cur.len()).ops.push(Op::Reset)
}

// ---- writing steps ----

/// Relies on termion's `cursor::Goto`: its `Display` writes `ESC [ row ; col H`
/// with both coordinates in decimal, and it asserts against `Goto(0, 0)`.
#[verifier::external_body]
fn goto_text(col: u16, row: u16) -> (r: String)
    requires
        !(col == 0 && row == 0),
    ensures
        r@ == jump_text(col as nat, row as nat),
{
    termion::cursor::Goto(col, row).to_string()
}

fn emit_clear(out: &mut String)
    ensures
        final(out)@ == old(out)@ + op_text(Op::Clear),
{
    push_char(out, '\x1b');
    push_char(out, '[');
    push_char(out, '2');
    push_char(out, 'J');
    assert(out@ =~= old(out)@ + op_text(Op::Clear));
}

fn emit_reset(out: &mut String)
    ensures
        final(out)@ == old(out)@ + op_text(Op::Reset),
{
    push_char(out, '\x1b');
    push_char(out, '[');
    push_char(out, '0');
    push_char(out, 'm');
    assert(out@ =~= old(out)@ + op_text(Op::Reset));
}

fn emit_jump(out: &mut String, x: usize, y: usize)
    requires
        x < MAX_DIM,
        y < MAX_DIM,
    ensures
        final(out)@ == old(out)@ + op_text(Op::Jump { col: (x + 1) as nat, row: (y + 1) as nat }),
{
    let t = goto_text((x + 1) as u16, (y + 1) as u16);
    out.append(t.as_str());
}

fn emit_pad(out: &mut String, n: usize)
    ensures
        final(out)@ == old(out)@ + op_text(Op::Pad(n as nat)),
{
    let mut i: usize = 0;
    while i < n
        invariant
            i <= n,
            out@ == old(out)@ + Seq::new(i as nat, |k: int| ' '),
        decreases n - i,
    {
        push_char(out, ' ');
        i = i + 1;
        assert(out@ =~= old(out)@ + Seq::new(i as nat, |k: int| ' '));
    }
}

fn emit_paint(out: &mut String, c: Color)
    ensures
        final(out)@ == old(out)@ + op_text(Op::Paint(c)),
{
    push_char(out, '\x1b');
    push_char(out, '[');
    push_char(out, '3');
    push_char(out, '8');
    push_char(out, ';');
    push_char(out, '2');
    push_char(out, ';');
    push_dec(out, c.r as u32);
    push_char(out, ';');
    push_dec(out, c.g as u32);
    push_char(out, ';');
    push_dec(out, c.b as u32);
    push_char(out, 'm');
    assert(out@ =~= old(out)@ + op_text(Op::Paint(c)));
}

fn emit_glyph(out: &mut String, g: char)
    ensures
        final(out)@ == old(out)@ + op_text(Op::Glyph(g)),
{
    push_char(out, g);
    assert(out@ =~= old(out)@ + op_text(Op::Glyph(g)));
}

/// Sets the color `c` unless `last` already is it.
fn emit_color(out: &mut String, last: Option<Color>, c: Color, Ghost(ops): Ghost<Seq<Op>>)
    requires
        old(out)@ == text_of(ops),
    ensures
        final(out)@ == text_of(with_color(ops, last, c)),
{
    let same = match last {
        Some(l) => l == c,
        None => false,
    };
    if !same {
        emit_paint(out, c);
        proof {
            lemma_push_op(ops, Op::Paint(c));
        }
    }
}

/// Renders a frame with the full-clear strategy: clear the screen, write
/// every painted cell, reset the color. Each written cell is emptied, so the
/// buffer is blank afterwards and ready for the next frame.
pub fn render_full(buf: &mut FrameBuffer) -> (out: String)
    requires
        old(buf).wf(),
    ensures
        out@ == text_of(full_ops(old(buf)@)),
        final(buf).wf(),
        final(buf).spec_width() == old(buf).spec_width(),
        final(buf).spec_height() == old(buf).spec_height(),
        final(buf)@ == blank_grid(old(buf).spec_width(), old(buf).spec_height()),
{
    let ghost g = buf@;
    let w = buf.width();
    let h = buf.height();
    let mut out = String::new();
    emit_clear(&mut out);
    let ghost start = start_state(seq![Op::Clear]);
    let ghost mut st = start;
    proof {
        lemma_push_op(Seq::empty(), Op::Clear);
        assert(seq![Op::Clear] =~= Seq::<Op>::empty().push(Op::Clear));
        assert(text_of(Seq::<Op>::empty()) =~= Seq::<char>::empty());
        assert(out@ =~= text_of(st.ops));
    }
    let mut cursor: Option<(usize, usize)> = None;
    let mut last: Option<Color> = None;
    let mut y: usize = 0;
    while y < h
        invariant
            buf.wf(),
            buf.spec_width() == w,
            buf.spec_height() == h,
            grid_shaped(g, w as nat, h as nat),
            y <= h,
            st == full_rows(start, g, y as nat),
            st.cursor == cursor,
            st.last == last,
            out@ == text_of(st.ops),
            forall|j: int| 0 <= j < y ==> #[trigger] buf@[j] == Seq::new(w as nat, |i: int| None::<Pixel>),
            forall|j: int| y <= j < h ==> #[trigger] buf@[j] == g[j],
        decreases h - y,
    {
        let ghost row_start = st;
        let mut x: usize = 0;
        while x < w
            invariant
                buf.wf(),
                buf.spec_width() == w,
                buf.spec_height() == h,
                grid_shaped(g, w as nat, h as nat),
                y < h,
                x <= w,
                row_start == full_rows(start, g, y as nat),
                st == full_row(row_start, g[y as int], y, x as nat),
                st.cursor == cursor,
                st.last == last,
                out@ == text_of(st.ops),
                forall|j: int| 0 <= j < y ==> #[trigger] buf@[j] == Seq::new(w as nat, |i: int| None::<Pixel>),
                forall|j: int| y < j < h ==> #[trigger] buf@[j] == g[j],
                forall|i: int| 0 <= i < x ==> #[trigger] buf@[y as int][i] == None::<Pixel>,
                forall|i: int| x <= i < w ==> #[trigger] buf@[y as int][i] == g[y as int][i],
            decreases w - x,
        {
            let cell = buf.get(x, y);
            match cell {
                None => {},
                Some(p) => {
                    let ghost ops0 = st.ops;
                    let ghost moved = full_move(st, x, y);
                    match cursor {
                        Some((c, r)) => {
                            if c == x && r == y {
                            } else if r == y && c < x && x - c < 8 {
                                emit_pad(&mut out, x - c);
                                proof {
                                    lemma_push_op(ops0, Op::Pad((x - c) as nat));
                                }
                            } else {
                                emit_jump(&mut out, x, y);
                                proof {
                                    lemma_push_op(ops0, Op::Jump { col: (x + 1) as nat, row: (y + 1) as nat });
                                }
                            }
                        },
                        None => {
                            emit_jump(&mut out, x, y);
                            proof {
                                lemma_push_op(ops0, Op::Jump { col: (x + 1) as nat, row: (y + 1) as nat });
                            }
                        },
                    }
                    assert(out@ == text_of(moved));
                    emit_color(&mut out, last, p.color, Ghost(moved));
                    emit_glyph(&mut out, p.glyph);
                    proof {
                        lemma_push_op(with_color(moved, last, p.color), Op::Glyph(p.glyph));
                    }
                    buf.set(x, y, None);
                    cursor = Some((x + 1, y));
                    last = Some(p.color);
                },
            }
            proof {
                st = full_cell(st, x, y, cell);
            }
            x = x + 1;
        }
        proof {
            assert(buf@[y as int] =~= Seq::new(w as nat, |i: int| None::<Pixel>));
        }
        y = y + 1;
    }
    emit_reset(&mut out);
    proof {
        lemma_push_op(st.ops, Op::Reset);
        assert(buf@ =~= blank_grid(w as nat, h as nat));
    }
    out
}

/// Renders a frame with the diff strategy: only the cells of `cur` that
/// differ from `prev` are written. Afterwards `prev` holds the frame just
/// written and `cur` is blank, ready for the next frame.
pub fn render_diff(cur: &mut FrameBuffer, prev: &mut FrameBuffer) -> (out: String)
    requires
        old(cur).wf(),
        old(prev).wf(),
        old(cur).spec_width() == old(prev).spec_width(),
        old(cur).spec_height() == old(prev).spec_height(),
    ensures
        out@ == text_of(diff_ops(old(cur)@, old(prev)@)),
        final(prev).wf(),
        final(prev)@ == old(cur)@,
        final(prev).spec_width() == old(cur).spec_width(),
        final(prev).spec_height() == old(cur).spec_height(),
        final(cur).wf(),
        final(cur).spec_width() == old(cur).spec_width(),
        final(cur).spec_height() == old(cur).spec_height(),
        final(cur)@ == blank_grid(old(cur).spec_width(), old(cur).spec_height()),
{
    let ghost g = cur@;
    let ghost q = prev@;
    let w = cur.width();
    let h = cur.height();
    let mut out = String::new();
    let ghost start = start_state(Seq::empty());
    let ghost mut st = start;
    proof {
        assert(out@ =~= text_of(st.ops));
    }
    let mut cursor: Option<(usize, usize)> = None;
    let mut last: Option<Color> = None;
    let mut y: usize = 0;
    while y < h
        invariant
            cur@ == g,
            prev@ == q,
            cur.wf(),
            prev.wf(),
            cur.spec_width() == w,
            cur.spec_height() == h,
            prev.spec_width() == w,
            prev.spec_height() == h,
            y <= h,
            st == diff_rows(start, g, q, y as nat),
            st.cursor == cursor,
            st.last == last,
            out@ == text_of(st.ops),
        decreases h - y,
    {
        let ghost row_start = st;
        let mut x: usize = 0;
        while x < w
            invariant
                cur@ == g,
                prev@ == q,
                cur.wf(),
                prev.wf(),
                cur.spec_width() == w,
                cur.spec_height() == h,
                prev.spec_width() == w,
                prev.spec_height() == h,
                y < h,
                x <= w,
                row_start == diff_rows(start, g, q, y as nat),
                st == diff_row(row_start, g[y as int], q[y as int], y, x as nat),
                st.cursor == cursor,
                st.last == last,
                out@ == text_of(st.ops),
            decreases w - x,
        {
            let now = cur.get(x, y);
            let before = prev.get(x, y);
            let changed = match (now, before) {
                (Some(a), Some(b)) => a != b,
                (None, None) => false,
                _ => true,
            };
            if changed {
                let ghost ops0 = st.ops;
                let ghost moved = if st.cursor == Some((x, y)) {
                    ops0
                } else {
                    ops0.push(Op::Jump { col: (x + 1) as nat, row: (y + 1) as nat })
                };
                let at = match cursor {
                    Some((c, r)) => c == x && r == y,
                    None => false,
                };
                if !at {
                    emit_jump(&mut out, x, y);
                    proof {
                        lemma_push_op(ops0, Op::Jump { col: (x + 1) as nat, row: (y + 1) as nat });
                    }
                }
                assert(out@ == text_of(moved));
                match now {
                    Some(p) => {
                        emit_color(&mut out, last, p.color, Ghost(moved));
                        emit_glyph(&mut out, p.glyph);
                        proof {
                            lemma_push_op(with_color(moved, last, p.color), Op::Glyph(p.glyph));
                        }
                        last = Some(p.color);
                    },
                    None => {
                        emit_pad(&mut out, 1);
                        proof {
                            lemma_push_op(moved, Op::Pad(1));
                        }
                    },
                }
                cursor = Some((x + 1, y));
            }
            proof {
                st = diff_cell(st, x, y, now, before);
            }
            x = x + 1;
        }
        y = y + 1;
    }
    emit_reset(&mut out);
    proof {
        lemma_push_op(st.ops, Op::Reset);
    }
    std::mem::swap(cur, prev);
    cur.clear();
    out
}

// ---- laws ----

/// A diff pass over two equal grids leaves the state as it was.
proof fn lemma_diff_rows_same(st: RenderState, g: Grid, m: nat)
    requires
        m <= g.len(),
    ensures
        diff_rows(st, g, g, m) == st,
    decreases m,
{
    if m > 0 {
        lemma_diff_rows_same(st, g, (m - 1) as nat);
        lemma_diff_row_same(st, g[m - 1], (m - 1) as usize, g[m - 1].len());
    }
}

proof fn lemma_diff_row_same(st: RenderState, row: Seq<Option<Pixel>>, y: usize, n: nat)
    requires
        n <= row.len(),
    ensures
        diff_row(st, row, row, y, n) == st,
    decreases n,
{
    if n > 0 {
        lemma_diff_row_same(st, row, y, (n - 1) as nat);
    }
}

/// Rendering the same frame twice in diff mode writes nothing the second
/// time but the closing reset: no glyph and no color change. (After
/// `render_diff`, the previous buffer is the frame just written, so the
/// second call compares a frame with itself.)
pub proof fn law_diff_idempotent(g: Grid)
    ensures
        diff_ops(g, g) == seq![Op::Reset],
        glyph_count(diff_ops(g, g)) == 0,
        paint_count(diff_ops(g, g)) == 0,
{
    lemma_diff_rows_same(start_state(Seq::empty()), g, g.len());
    lemma_push_op(Seq::empty(), Op::Reset);
    assert(Seq::<Op>::empty().push(Op::Reset) =~= seq![Op::Reset]);
}

/// Number of painted cells among the first `n` of a row.
pub open spec fn painted_in_row(row: Seq<Option<Pixel>>, n: nat) -> nat
    decreases n,
{
    if n == 0 {
        0
    } else {
        painted_in_row(row, (n - 1) as nat) + if row[n - 1] is Some { 1nat } else { 0nat }
    }
}

/// Number of painted cells in the first `m` rows.
pub open spec fn painted_in_rows(g: Grid, m: nat) -> nat
    decreases m,
{
    if m == 0 {
        0
    } else {
        painted_in_rows(g, (m - 1) as nat) + painted_in_row(g[m - 1], g[m - 1].len())
    }
}

/// Number of painted cells of a grid.
pub open spec fn painted_count(g: Grid) -> nat {
    painted_in_rows(g, g.len())
}

proof fn lemma_op_text_len(op: Op)
    ensures
        op matches Op::Jump { col, row } && col <= MAX_DIM && row <= MAX_DIM ==> op_text(op).len() <= 14,
        op matches Op::Pad(n) ==> op_text(op).len() == n,
        op is Paint ==> op_text(op).len() <= 19,
        op is Glyph ==> op_text(op).len() == 1,
        op is Clear ==> op_text(op).len() == 4,
        op is Reset ==> op_text(op).len() == 4,
{
    match op {
        Op::Jump { col, row } => {
            lemma_dec_len(col);
            lemma_dec_len(row);
        },
        Op::Paint(c) => {
            lemma_dec_len(c.r as nat);
            lemma_dec_len(c.g as nat);
            lemma_dec_len(c.b as nat);
        },
        _ => {},
    }
}

proof fn lemma_full_cell_cost(st: RenderState, x: usize, y: usize, cell: Option<Pixel>)
    requires
        x < MAX_DIM,
        y < MAX_DIM,
    ensures
        glyph_count(full_cell(st, x, y, cell).ops) == glyph_count(st.ops) + if cell is Some { 1nat } else { 0nat },
        text_of(full_cell(st, x, y, cell).ops).len() <= text_of(st.ops).len() + if cell is Some { 34nat } else { 0nat },
{
    if let Some(p) = cell {
        let moved = full_move(st, x, y);
        let jump = Op::Jump { col: (x + 1) as nat, row: (y + 1) as nat };
        lemma_op_text_len(jump);
        match st.cursor {
            Some((c, r)) => {
                if c == x && r == y {
                } else if r == y && c < x && x - c < 8 {
                    lemma_push_op(st.ops, Op::Pad((x - c) as nat));
                    lemma_op_text_len(Op::Pad((x - c) as nat));
                } else {
                    lemma_push_op(st.ops, jump);
                }
            },
            None => {
                lemma_push_op(st.ops, jump);
            },
        }
        assert(glyph_count(moved) == glyph_count(st.ops));
        assert(text_of(moved).len() <= text_of(st.ops).len() + 14);
        let colored = with_color(moved, st.last, p.color);
        if st.last != Some(p.color) {
            lemma_push_op(moved, Op::Paint(p.color));
            lemma_op_text_len(Op::Paint(p.color));
        }
        lemma_push_op(colored, Op::Glyph(p.glyph));
        lemma_op_text_len(Op::Glyph(p.glyph));
    }
}

proof fn lemma_full_row_cost(st: RenderState, row: Seq<Option<Pixel>>, y: usize, n: nat)
    requires
        n <= row.len(),
        row.len() <= MAX_DIM,
        y < MAX_DIM,
    ensures
        glyph_count(full_row(st, row, y, n).ops) == glyph_count(st.ops) + painted_in_row(row, n),
        text_of(full_row(st, row, y, n).ops).len() <= text_of(st.ops).len() + 34 * painted_in_row(row, n),
    decreases n,
{
    if n > 0 {
        lemma_full_row_cost(st, row, y, (n - 1) as nat);
        lemma_full_cell_cost(full_row(st, row, y, (n - 1) as nat), (n - 1) as usize, y, row[n - 1]);
    }
}

proof fn lemma_full_rows_cost(st: RenderState, g: Grid, m: nat, w: nat)
    requires
        m <= g.len(),
        g.len() <= MAX_DIM,
        w <= MAX_DIM,
        grid_shaped(g, w, g.len()),
    ensures
        glyph_count(full_rows(st, g, m).ops) == glyph_count(st.ops) + painted_in_rows(g, m),
        text_of(full_rows(st, g, m).ops).len() <= text_of(st.ops).len() + 34 * painted_in_rows(g, m),
    decreases m,
{
    if m > 0 {
        lemma_full_rows_cost(st, g, (m - 1) as nat, w);
        lemma_full_row_cost(full_rows(st, g, (m - 1) as nat), g[m - 1], (m - 1) as usize, g[m - 1].len());
        assert(34 * painted_in_rows(g, m) == 34 * painted_in_rows(g, (m - 1) as nat) + 34 * painted_in_row(g[m - 1], g[m - 1].len())) by (nonlinear_arith)
            requires
                painted_in_rows(g, m) == painted_in_rows(g, (m - 1) as nat) + painted_in_row(g[m - 1], g[m - 1].len()),
        ;
    }
}

/// A full-clear frame writes exactly one glyph per painted cell, and its
/// length grows linearly with the number of painted cells, never with the
/// size of the screen.
pub proof fn law_full_clear_linear(g: Grid, w: nat, h: nat)
    requires
        grid_shaped(g, w, h),
        w <= MAX_DIM,
        h <= MAX_DIM,
    ensures
        glyph_count(full_ops(g)) == painted_count(g),
        text_of(full_ops(g)).len() <= 8 + 34 * painted_count(g),
{
    let start = start_state(seq![Op::Clear]);
    lemma_push_op(Seq::empty(), Op::Clear);
    assert(seq![Op::Clear] =~= Seq::<Op>::empty().push(Op::Clear));
    assert(text_of(Seq::<Op>::empty()) =~= Seq::<char>::empty());
    lemma_op_text_len(Op::Clear);
    lemma_op_text_len(Op::Reset);
    lemma_full_rows_cost(start, g, g.len(), w);
    lemma_push_op(full_rows(start, g, g.len()).ops, Op::Reset);
}

} // verus!
