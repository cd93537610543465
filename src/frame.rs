use vstd::prelude::*;

verus! {

/// The largest width or height of a frame: a 1-based cursor position must
/// still fit in the 16 bits of a terminal coordinate.
pub const MAX_DIM: usize = 65534;

/// A 24-bit foreground color.
#[derive(Clone, Copy, Debug, PartialEq, Eq, Structural)]
pub struct Color {
    pub r: u8,
    pub g: u8,
    pub b: u8,
}

/// One painted cell: a color and the glyph drawn in it.
#[derive(Clone, Copy, Debug, PartialEq, Eq, Structural)]
pub struct Pixel {
    pub color: Color,
    pub glyph: char,
}

/// The logical contents of a frame: rows of optional cells, row-major.
pub type Grid = Seq<Seq<Option<Pixel>>>;

/// A grid of `height` rows of `width` cells.
pub open spec fn grid_shaped(g: Grid, width: nat, height: nat) -> bool {
    &&& g.len() == height
    &&& forall|y: int| 0 <= y < height ==> #[trigger] g[y].len() == width
}

/// A grid of the given shape with every cell empty.
pub open spec fn blank_grid(width: nat, height: nat) -> Grid {
    Seq::new(height, |y: int| Seq::new(width, |x: int| None::<Pixel>))
}

/// A fixed-size 2D cell buffer.
pub struct FrameBuffer {
    cells: Vec<Vec<Option<Pixel>>>,
    width: usize,
    height: usize,
}

impl View for FrameBuffer {
    type V = Grid;

    closed spec fn view(&self) -> Grid {
        self.cells@.map_values(|row: Vec<Option<Pixel>>| row@)
    }
}

impl FrameBuffer {
    pub closed spec fn spec_width(&self) -> nat {
        self.width as nat
    }

    pub closed spec fn spec_height(&self) -> nat {
        self.height as nat
    }

    /// The buffer's shape matches its recorded dimensions.
    pub open spec fn wf(&self) -> bool {
        &&& grid_shaped(self@, self.spec_width(), self.spec_height())
        &&& self.spec_width() <= MAX_DIM
        &&& self.spec_height() <= MAX_DIM
    }

    /// An empty buffer of `width` columns and `height` rows.
    pub fn new(width: usize, height: usize) -> (r: FrameBuffer)
        requires
            width <= MAX_DIM,
            height <= MAX_DIM,
        ensures
            r.wf(),
            r.spec_width() == width,
            r.spec_height() == height,
            r@ == blank_grid(width as nat, height as nat),
    {
        let mut cells: Vec<Vec<Option<Pixel>>> = Vec::new();
        let mut y: usize = 0;
        while y < height
            invariant
                y <= height,
                cells@.len() == y,
                forall|j: int| 0 <= j < y ==> #[trigger] cells@[j]@ == Seq::new(width as nat, |x: int| None::<Pixel>),
            decreases height - y,
        {
            let mut row: Vec<Option<Pixel>> = Vec::new();
            let mut x: usize = 0;
            while x < width
                invariant
                    x <= width,
                    row@ == Seq::new(x as nat, |i: int| None::<Pixel>),
                decreases width - x,
            {
                row.push(None);
                x = x + 1;
                assert(row@ =~= Seq::new(x as nat, |i: int| None::<Pixel>));
            }
            cells.push(row);
            y = y + 1;
        }
        let r = FrameBuffer { cells, width, height };
        assert(r@ =~= blank_grid(width as nat, height as nat));
        r
    }

    pub fn width(&self) -> (r: usize)
        ensures
            r == self.spec_width(),
    {
        self.width
    }

    pub fn height(&self) -> (r: usize)
        ensures
            r == self.spec_height(),
    {
        self.height
    }

    /// The cell at column `x`, row `y`.
    pub fn get(&self, x: usize, y: usize) -> (r: Option<Pixel>)
        requires
            self.wf(),
            x < self.spec_width(),
            y < self.spec_height(),
        ensures
            r == self@[y as int][x as int],
    {
        assert(self@[y as int] == self.cells@[y as int]@);
        self.cells[y][x]
    }

    /// Replaces the cell at column `x`, row `y`.
    pub fn set(&mut self, x: usize, y: usize, v: Option<Pixel>)
        requires
            old(self).wf(),
            x < old(self).spec_width(),
            y < old(self).spec_height(),
        ensures
            final(self).wf(),
            final(self).spec_width() == old(self).spec_width(),
            final(self).spec_height() == old(self).spec_height(),
            final(self)@ == old(self)@.update(y as int, old(self)@[y as int].update(x as int, v)),
    {
        assert(self@[y as int] == self.cells@[y as int]@);
        self.cells[y][x] = v;
        assert(self@ =~= old(self)@.update(y as int, old(self)@[y as int].update(x as int, v)));
    }
}

impl FrameBuffer {
    /// Empties every cell; the dimensions stay.
    pub fn clear(&mut self)
        requires
            old(self).wf(),
        ensures
            final(self).wf(),
            final(self).spec_width() == old(self).spec_width(),
            final(self).spec_height() == old(self).spec_height(),
            final(self)@ == blank_grid(old(self).spec_width(), old(self).spec_height()),
    {
        let w = self.width;
        let h = self.height;
        let mut y: usize = 0;
        while y < h
            invariant
                self.wf(),
                self.spec_width() == w,
                self.spec_height() == h,
                y <= h,
                forall|j: int| 0 <= j < y ==> #[trigger] self@[j] == Seq::new(w as nat, |i: int| None::<Pixel>),
            decreases h - y,
        {
            let mut x: usize = 0;
            while x < w
                invariant
                    self.wf(),
                    self.spec_width() == w,
                    self.spec_height() == h,
                    y < h,
                    x <= w,
                    forall|j: int| 0 <= j < y ==> #[trigger] self@[j] == Seq::new(w as nat, |i: int| None::<Pixel>),
                    forall|i: int| 0 <= i < x ==> #[trigger] self@[y as int][i] == None::<Pixel>,
                decreases w - x,
            {
                self.set(x, y, None);
                x = x + 1;
            }
            assert(self@[y as int] =~= Seq::new(w as nat, |i: int| None::<Pixel>));
            y = y + 1;
        }
        assert(self@ =~= blank_grid(w as nat, h as nat));
    }
}

} // verus!
