use vstd::prelude::*;
use rand::Rng;
use crate::frame::{Color, Pixel, Grid, FrameBuffer, MAX_DIM};

verus! {

/// Sub-cell units per cell: positions are kept in millionths of a cell.
pub const UNIT: i64 = 1000000;

/// Fall speed, in units per millisecond (six cells per second).
pub const SNOW_SPEED: i64 = 6000;

/// One particle is made for every this many cells of the screen.
pub const CELLS_PER_FLAKE: i64 = 25;

/// The colors a flake can have.
pub open spec fn palette(i: int) -> Color {
    if i == 0 {
        Color { r: 246, g: 170, b: 183 }
    } else if i == 1 {
        Color { r: 255, g: 255, b: 255 }
    } else {
        Color { r: 85, g: 205, b: 253 }
    }
}

pub open spec fn in_palette(c: Color) -> bool {
    c == palette(0) || c == palette(1) || c == palette(2)
}

fn palette_color(i: i64) -> (c: Color)
    requires
        0 <= i < 3,
    ensures
        c == palette(i as int),
{
    if i == 0 {
        Color { r: 246, g: 170, b: 183 }
    } else if i == 1 {
        Color { r: 255, g: 255, b: 255 }
    } else {
        Color { r: 85, g: 205, b: 253 }
    }
}

/// A falling snow flake: position in units, velocity in units per
/// millisecond, and color.
#[derive(Clone, Copy, Debug, PartialEq, Eq)]
pub struct Particle {
    pub x: i64,
    pub y: i64,
    pub vx: i64,
    pub vy: i64,
    pub color: Color,
}

/// A freshly drawn drift: sideways within half the speed either way,
/// downwards between one and two times the speed.
pub open spec fn velocity_ok(vx: i64, vy: i64) -> bool {
    &&& -SNOW_SPEED / 2 <= vx < SNOW_SPEED / 2
    &&& SNOW_SPEED <= vy < 2 * SNOW_SPEED
}

/// A flake inside a field of `w` by `h` cells.
pub open spec fn particle_ok(p: Particle, w: int, h: int) -> bool {
    &&& 0 <= p.x < w * UNIT
    &&& 0 <= p.y <= h * UNIT
    &&& velocity_ok(p.vx, p.vy)
    &&& in_palette(p.color)
}

/// Where a flake lands after `dt` milliseconds, before any respawn: `x`
/// wraps around the field's width, `y` simply moves on.
pub open spec fn moved_x(p: Particle, dt: int, w: int) -> int {
    (p.x + p.vx * dt) % (w * UNIT)
}

pub open spec fn moved_y(p: Particle, dt: int) -> int {
    p.y + p.vy * dt
}

/// How `p` became `q` in one step of `dt` milliseconds: moved and wrapped;
/// and if it fell below the bottom, back at the top with a new drift and
/// color, its column kept.
pub open spec fn stepped(p: Particle, q: Particle, dt: int, w: int, h: int) -> bool {
    &&& q.x == moved_x(p, dt, w)
    &&& if moved_y(p, dt) > h * UNIT {
        &&& q.y == 0
        &&& velocity_ok(q.vx, q.vy)
        &&& in_palette(q.color)
    } else {
        &&& q.y == moved_y(p, dt)
        &&& q.vx == p.vx
        &&& q.vy == p.vy
        &&& q.color == p.color
    }
}

/// Relies on rand's `thread_rng().gen_range(lo..hi)`: a value in `[lo, hi)`;
/// it panics on an empty range.
#[verifier::external_body]
fn random_in(lo: i64, hi: i64) -> (r: i64)
    requires
        lo < hi,
    ensures
        lo <= r < hi,
{
    rand::thread_rng().gen_range(lo..hi)
}

/// A random drift.
pub fn snow_rand_velocity() -> (r: (i64, i64))
    ensures
        velocity_ok(r.0, r.1),
{
    let vx = random_in(-SNOW_SPEED / 2, SNOW_SPEED / 2);
    let vy = random_in(SNOW_SPEED, 2 * SNOW_SPEED);
    (vx, vy)
}

/// A random flake color.
fn snow_rand_color() -> (c: Color)
    ensures
        in_palette(c),
{
    palette_color(random_in(0, 3))
}

/// The number of flakes for a field of `w` by `h` cells: one per
/// `CELLS_PER_FLAKE` cells, rounded to the nearest.
pub open spec fn flake_count(w: int, h: int) -> int {
    (w * h + CELLS_PER_FLAKE / 2) / (CELLS_PER_FLAKE as int)
}

/// The cell a flake is drawn in, if it is on screen: its position rounded,
/// its column shifted by half the scroll offset (the snow is a slower,
/// farther layer) and wrapped.
pub open spec fn flake_cell(p: Particle, w: int, h: int, scroll: int) -> Option<(int, int)> {
    let xc = (p.x + UNIT / 2) as int / UNIT as int;
    let yc = (p.y + UNIT / 2) as int / UNIT as int;
    if xc < w && yc < h {
        Some(((xc + w - scroll / 2) % w, yc))
    } else {
        None
    }
}

/// The first `n` flakes drawn, in order, over `g`; a later flake wins a cell.
pub open spec fn paint_flakes(g: Grid, ps: Seq<Particle>, n: nat, w: int, h: int, scroll: int) -> Grid
    decreases n,
{
    if n == 0 {
        g
    } else {
        let before = paint_flakes(g, ps, (n - 1) as nat, w, h, scroll);
        let p = ps[n - 1];
        match flake_cell(p, w, h, scroll) {
            Some((c, r)) => before.update(r, before[r].update(c, Some(Pixel { color: p.color, glyph: '*' }))),
            None => before,
        }
    }
}

/// The falling snow over a field of `width` by `height` cells.
pub struct SnowField {
    particles: Vec<Particle>,
    width: i64,
    height: i64,
}

impl SnowField {
    pub closed spec fn flakes(&self) -> Seq<Particle> {
        self.particles@
    }

    pub closed spec fn spec_width(&self) -> int {
        self.width as int
    }

    pub closed spec fn spec_height(&self) -> int {
        self.height as int
    }

    /// Every flake lies inside the field and has a valid drift and color.
    pub open spec fn wf(&self) -> bool {
        &&& 0 < self.spec_width() <= MAX_DIM
        &&& 0 < self.spec_height() <= MAX_DIM
        &&& forall|i: int|
            0 <= i < self.flakes().len() ==> particle_ok(
                #[trigger] self.flakes()[i],
                self.spec_width(),
                self.spec_height(),
            )
    }

    /// A field of randomly placed flakes, as many as `flake_count` says.
    pub fn new(width: i64, height: i64) -> (r: SnowField)
        requires
            0 < width <= MAX_DIM,
            0 < height <= MAX_DIM,
        ensures
            r.wf(),
            r.spec_width() == width,
            r.spec_height() == height,
            r.flakes().len() == flake_count(width as int, height as int),
            forall|i: int| 0 <= i < r.flakes().len() ==> #[trigger] r.flakes()[i].y < height * UNIT,
    {
        assert(width * height <= MAX_DIM * MAX_DIM) by (nonlinear_arith)
            requires
                0 < width <= MAX_DIM,
                0 < height <= MAX_DIM,
        ;
        assert(0 < width * height) by (nonlinear_arith)
            requires
                0 < width,
                0 < height,
        ;
        let count = (width * height + CELLS_PER_FLAKE / 2) / CELLS_PER_FLAKE;
        let mut particles: Vec<Particle> = Vec::new();
        let mut i: i64 = 0;
        while i < count
            invariant
                0 <= i <= count,
                0 < width <= MAX_DIM,
                0 < height <= MAX_DIM,
                particles@.len() == i,
                forall|k: int|
                    0 <= k < i ==> particle_ok(#[trigger] particles@[k], width as int, height as int)
                        && particles@[k].y < height * UNIT,
            decreases count - i,
        {
            let x = random_in(0, width * UNIT);
            let y = random_in(0, height * UNIT);
            let (vx, vy) = snow_rand_velocity();
            let color = snow_rand_color();
            particles.push(Particle { x, y, vx, vy, color });
            i = i + 1;
        }
        SnowField { particles, width, height }
    }

    pub fn len(&self) -> (r: usize)
        ensures
            r == self.flakes().len(),
    {
        self.particles.len()
    }

    /// The flake at index `i`.
    pub fn get(&self, i: usize) -> (r: Particle)
        requires
            i < self.flakes().len(),
        ensures
            r == self.flakes()[i as int],
    {
        self.particles[i]
    }

    /// Moves every flake by its velocity over `dt` milliseconds. A flake
    /// that leaves the field sideways comes back on the other side; one that
    /// falls below the bottom starts again at the top, in the same column,
    /// with a new random drift and color.
    pub fn advance(&mut self, dt: u32)
        requires
            old(self).wf(),
        ensures
            final(self).wf(),
            final(self).spec_width() == old(self).spec_width(),
            final(self).spec_height() == old(self).spec_height(),
            final(self).flakes().len() == old(self).flakes().len(),
            forall|i: int|
                0 <= i < final(self).flakes().len() ==> 0 <= #[trigger] final(self).flakes()[i].x
                    < final(self).spec_width() * UNIT,
            forall|i: int|
                0 <= i < old(self).flakes().len() ==> stepped(
                    #[trigger] old(self).flakes()[i],
                    final(self).flakes()[i],
                    dt as int,
                    old(self).spec_width(),
                    old(self).spec_height(),
                ),
    {
        let w = self.width;
        let h = self.height;
        let span = w * UNIT;
        let n = self.particles.len();
        let mut i: usize = 0;
        while i < n
            invariant
                0 < w <= MAX_DIM,
                0 < h <= MAX_DIM,
                span == w * UNIT,
                self.width == w,
                self.height == h,
                i <= n,
                n == self.particles@.len(),
                n == old(self).particles@.len(),
                forall|k: int| 0 <= k < n ==> particle_ok(#[trigger] old(self).particles@[k], w as int, h as int),
                forall|k: int| 0 <= k < i ==> particle_ok(#[trigger] self.particles@[k], w as int, h as int),
                forall|k: int|
                    0 <= k < i ==> stepped(
                        #[trigger] old(self).particles@[k],
                        self.particles@[k],
                        dt as int,
                        w as int,
                        h as int,
                    ),
                forall|k: int| i <= k < n ==> #[trigger] self.particles@[k] == old(self).particles@[k],
            decreases n - i,
        {
            let p = self.particles[i];
            assert(particle_ok(old(self).particles@[i as int], w as int, h as int));
            let d = dt as i64;
            assert(-3000 * 0x1_0000_0000 <= p.vx * d <= 3000 * 0x1_0000_0000) by (nonlinear_arith)
                requires
                    -3000 <= p.vx <= 3000,
                    0 <= d <= 0x1_0000_0000,
            ;
            assert(0 <= p.vy * d <= 12000 * 0x1_0000_0000) by (nonlinear_arith)
                requires
                    0 <= p.vy <= 12000,
                    0 <= d <= 0x1_0000_0000,
            ;
            let nx = match (p.x + p.vx * d).checked_rem_euclid(span) {
                Some(v) => v,
                None => 0,
            };
            let ny = p.y + p.vy * d;
            let q = if ny > h * UNIT {
                let (vx, vy) = snow_rand_velocity();
                Particle { x: nx, y: 0, vx, vy, color: snow_rand_color() }
            } else {
                Particle { x: nx, y: ny, vx: p.vx, vy: p.vy, color: p.color }
            };
            self.particles.set(i, q);
            i = i + 1;
        }
    }

    /// Draws every flake as a `*` in its color, in order, over `buf`.
    pub fn paint(&self, buf: &mut FrameBuffer, scroll: i64)
        requires
            self.wf(),
            old(buf).wf(),
            old(buf).spec_width() == self.spec_width(),
            old(buf).spec_height() == self.spec_height(),
            0 <= scroll <= MAX_DIM,
        ensures
            final(buf).wf(),
            final(buf).spec_width() == old(buf).spec_width(),
            final(buf).spec_height() == old(buf).spec_height(),
            final(buf)@ == paint_flakes(
                old(buf)@,
                self.flakes(),
                self.flakes().len(),
                self.spec_width(),
                self.spec_height(),
                scroll as int,
            ),
    {
        let w = self.width;
        let h = self.height;
        let n = self.particles.len();
        let mut i: usize = 0;
        while i < n
            invariant
                self.wf(),
                w == self.spec_width(),
                h == self.spec_height(),
                n == self.flakes().len(),
                i <= n,
                0 <= scroll <= MAX_DIM,
                buf.wf(),
                buf.spec_width() == w,
                buf.spec_height() == h,
                buf@ == paint_flakes(old(buf)@, self.flakes(), i as nat, w as int, h as int, scroll as int),
            decreases n - i,
        {
            let p = self.particles[i];
            assert(particle_ok(self.flakes()[i as int], w as int, h as int));
            let xc = (p.x + UNIT / 2) / UNIT;
            let yc = (p.y + UNIT / 2) / UNIT;
            if xc < w && yc < h {
                let col = match (xc + w - scroll / 2).checked_rem_euclid(w) {
                    Some(v) => v,
                    None => 0,
                };
                buf.set(col as usize, yc as usize, Some(Pixel { color: p.color, glyph: '*' }));
            }
            i = i + 1;
        }
    }
}

} // verus!
