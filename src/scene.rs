use vstd::prelude::*;
use crate::art::AsciiArt;
use crate::frame::{Color, Pixel, Grid, FrameBuffer, MAX_DIM, grid_shaped};
use crate::hash::{hash, hash_spec};
use crate::text::rows_view;

verus! {

/// Integer division rounding toward zero, as `/` does on machine integers.
pub open spec fn div_trunc(a: int, b: int) -> int {
    if a >= 0 {
        a / b
    } else {
        -((-a) / b)
    }
}

/// The camera's offset: zero until the player passes three quarters of the
/// viewport's width, then as far as the player has gone beyond that.
pub open spec fn scroll_of(x: int, w: int) -> int {
    if x - w * 3 / 4 > 0 {
        x - w * 3 / 4
    } else {
        0
    }
}

/// The glyph of a sprite at row `i`, column `j`, if it paints that cell:
/// spaces are transparent.
pub open spec fn sprite_glyph(rows: Seq<Seq<char>>, i: int, j: int) -> Option<char> {
    if 0 <= i < rows.len() && 0 <= j < rows[i].len() && rows[i][j] != ' ' {
        Some(rows[i][j])
    } else {
        None
    }
}

/// A cell once the sprite's cell `(i, j)` is painted over it in `color`.
pub open spec fn over(rows: Seq<Seq<char>>, i: int, j: int, color: Color, under: Option<Pixel>) -> Option<Pixel> {
    match sprite_glyph(rows, i, j) {
        Some(ch) => Some(Pixel { color, glyph: ch }),
        None => under,
    }
}

/// `g` with a sprite painted at column `ox`, row `oy` in `color`; what
/// falls outside the grid is dropped.
pub open spec fn paint_sprite(g: Grid, rows: Seq<Seq<char>>, ox: int, oy: int, color: Color) -> Grid {
    Seq::new(g.len(), |r: int| Seq::new(g[r].len(), |c: int| over(rows, r - oy, c - ox, color, g[r][c])))
}

/// The ground texture: one of three glyphs for each world column.
pub open spec fn grass_char(k: u32) -> char {
    let v = hash_spec(k) % 3;
    if v == 0 {
        '.'
    } else if v == 1 {
        ','
    } else {
        ';'
    }
}

pub open spec fn grass_color() -> Color {
    Color { r: 181, g: 203, b: 194 }
}

/// The ground row of a viewport `w` wide, scrolled by `scroll`.
pub open spec fn grass_row(w: int, scroll: int) -> Seq<Option<Pixel>> {
    Seq::new(w as nat, |c: int| Some(Pixel { color: grass_color(), glyph: grass_char((c + scroll) as u32) }))
}

/// The ground is anchored to the world: a column shows the same glyph in
/// any two frames whose scroll offsets put the same world column there. In
/// particular two frames with the same offset have the same ground row, so
/// it changes only when the offset does.
pub proof fn law_grass_stable(w: int, x1: int, x2: int, c1: int, c2: int)
    requires
        1 <= w <= MAX_DIM,
        0 <= c1 < w,
        0 <= c2 < w,
        c1 + scroll_of(x1, w) == c2 + scroll_of(x2, w),
    ensures
        grass_row(w, scroll_of(x1, w))[c1] == grass_row(w, scroll_of(x2, w))[c2],
        scroll_of(x1, w) == scroll_of(x2, w) ==> grass_row(w, scroll_of(x1, w)) == grass_row(w, scroll_of(x2, w)),
{
}

/// A sprite whose box lies wholly outside a `w` by `h` grid paints nothing.
pub proof fn law_clipped_sprite_leaves_grid(
    g: Grid,
    rows: Seq<Seq<char>>,
    ox: int,
    oy: int,
    color: Color,
    w: nat,
    h: nat,
)
    requires
        grid_shaped(g, w, h),
        ox + crate::text::max_len(rows) <= 0 || ox >= w || oy + rows.len() <= 0 || oy >= h,
    ensures
        paint_sprite(g, rows, ox, oy, color) == g,
{
    crate::text::lemma_max_len(rows);
    let p = paint_sprite(g, rows, ox, oy, color);
    assert forall|r: int| 0 <= r < g.len() implies #[trigger] p[r] == g[r] by {
        assert(p[r].len() == g[r].len());
        assert forall|c: int| 0 <= c < g[r].len() implies #[trigger] p[r][c] == g[r][c] by {
            if 0 <= r - oy < rows.len() {
                assert(rows[r - oy].len() <= crate::text::max_len(rows));
            }
        }
        assert(p[r] =~= g[r]);
    }
    assert(p =~= g);
}

/// Whether a sprite character lands on a `w` by `h` grid and shows there.
pub open spec fn paints_at(ch: char, c: int, r: int, w: int, h: int) -> bool {
    &&& ch != ' '
    &&& 0 <= c
    &&& c < w
    &&& 0 <= r
    &&& r < h
}

/// Painting one more character of a sprite, row by row: the grid changes at
/// that character's cell alone, and only if it is on the grid and no space.
proof fn lemma_paint_step(
    g: Grid,
    w: int,
    h: int,
    done: Seq<Seq<char>>,
    line: Seq<char>,
    j: int,
    ox: int,
    oy: int,
    color: Color,
    before: Grid,
    after: Grid,
)
    requires
        0 <= w,
        0 <= h,
        grid_shaped(g, w as nat, h as nat),
        0 <= j < line.len(),
        before == paint_sprite(g, done.push(line.subrange(0, j)), ox, oy, color),
        paints_at(line[j], ox + j, oy + done.len(), w, h) ==> after == before.update(
            oy + done.len(),
            before[oy + done.len()].update(ox + j, Some(Pixel { color, glyph: line[j] })),
        ),
        !(paints_at(line[j], ox + j, oy + done.len(), w, h)) ==> after == before,
    ensures
        after == paint_sprite(g, done.push(line.subrange(0, j + 1)), ox, oy, color),
{
    let p0 = done.push(line.subrange(0, j));
    let p1 = done.push(line.subrange(0, j + 1));
    let target = paint_sprite(g, p1, ox, oy, color);
    let i = done.len() as int;
    assert(before.len() == h);
    assert forall|r: int| 0 <= r < h implies #[trigger] before[r].len() == w by {
        assert(before[r].len() == g[r].len());
    }
    lemma_cell_update(
        before,
        after,
        oy + i,
        ox + j,
        Some(Pixel { color, glyph: line[j] }),
        paints_at(line[j], ox + j, oy + i, w, h),
        w,
        h,
    );
    assert forall|r: int| 0 <= r < h implies #[trigger] after[r] == target[r] by {
        assert(target[r].len() == g[r].len());
        assert(before[r].len() == g[r].len());
        assert forall|c: int| 0 <= c < w implies #[trigger] after[r][c] == target[r][c] by {
            let a = r - oy;
            let b = c - ox;
            assert(before[r][c] == over(p0, a, b, color, g[r][c]));
            assert(target[r][c] == over(p1, a, b, color, g[r][c]));
            if a == i && b == j {
                assert(p1[a][b] == line[j]);
            } else {
                if 0 <= a < p1.len() && 0 <= b < p1[a].len() {
                    if a < i {
                        assert(p1[a] == p0[a]);
                    } else {
                        assert(p1[a][b] == p0[a][b]);
                    }
                }
                assert(sprite_glyph(p1, a, b) == sprite_glyph(p0, a, b));
                assert(after[r][c] == before[r][c]);
            }
        }
        assert(after[r] =~= target[r]);
    }
    assert(after =~= target);
}

/// A grid after possibly writing one cell: every other cell is as it was.
proof fn lemma_cell_update(before: Grid, after: Grid, r0: int, c0: int, v: Option<Pixel>, write: bool, w: int, h: int)
    requires
        grid_shaped(before, w as nat, h as nat),
        write ==> 0 <= r0 < h && 0 <= c0 < w,
        write ==> after == before.update(r0, before[r0].update(c0, v)),
        !write ==> after == before,
    ensures
        grid_shaped(after, w as nat, h as nat),
        forall|r: int, c: int|
            0 <= r < h && 0 <= c < w ==> #[trigger] after[r][c] == if write && r == r0 && c == c0 {
                v
            } else {
                before[r][c]
            },
{
}

/// Two sprites that paint the same cells paint the same grid.
proof fn lemma_paint_same(g: Grid, p0: Seq<Seq<char>>, p1: Seq<Seq<char>>, ox: int, oy: int, color: Color)
    requires
        forall|i: int, j: int| sprite_glyph(p0, i, j) == sprite_glyph(p1, i, j),
    ensures
        paint_sprite(g, p0, ox, oy, color) == paint_sprite(g, p1, ox, oy, color),
{
    let a = paint_sprite(g, p0, ox, oy, color);
    let b = paint_sprite(g, p1, ox, oy, color);
    assert forall|r: int| 0 <= r < g.len() implies #[trigger] a[r] == b[r] by {
        assert(a[r] =~= b[r]);
    }
    assert(a =~= b);
}

/// A sprite with no rows paints nothing.
proof fn lemma_paint_empty(g: Grid, ox: int, oy: int, color: Color)
    ensures
        paint_sprite(g, Seq::empty(), ox, oy, color) == g,
{
    let a = paint_sprite(g, Seq::empty(), ox, oy, color);
    assert forall|r: int| 0 <= r < g.len() implies #[trigger] a[r] == g[r] by {
        assert(a[r] =~= g[r]);
    }
    assert(a =~= g);
}

/// What the player's cat says.
#[derive(Clone, Copy, Debug, PartialEq, Eq, Structural)]
pub enum Message {
    Welcome,
    Tree,
    House,
    Cliff,
}

pub open spec fn message_text(m: Message) -> Seq<char> {
    match m {
        Message::Welcome => "Welcome to my\nsnowy world!"@,
        Message::Tree => "I wish I could\nlive on that tree."@,
        Message::House => "I wonder what\nmy friends are doing."@,
        Message::Cliff => "The cliff, it looks so steep.\nI wish I can fly"@,
    }
}

/// The text of a message.
pub fn message_str(m: Message) -> (r: &'static str)
    ensures
        r@ == message_text(m),
        r@.len() > 0,
{
    match m {
        Message::Welcome => {
            proof {
                reveal_strlit("Welcome to my\nsnowy world!");
            }
            "Welcome to my\nsnowy world!"
        },
        Message::Tree => {
            proof {
                reveal_strlit("I wish I could\nlive on that tree.");
            }
            "I wish I could\nlive on that tree."
        },
        Message::House => {
            proof {
                reveal_strlit("I wonder what\nmy friends are doing.");
            }
            "I wonder what\nmy friends are doing."
        },
        Message::Cliff => {
            proof {
                reveal_strlit("The cliff, it looks so steep.\nI wish I can fly");
            }
            "The cliff, it looks so steep.\nI wish I can fly"
        },
    }
}

/// The rows of the speech bubble for a message.
pub open spec fn message_rows(m: Message) -> Seq<Seq<char>> {
    crate::art::art_rows(crate::cowsay::bubble_of(crate::cowsay::message_lines(message_text(m))))
}

pub open spec fn tree_color() -> Color {
    Color { r: 204, g: 255, b: 88 }
}

pub open spec fn house_color() -> Color {
    Color { r: 251, g: 194, b: 110 }
}

pub open spec fn cat_color() -> Color {
    Color { r: 255, g: 231, b: 151 }
}

/// Where the props stand in a world `w` wide.
pub open spec fn tree1_start(w: int, cn: Consts) -> int {
    div_trunc(w - 2 * cn.asc_tree.spec_w(), 4)
}

pub open spec fn tree2_start(w: int, cn: Consts) -> int {
    div_trunc(w + 2 * cn.asc_tree.spec_w(), 2)
}

pub open spec fn house_start(w: int, cn: Consts) -> int {
    div_trunc(w + cn.asc_house.spec_w(), 2)
}

/// Which message the cat says: the welcome while it is up; then, in this
/// order, a remark near the first tree, near the house, or at the left edge;
/// else nothing.
pub open spec fn bubble_choice(mode: Mode, x: int, w: int, cn: Consts) -> Option<Message> {
    let t1 = tree1_start(w, cn);
    let hs = house_start(w, cn);
    if mode == Mode::Welcome {
        Some(Message::Welcome)
    } else if x > t1 && x < t1 + cn.asc_tree.spec_w() {
        Some(Message::Tree)
    } else if x > hs - cn.asc_cat.spec_w() && x < hs + cn.asc_house.spec_w() {
        Some(Message::House)
    } else if x == 0 {
        Some(Message::Cliff)
    } else {
        None
    }
}

/// The scene painted over `g`, back to front: two trees, the house, the
/// ground, the title, the cat, and its speech bubble if it has one; every
/// sprite shifted by the scroll offset.
pub open spec fn scene_layers(g: Grid, cn: Consts, w: int, h: int, x: int, mode: Mode) -> Grid {
    let s = scroll_of(x, w);
    let tree = cn.asc_tree;
    let house = cn.asc_house;
    let title = cn.asc_title;
    let cat = cn.asc_cat;
    let g1 = paint_sprite(g, tree.spec_rows(), tree1_start(w, cn) - s, h - tree.spec_h(), tree_color());
    let g2 = paint_sprite(g1, tree.spec_rows(), tree2_start(w, cn) - s, h - tree.spec_h(), tree_color());
    let g3 = paint_sprite(g2, house.spec_rows(), house_start(w, cn) - s, h - house.spec_h(), house_color());
    let g4 = g3.update(h - 1, grass_row(w, s));
    let g5 = paint_sprite(
        g4,
        title.spec_rows(),
        div_trunc(w - title.spec_w(), 2) - s,
        div_trunc(h - title.spec_h(), 2),
        cat_color(),
    );
    let g6 = paint_sprite(g5, cat.spec_rows(), x - s, h - cat.spec_h(), cat_color());
    match bubble_choice(mode, x, w, cn) {
        Some(m) => paint_sprite(
            g6,
            message_rows(m),
            x + 5 - s,
            h - cat.spec_h() - crate::art::sat_i32(message_rows(m).len()),
            cat_color(),
        ),
        None => g6,
    }
}

/// What a frame writes to the terminal, by strategy.
pub open spec fn frame_text(mode: RenderMode, cur: Grid, prev: Grid) -> Seq<char> {
    match mode {
        RenderMode::FullClear => crate::render::text_of(crate::render::full_ops(cur)),
        RenderMode::Diff => crate::render::text_of(crate::render::diff_ops(cur, prev)),
    }
}

/// A key press, as far as the scene cares.
#[derive(Clone, Copy, Debug, PartialEq, Eq, Structural)]
pub enum Command {
    Quit,
    Left,
    Right,
    Ignore,
}

/// The command that a chunk of input bytes stands for: `q`, Ctrl-C or Esc
/// quit; `a` or the left arrow move left; `d` or the right arrow move
/// right; anything else is ignored. A chunk is matched as a whole.
pub open spec fn command_of(b: Seq<u8>) -> Command {
    if b == seq![0x71u8] || b == seq![0x03u8] || b == seq![0x1bu8] {
        Command::Quit
    } else if b == seq![0x61u8] || b == seq![0x1bu8, 0x5bu8, 0x44u8] {
        Command::Left
    } else if b == seq![0x64u8] || b == seq![0x1bu8, 0x5bu8, 0x43u8] {
        Command::Right
    } else {
        Command::Ignore
    }
}

fn bytes_are(b: &[u8], want: &[u8]) -> (r: bool)
    ensures
        r == (b@ == want@),
{
    if b.len() != want.len() {
        return false;
    }
    let mut i: usize = 0;
    while i < b.len()
        invariant
            b@.len() == want@.len(),
            i <= b@.len(),
            b@.subrange(0, i as int) == want@.subrange(0, i as int),
        decreases b@.len() - i,
    {
        if b[i] != want[i] {
            return false;
        }
        i = i + 1;
        assert(b@.subrange(0, i as int) =~= want@.subrange(0, i as int));
    }
    assert(b@ =~= b@.subrange(0, i as int));
    assert(want@ =~= want@.subrange(0, i as int));
    true
}

/// Decodes one chunk of raw input.
pub fn decode_input(b: &[u8]) -> (r: Command)
    ensures
        r == command_of(b@),
{
    let quit1: [u8; 1] = [0x71u8];
    let quit2: [u8; 1] = [0x03u8];
    let quit3: [u8; 1] = [0x1bu8];
    let left1: [u8; 1] = [0x61u8];
    let left2: [u8; 3] = [0x1bu8, 0x5bu8, 0x44u8];
    let right1: [u8; 1] = [0x64u8];
    let right2: [u8; 3] = [0x1bu8, 0x5bu8, 0x43u8];
    assert(quit1@ =~= seq![0x71u8]);
    assert(quit2@ =~= seq![0x03u8]);
    assert(quit3@ =~= seq![0x1bu8]);
    assert(left1@ =~= seq![0x61u8]);
    assert(left2@ =~= seq![0x1bu8, 0x5bu8, 0x44u8]);
    assert(right1@ =~= seq![0x64u8]);
    assert(right2@ =~= seq![0x1bu8, 0x5bu8, 0x43u8]);
    if bytes_are(b, quit1.as_slice()) || bytes_are(b, quit2.as_slice()) || bytes_are(b, quit3.as_slice()) {
        Command::Quit
    } else if bytes_are(b, left1.as_slice()) || bytes_are(b, left2.as_slice()) {
        Command::Left
    } else if bytes_are(b, right1.as_slice()) || bytes_are(b, right2.as_slice()) {
        Command::Right
    } else {
        Command::Ignore
    }
}

/// The player's position after a step of `amount`: at least 0 and at most
/// the viewport's width less the sprite's (the upper bound wins when the
/// sprite is wider than the viewport).
pub open spec fn step_x(x: int, amount: int, w: int, sprite_w: int) -> int {
    let lo = if x + amount > 0 { x + amount } else { 0 };
    if lo < w - sprite_w {
        lo
    } else {
        w - sprite_w
    }
}

/// The ASCII art of the scene.
pub struct Consts {
    pub asc_cat: AsciiArt,
    pub asc_tree: AsciiArt,
    pub asc_house: AsciiArt,
    pub asc_title: AsciiArt,
}

pub const CAT_ART: &'static str = r#"
 /\_/\
( | | )
 >   < "#;

pub const TREE_ART: &'static str = r#"
          %%%,%%%%%%%
       ,'%% \\-*%%%%%%%
 ;%%%%%*%   _%%%%"
  ,%%%       \(_.*%%%%.
  % *%%, ,%%%%*(    '
%^     ,*%%% )\|,%%*%,_
     *%    \/ #).-"*%%*
         _.) ,/ *%,
          /)#(
         /   \ "#;

pub const HOUSE_ART: &'static str = r#"
         _
     ,--l l--------,
    / /^/    /^/  / \
   /_.--.___.--._/   \
   | ,--,   ,--, |  ,|
 ,%| '--'._.'--' |,o%o
.*%|_,%%_| |_%%,_|#%%%*"#;

pub const TITLE_ART: &'static str = r#"
                 .       *
         _.__. _.| _  _. ' __
        (_] /_(_]|(/,(_]  _)
                                .  .
 __._  _ .    ,  .  .    , _ ._.| _|
_) [ )(_) \/\/ \_|   \/\/ (_)[  |(_]
               ._|                  "#;

impl Consts {
    pub open spec fn wf(&self) -> bool {
        &&& self.asc_cat.wf()
        &&& self.asc_tree.wf()
        &&& self.asc_house.wf()
        &&& self.asc_title.wf()
    }

    /// The scene's art: the player's cat, a tree, a house and the title.
    pub fn new() -> (r: Consts)
        ensures
            r.wf(),
            r.asc_cat.spec_rows() == crate::art::art_rows(CAT_ART@),
            r.asc_tree.spec_rows() == crate::art::art_rows(TREE_ART@),
            r.asc_house.spec_rows() == crate::art::art_rows(HOUSE_ART@),
            r.asc_title.spec_rows() == crate::art::art_rows(TITLE_ART@),
    {
        let asc_cat = AsciiArt::new(CAT_ART, "Azalea");
        let asc_tree = AsciiArt::new(TREE_ART, "b'ger from ascii.co.uk/art/tree");
        let asc_house = AsciiArt::new(HOUSE_ART, "Modified from hjw from ascii.co.uk/art/house");
        let asc_title = AsciiArt::new(TITLE_ART, "Generated by patorjk.com/software/taag with font Contessa");
        Consts { asc_cat, asc_tree, asc_house, asc_title }
    }
}

/// Whether the opening message is still up.
#[derive(Clone, Copy, Debug, PartialEq, Eq, Structural)]
pub enum Mode {
    Welcome,
    Exploring,
}

/// How frames are written to the terminal.
#[derive(Clone, Copy, Debug, PartialEq, Eq, Structural)]
pub enum RenderMode {
    /// Clear the screen and write every painted cell.
    FullClear,
    /// Write only the cells that changed since the last frame.
    Diff,
}

/// The mutable state of the scene.
pub struct Scene {
    w: i32,
    h: i32,
    x: i32,
    buf: FrameBuffer,
    prev: FrameBuffer,
    snow: crate::snow::SnowField,
    should_exit: bool,
    mode: Mode,
    render_mode: RenderMode,
}

impl Scene {
    pub closed spec fn spec_w(&self) -> int {
        self.w as int
    }

    pub closed spec fn spec_h(&self) -> int {
        self.h as int
    }

    /// The player's horizontal position in the world.
    pub closed spec fn spec_x(&self) -> int {
        self.x as int
    }

    /// The frame being composed.
    pub closed spec fn grid(&self) -> Grid {
        self.buf@
    }

    /// The frame last written (diff mode).
    pub closed spec fn prev_grid(&self) -> Grid {
        self.prev@
    }

    pub closed spec fn flakes(&self) -> Seq<crate::snow::Particle> {
        self.snow.flakes()
    }

    pub closed spec fn exiting(&self) -> bool {
        self.should_exit
    }

    pub closed spec fn spec_mode(&self) -> Mode {
        self.mode
    }

    pub closed spec fn spec_render_mode(&self) -> RenderMode {
        self.render_mode
    }

    pub closed spec fn inner_wf(&self) -> bool {
        &&& self.buf.wf()
        &&& self.prev.wf()
        &&& self.snow.wf()
        &&& self.buf.spec_width() == self.w
        &&& self.buf.spec_height() == self.h
        &&& self.prev.spec_width() == self.w
        &&& self.prev.spec_height() == self.h
        &&& self.snow.spec_width() == self.w
        &&& self.snow.spec_height() == self.h
    }

    /// The buffers and the snow match the viewport, whose size never changes,
    /// and the player's position stays within machine range.
    pub open spec fn wf(&self) -> bool {
        &&& self.inner_wf()
        &&& 1 <= self.spec_w() <= MAX_DIM
        &&& 1 <= self.spec_h() <= MAX_DIM
        &&& i32::MIN < self.spec_x() <= MAX_DIM
        &&& grid_shaped(self.grid(), self.spec_w() as nat, self.spec_h() as nat)
        &&& grid_shaped(self.prev_grid(), self.spec_w() as nat, self.spec_h() as nat)
    }

    /// A scene for a `w` by `h` viewport: blank buffers, fresh snow, the
    /// player centred, the opening message up.
    pub fn new(cn: &Consts, w: i32, h: i32, render_mode: RenderMode) -> (r: Scene)
        requires
            cn.wf(),
            1 <= w <= MAX_DIM,
            1 <= h <= MAX_DIM,
        ensures
            r.wf(),
            r.spec_w() == w,
            r.spec_h() == h,
            r.spec_x() == div_trunc(w - cn.asc_cat.spec_w(), 2),
            r.grid() == crate::frame::blank_grid(w as nat, h as nat),
            r.prev_grid() == crate::frame::blank_grid(w as nat, h as nat),
            r.flakes().len() == crate::snow::flake_count(w as int, h as int),
            !r.exiting(),
            r.spec_mode() == Mode::Welcome,
            r.spec_render_mode() == render_mode,
    {
        let buf = FrameBuffer::new(w as usize, h as usize);
        let prev = FrameBuffer::new(w as usize, h as usize);
        let x = (w - cn.asc_cat.width()) / 2;
        let snow = crate::snow::SnowField::new(w as i64, h as i64);
        Scene { w, h, x, buf, prev, snow, should_exit: false, mode: Mode::Welcome, render_mode }
    }

    pub fn width(&self) -> (r: i32)
        ensures
            r == self.spec_w(),
    {
        self.w
    }

    pub fn height(&self) -> (r: i32)
        ensures
            r == self.spec_h(),
    {
        self.h
    }

    /// The player's horizontal position.
    pub fn player_x(&self) -> (r: i32)
        ensures
            r == self.spec_x(),
    {
        self.x
    }

    pub fn should_exit(&self) -> (r: bool)
        ensures
            r == self.exiting(),
    {
        self.should_exit
    }

    pub fn mode(&self) -> (r: Mode)
        ensures
            r == self.spec_mode(),
    {
        self.mode
    }

    /// The cell at column `x`, row `y` of the frame being composed.
    pub fn cell(&self, x: usize, y: usize) -> (r: Option<Pixel>)
        requires
            self.wf(),
            x < self.spec_w(),
            y < self.spec_h(),
        ensures
            r == self.grid()[y as int][x as int],
    {
        self.buf.get(x, y)
    }

    /// The camera's horizontal offset for the current player position.
    pub fn get_scroll(&self) -> (r: i32)
        requires
            self.wf(),
        ensures
            r == scroll_of(self.spec_x(), self.spec_w()),
            0 <= r <= MAX_DIM,
            self.spec_x() <= self.spec_w() * 3 / 4 ==> r == 0,
            self.spec_x() == self.spec_w() ==> r == self.spec_w() - self.spec_w() * 3 / 4,
    {
        let d = self.x as i64 - (self.w as i64 * 3 / 4);
        if d > 0 {
            d as i32
        } else {
            0
        }
    }

    /// Paints `art` with its top left corner at world column `x`, row `y`,
    /// shifted by the scroll offset; cells off the viewport are skipped, and
    /// art wholly off the viewport is not looked at.
    pub fn print_ascii(&mut self, art: &AsciiArt, x: i64, y: i64, color: Color)
        requires
            old(self).wf(),
            art.wf(),
            -0x1_0000_0000 <= x <= 0x1_0000_0000,
            -0x1_0000_0000 <= y <= 0x1_0000_0000,
        ensures
            final(self).wf(),
            final(self).grid() == paint_sprite(
                old(self).grid(),
                art.spec_rows(),
                x - scroll_of(old(self).spec_x(), old(self).spec_w()),
                y as int,
                color,
            ),
            final(self).prev_grid() == old(self).prev_grid(),
            final(self).flakes() == old(self).flakes(),
            final(self).spec_w() == old(self).spec_w(),
            final(self).spec_h() == old(self).spec_h(),
            final(self).spec_x() == old(self).spec_x(),
            final(self).exiting() == old(self).exiting(),
            final(self).spec_mode() == old(self).spec_mode(),
            final(self).spec_render_mode() == old(self).spec_render_mode(),
    {
        let ghost g = self.buf@;
        let ghost rows = art.spec_rows();
        let ox = x - self.get_scroll() as i64;
        let oy = y;
        let w = self.w as i64;
        let h = self.h as i64;
        let aw = art.width() as i64;
        let ah = art.height() as i64;
        if ox >= w || oy >= h || (aw < i32::MAX as i64 && ox + aw <= 0) || (ah < i32::MAX as i64 && oy + ah <= 0) {
            proof {
                law_clipped_sprite_leaves_grid(g, rows, ox as int, oy as int, color, w as nat, h as nat);
            }
            return;
        }
        let lines = art.rows();
        proof {
            lemma_paint_empty(g, ox as int, oy as int, color);
            assert(rows.subrange(0, 0) =~= Seq::<Seq<char>>::empty());
        }
        let mut i: usize = 0;
        while i < lines.len()
            invariant
                self.wf(),
                self.spec_w() == w,
                self.spec_h() == h,
                rows_view(*lines) == rows,
                i <= rows.len(),
                self.buf@ == paint_sprite(g, rows.subrange(0, i as int), ox as int, oy as int, color),
                grid_shaped(g, w as nat, h as nat),
                -0x2_0000_0000 <= ox <= 0x2_0000_0000,
                -0x2_0000_0000 <= oy <= 0x2_0000_0000,
                self.prev@ == old(self).prev@,
                self.snow == old(self).snow,
                self.x == old(self).x,
                self.should_exit == old(self).should_exit,
                self.mode == old(self).mode,
                self.render_mode == old(self).render_mode,
            decreases rows.len() - i,
        {
            let line = &lines[i];
            let ghost done = rows.subrange(0, i as int);
            assert(line@ == rows[i as int]);
            proof {
                let p = done.push(line@.subrange(0, 0));
                assert forall|a: int, b: int| sprite_glyph(done, a, b) == sprite_glyph(p, a, b) by {
                    if 0 <= a < done.len() {
                        assert(p[a] == done[a]);
                    }
                }
                lemma_paint_same(g, done, p, ox as int, oy as int, color);
            }
            let mut j: usize = 0;
            while j < line.len()
                invariant
                    self.wf(),
                    self.spec_w() == w,
                    self.spec_h() == h,
                    i < rows.len(),
                    line@ == rows[i as int],
                    done == rows.subrange(0, i as int),
                    j <= line@.len(),
                    self.buf@ == paint_sprite(g, done.push(line@.subrange(0, j as int)), ox as int, oy as int, color),
                    grid_shaped(g, w as nat, h as nat),
                    -0x2_0000_0000 <= ox <= 0x2_0000_0000,
                    -0x2_0000_0000 <= oy <= 0x2_0000_0000,
                    self.prev@ == old(self).prev@,
                    self.snow == old(self).snow,
                    self.x == old(self).x,
                    self.should_exit == old(self).should_exit,
                    self.mode == old(self).mode,
                    self.render_mode == old(self).render_mode,
                decreases line@.len() - j,
            {
                let c = line[j];
                let cx = ox as i128 + j as i128;
                let cy = oy as i128 + i as i128;
                let ghost before = self.buf@;
                if c != ' ' && 0 <= cx && cx < w as i128 && 0 <= cy && cy < h as i128 {
                    self.buf.set(cx as usize, cy as usize, Some(Pixel { color, glyph: c }));
                }
                proof {
                    lemma_paint_step(g, w as int, h as int, done, line@, j as int, ox as int, oy as int, color, before, self.buf@);
                }
                j = j + 1;
            }
            proof {
                assert(line@.subrange(0, j as int) =~= line@);
                assert(done.push(line@.subrange(0, j as int)) =~= rows.subrange(0, i + 1));
            }
            i = i + 1;
        }
        proof {
            assert(rows.subrange(0, i as int) =~= rows);
        }
    }
}

impl Scene {
    /// Draws the ground texture along the bottom row: a glyph picked by
    /// hashing each column's world position.
    pub fn draw_grass(&mut self)
        requires
            old(self).wf(),
        ensures
            final(self).wf(),
            final(self).grid() == old(self).grid().update(
                old(self).spec_h() - 1,
                grass_row(old(self).spec_w(), scroll_of(old(self).spec_x(), old(self).spec_w())),
            ),
            final(self).prev_grid() == old(self).prev_grid(),
            final(self).flakes() == old(self).flakes(),
            final(self).spec_w() == old(self).spec_w(),
            final(self).spec_h() == old(self).spec_h(),
            final(self).spec_x() == old(self).spec_x(),
            final(self).exiting() == old(self).exiting(),
            final(self).spec_mode() == old(self).spec_mode(),
            final(self).spec_render_mode() == old(self).spec_render_mode(),
    {
        let ghost g = self.buf@;
        let scroll = self.get_scroll();
        let row = (self.h - 1) as usize;
        let w = self.w as usize;
        let mut c: usize = 0;
        proof {
            let first = grass_row(w as int, scroll as int).subrange(0, 0) + g[row as int].subrange(0, w as int);
            assert(first =~= g[row as int]);
            assert(g.update(row as int, first) =~= g);
        }
        while c < w
            invariant
                self.wf(),
                w == self.spec_w(),
                row == self.spec_h() - 1,
                0 <= scroll <= MAX_DIM,
                c <= w,
                self.buf@ == g.update(
                    row as int,
                    grass_row(w as int, scroll as int).subrange(0, c as int) + g[row as int].subrange(c as int, w as int),
                ),
                grid_shaped(g, w as nat, self.spec_h() as nat),
                self.prev@ == old(self).prev@,
                self.snow == old(self).snow,
                self.x == old(self).x,
                self.should_exit == old(self).should_exit,
                self.mode == old(self).mode,
                self.render_mode == old(self).render_mode,
            decreases w - c,
        {
            let k = (c as i32 + scroll) as u32;
            let v = hash(k) % 3;
            let glyph = if v == 0 {
                '.'
            } else if v == 1 {
                ','
            } else {
                ';'
            };
            self.buf.set(c, row, Some(Pixel { color: Color { r: 181, g: 203, b: 194 }, glyph }));
            c = c + 1;
            proof {
                assert(self.buf@[row as int] =~= grass_row(w as int, scroll as int).subrange(0, c as int) + g[row as int].subrange(c as int, w as int));
                assert(self.buf@ =~= g.update(
                    row as int,
                    grass_row(w as int, scroll as int).subrange(0, c as int) + g[row as int].subrange(c as int, w as int),
                ));
            }
        }
        proof {
            assert(grass_row(w as int, scroll as int).subrange(0, w as int) + g[row as int].subrange(w as int, w as int) =~= grass_row(w as int, scroll as int));
        }
    }
}

fn tree_color_value() -> (c: Color)
    ensures
        c == tree_color(),
{
    Color { r: 204, g: 255, b: 88 }
}

fn house_color_value() -> (c: Color)
    ensures
        c == house_color(),
{
    Color { r: 251, g: 194, b: 110 }
}

fn cat_color_value() -> (c: Color)
    ensures
        c == cat_color(),
{
    Color { r: 255, g: 231, b: 151 }
}

/// Everything but the frame being composed stays as it was.
pub open spec fn same_but_grid(a: Scene, b: Scene) -> bool {
    &&& a.prev_grid() == b.prev_grid()
    &&& a.flakes() == b.flakes()
    &&& a.spec_w() == b.spec_w()
    &&& a.spec_h() == b.spec_h()
    &&& a.spec_x() == b.spec_x()
    &&& a.exiting() == b.exiting()
    &&& a.spec_mode() == b.spec_mode()
    &&& a.spec_render_mode() == b.spec_render_mode()
}

impl Scene {
    /// Composes the scene over the current frame: props, ground, title,
    /// the cat and its speech bubble, in that order.
    pub fn draw_ascii_frame(&mut self, cn: &Consts)
        requires
            old(self).wf(),
            cn.wf(),
        ensures
            final(self).wf(),
            final(self).grid() == scene_layers(
                old(self).grid(),
                *cn,
                old(self).spec_w(),
                old(self).spec_h(),
                old(self).spec_x(),
                old(self).spec_mode(),
            ),
            same_but_grid(*final(self), *old(self)),
    {
        let w = self.w as i64;
        let h = self.h as i64;
        let x = self.x as i64;
        let tw = cn.asc_tree.width() as i64;
        let th = cn.asc_tree.height() as i64;
        let hw = cn.asc_house.width() as i64;
        let hh = cn.asc_house.height() as i64;
        let cw = cn.asc_cat.width() as i64;
        let ch = cn.asc_cat.height() as i64;
        let t1 = (w - 2 * tw) / 4;
        let t2 = (w + 2 * tw) / 2;
        let hs = (w + hw) / 2;
        self.print_ascii(&cn.asc_tree, t1, h - th, tree_color_value());
        self.print_ascii(&cn.asc_tree, t2, h - th, tree_color_value());
        self.print_ascii(&cn.asc_house, hs, h - hh, house_color_value());
        self.draw_grass();
        let tlw = cn.asc_title.width() as i64;
        let tlh = cn.asc_title.height() as i64;
        self.print_ascii(&cn.asc_title, (w - tlw) / 2, (h - tlh) / 2, cat_color_value());
        self.print_ascii(&cn.asc_cat, x, h - ch, cat_color_value());
        let choice = if self.mode == Mode::Welcome {
            Some(Message::Welcome)
        } else if x > t1 && x < t1 + tw {
            Some(Message::Tree)
        } else if x > hs - cw && x < hs + hw {
            Some(Message::House)
        } else if x == 0 {
            Some(Message::Cliff)
        } else {
            None
        };
        assert(choice == bubble_choice(old(self).spec_mode(), x as int, w as int, *cn));
        match choice {
            Some(m) => {
                let bubble = crate::cowsay::gen_bubble_ascii(message_str(m));
                self.print_ascii(&bubble, x + 5, h - ch - bubble.height() as i64, cat_color_value());
            },
            None => {},
        }
    }

    /// Moves the snow by `dt` milliseconds and draws it into the frame.
    pub fn update_snow(&mut self, dt: u32)
        requires
            old(self).wf(),
        ensures
            final(self).wf(),
            final(self).flakes().len() == old(self).flakes().len(),
            forall|i: int|
                0 <= i < old(self).flakes().len() ==> crate::snow::stepped(
                    #[trigger] old(self).flakes()[i],
                    final(self).flakes()[i],
                    dt as int,
                    old(self).spec_w(),
                    old(self).spec_h(),
                ),
            final(self).grid() == crate::snow::paint_flakes(
                old(self).grid(),
                final(self).flakes(),
                final(self).flakes().len(),
                old(self).spec_w(),
                old(self).spec_h(),
                scroll_of(old(self).spec_x(), old(self).spec_w()),
            ),
            final(self).prev_grid() == old(self).prev_grid(),
            final(self).spec_w() == old(self).spec_w(),
            final(self).spec_h() == old(self).spec_h(),
            final(self).spec_x() == old(self).spec_x(),
            final(self).exiting() == old(self).exiting(),
            final(self).spec_mode() == old(self).spec_mode(),
            final(self).spec_render_mode() == old(self).spec_render_mode(),
    {
        let scroll = self.get_scroll();
        self.snow.advance(dt);
        self.snow.paint(&mut self.buf, scroll as i64);
    }

    /// Writes the composed frame with the scene's strategy. The frame is
    /// blank afterwards; in diff mode it is kept as the previous frame.
    pub fn draw_buf(&mut self) -> (r: String)
        requires
            old(self).wf(),
        ensures
            final(self).wf(),
            r@ == frame_text(old(self).spec_render_mode(), old(self).grid(), old(self).prev_grid()),
            final(self).grid() == crate::frame::blank_grid(old(self).spec_w() as nat, old(self).spec_h() as nat),
            final(self).prev_grid() == match old(self).spec_render_mode() {
                RenderMode::FullClear => old(self).prev_grid(),
                RenderMode::Diff => old(self).grid(),
            },
            final(self).flakes() == old(self).flakes(),
            final(self).spec_w() == old(self).spec_w(),
            final(self).spec_h() == old(self).spec_h(),
            final(self).spec_x() == old(self).spec_x(),
            final(self).exiting() == old(self).exiting(),
            final(self).spec_mode() == old(self).spec_mode(),
            final(self).spec_render_mode() == old(self).spec_render_mode(),
    {
        match self.render_mode {
            RenderMode::FullClear => crate::render::render_full(&mut self.buf),
            RenderMode::Diff => crate::render::render_diff(&mut self.buf, &mut self.prev),
        }
    }

    /// One frame: unless the scene is exiting (then nothing happens and
    /// `None` comes back), move the snow by `dt` milliseconds, compose the
    /// scene over it and return the text that draws it.
    pub fn tick(&mut self, dt: u32, cn: &Consts) -> (r: Option<String>)
        requires
            old(self).wf(),
            cn.wf(),
        ensures
            final(self).wf(),
            old(self).exiting() ==> r is None && *final(self) == *old(self),
            !old(self).exiting() ==> {
                &&& r is Some
                &&& final(self).flakes().len() == old(self).flakes().len()
                &&& forall|i: int|
                    0 <= i < old(self).flakes().len() ==> crate::snow::stepped(
                        #[trigger] old(self).flakes()[i],
                        final(self).flakes()[i],
                        dt as int,
                        old(self).spec_w(),
                        old(self).spec_h(),
                    )
                &&& r->Some_0@ == frame_text(
                    old(self).spec_render_mode(),
                    scene_layers(
                        crate::snow::paint_flakes(
                            old(self).grid(),
                            final(self).flakes(),
                            final(self).flakes().len(),
                            old(self).spec_w(),
                            old(self).spec_h(),
                            scroll_of(old(self).spec_x(), old(self).spec_w()),
                        ),
                        *cn,
                        old(self).spec_w(),
                        old(self).spec_h(),
                        old(self).spec_x(),
                        old(self).spec_mode(),
                    ),
                    old(self).prev_grid(),
                )
                &&& final(self).grid() == crate::frame::blank_grid(old(self).spec_w() as nat, old(self).spec_h() as nat)
                &&& final(self).spec_x() == old(self).spec_x()
                &&& final(self).spec_mode() == old(self).spec_mode()
                &&& !final(self).exiting()
            },
            final(self).spec_w() == old(self).spec_w(),
            final(self).spec_h() == old(self).spec_h(),
            final(self).spec_render_mode() == old(self).spec_render_mode(),
    {
        if self.should_exit {
            return None;
        }
        self.update_snow(dt);
        self.draw_ascii_frame(cn);
        Some(self.draw_buf())
    }

    /// Applies a command. Quitting sets the exit flag and returns `false`
    /// (stop reading input); a move shifts the player by one column, kept
    /// within the viewport, and ends the welcome; other input changes
    /// nothing. The result says whether to keep reading.
    pub fn handle_command(&mut self, cmd: Command, cn: &Consts) -> (keep_reading: bool)
        requires
            old(self).wf(),
            cn.wf(),
        ensures
            final(self).wf(),
            keep_reading == (cmd != Command::Quit),
            final(self).grid() == old(self).grid(),
            final(self).prev_grid() == old(self).prev_grid(),
            final(self).flakes() == old(self).flakes(),
            final(self).spec_w() == old(self).spec_w(),
            final(self).spec_h() == old(self).spec_h(),
            final(self).spec_render_mode() == old(self).spec_render_mode(),
            cmd == Command::Quit ==> final(self).exiting() && final(self).spec_x() == old(self).spec_x()
                && final(self).spec_mode() == old(self).spec_mode(),
            cmd == Command::Left ==> final(self).spec_x() == step_x(
                old(self).spec_x(),
                -1,
                old(self).spec_w(),
                cn.asc_cat.spec_w(),
            ) && final(self).spec_mode() == Mode::Exploring && final(self).exiting() == old(self).exiting(),
            cmd == Command::Right ==> final(self).spec_x() == step_x(
                old(self).spec_x(),
                1,
                old(self).spec_w(),
                cn.asc_cat.spec_w(),
            ) && final(self).spec_mode() == Mode::Exploring && final(self).exiting() == old(self).exiting(),
            cmd == Command::Ignore ==> *final(self) == *old(self),
    {
        match cmd {
            Command::Quit => {
                self.should_exit = true;
                false
            },
            Command::Left => {
                self.move_x(-1, cn);
                true
            },
            Command::Right => {
                self.move_x(1, cn);
                true
            },
            Command::Ignore => true,
        }
    }

    fn move_x(&mut self, amount: i64, cn: &Consts)
        requires
            old(self).wf(),
            cn.wf(),
            amount == -1 || amount == 1,
        ensures
            final(self).wf(),
            final(self).spec_x() == step_x(old(self).spec_x(), amount as int, old(self).spec_w(), cn.asc_cat.spec_w()),
            final(self).spec_mode() == Mode::Exploring,
            final(self).grid() == old(self).grid(),
            final(self).prev_grid() == old(self).prev_grid(),
            final(self).flakes() == old(self).flakes(),
            final(self).spec_w() == old(self).spec_w(),
            final(self).spec_h() == old(self).spec_h(),
            final(self).exiting() == old(self).exiting(),
            final(self).spec_render_mode() == old(self).spec_render_mode(),
    {
        let moved = self.x as i64 + amount;
        let lo = if moved > 0 { moved } else { 0 };
        let hi = self.w as i64 - cn.asc_cat.width() as i64;
        let nx = if lo < hi { lo } else { hi };
        self.x = nx as i32;
        if self.mode == Mode::Welcome {
            self.mode = Mode::Exploring;
        }
    }

    /// Decodes a chunk of input and applies it; see `handle_command`.
    pub fn handle_input(&mut self, bytes: &[u8], cn: &Consts) -> (keep_reading: bool)
        requires
            old(self).wf(),
            cn.wf(),
        ensures
            final(self).wf(),
            keep_reading == (command_of(bytes@) != Command::Quit),
            command_of(bytes@) == Command::Quit ==> final(self).exiting(),
            command_of(bytes@) == Command::Left ==> final(self).spec_x() == step_x(
                old(self).spec_x(),
                -1,
                old(self).spec_w(),
                cn.asc_cat.spec_w(),
            ) && final(self).spec_mode() == Mode::Exploring,
            command_of(bytes@) == Command::Right ==> final(self).spec_x() == step_x(
                old(self).spec_x(),
                1,
                old(self).spec_w(),
                cn.asc_cat.spec_w(),
            ) && final(self).spec_mode() == Mode::Exploring,
            command_of(bytes@) == Command::Ignore ==> *final(self) == *old(self),
            final(self).grid() == old(self).grid(),
            final(self).flakes() == old(self).flakes(),
            final(self).spec_w() == old(self).spec_w(),
            final(self).spec_h() == old(self).spec_h(),
    {
        let cmd = decode_input(bytes);
        self.handle_command(cmd, cn)
    }

    /// The input stream ended: the scene exits.
    pub fn handle_eof(&mut self)
        requires
            old(self).wf(),
        ensures
            final(self).wf(),
            final(self).exiting(),
            final(self).spec_x() == old(self).spec_x(),
            final(self).grid() == old(self).grid(),
    {
        self.should_exit = true;
    }
}

} // verus!
