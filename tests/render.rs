use tngame::frame::{Color, FrameBuffer, Pixel};
use tngame::render::{render_diff, render_full};

const RED: Color = Color { r: 255, g: 0, b: 0 };
const BLUE: Color = Color { r: 0, g: 0, b: 255 };

fn px(color: Color, glyph: char) -> Option<Pixel> {
    Some(Pixel { color, glyph })
}

fn all_blank(b: &FrameBuffer) -> bool {
    (0..b.height()).all(|y| (0..b.width()).all(|x| b.get(x, y).is_none()))
}

#[test]
fn full_clear_exact_output() {
    let mut b = FrameBuffer::new(20, 3);
    b.set(0, 0, px(RED, 'a'));
    b.set(1, 0, px(RED, 'b'));
    b.set(4, 0, px(BLUE, 'c'));
    b.set(15, 0, px(BLUE, 'd'));
    b.set(2, 2, px(RED, 'e'));
    let out = render_full(&mut b);
    let expected = [
        "\x1b[2J", "\x1b[1;1H", "\x1b[38;2;255;0;0m", "a", "b", "  ", "\x1b[38;2;0;0;255m", "c", "\x1b[1;16H", "d", "\x1b[3;3H", "\x1b[38;2;255;0;0m", "e", "\x1b[0m",
    ]
    .join("");
    assert_eq!(out, expected);
    assert!(all_blank(&b));
    assert_eq!(b.width(), 20);
    assert_eq!(b.height(), 3);
}

#[test]
fn full_clear_empty_buffer() {
    let mut b = FrameBuffer::new(80, 24);
    let out = render_full(&mut b);
    assert_eq!(out, "\x1b[2J\x1b[0m");
}

#[test]
fn full_clear_glyph_count_equals_painted_cells() {
    let mut b = FrameBuffer::new(50, 20);
    let mut k = 0;
    for y in 0..20 {
        for x in 0..50 {
            if (x * 7 + y * 3) % 11 == 0 {
                b.set(x, y, px(if x % 2 == 0 { RED } else { BLUE }, '*'));
                k += 1;
            }
        }
    }
    let out = render_full(&mut b);
    assert_eq!(out.chars().filter(|c| *c == '*').count(), k);
    assert!(out.len() <= 8 + 34 * k);
    assert!(all_blank(&b));
}

#[test]
fn full_clear_uses_spaces_for_short_gaps_only() {
    let mut b = FrameBuffer::new(30, 1);
    b.set(0, 0, px(RED, 'x'));
    b.set(8, 0, px(RED, 'y'));
    b.set(17, 0, px(RED, 'z'));
    let out = render_full(&mut b);
    assert_eq!(
        out,
        "\x1b[2J\x1b[1;1H\x1b[38;2;255;0;0mx       y\x1b[1;18Hz\x1b[0m"
    );
}

#[test]
fn diff_same_frame_twice_writes_only_reset() {
    let mut cur = FrameBuffer::new(10, 4);
    let mut prev = FrameBuffer::new(10, 4);
    cur.set(3, 1, px(RED, 'a'));
    cur.set(4, 1, px(BLUE, 'b'));
    let first = render_diff(&mut cur, &mut prev);
    assert_eq!(
        first,
        "\x1b[2;4H\x1b[38;2;255;0;0ma\x1b[38;2;0;0;255mb\x1b[0m"
    );
    assert!(all_blank(&cur));
    assert_eq!(prev.get(3, 1), px(RED, 'a'));
    cur.set(3, 1, px(RED, 'a'));
    cur.set(4, 1, px(BLUE, 'b'));
    let second = render_diff(&mut cur, &mut prev);
    assert_eq!(second, "\x1b[0m");
}

#[test]
fn diff_erases_cells_that_became_empty() {
    let mut cur = FrameBuffer::new(10, 4);
    let mut prev = FrameBuffer::new(10, 4);
    cur.set(0, 0, px(RED, 'a'));
    cur.set(9, 3, px(RED, 'z'));
    render_diff(&mut cur, &mut prev);
    cur.set(0, 0, px(RED, 'a'));
    let out = render_diff(&mut cur, &mut prev);
    assert_eq!(out, "\x1b[4;10H \x1b[0m");
}

#[test]
fn diff_changed_glyph_same_color() {
    let mut cur = FrameBuffer::new(5, 1);
    let mut prev = FrameBuffer::new(5, 1);
    cur.set(1, 0, px(RED, 'a'));
    render_diff(&mut cur, &mut prev);
    cur.set(1, 0, px(RED, 'b'));
    let out = render_diff(&mut cur, &mut prev);
    assert_eq!(out, "\x1b[1;2H\x1b[38;2;255;0;0mb\x1b[0m");
}
