use tngame::frame::{Color, Pixel};
use tngame::hash;
use tngame::scene::{decode_input, Command, Consts, Mode, RenderMode, Scene};
use tngame::snow::{SnowField, SNOW_SPEED, UNIT};

fn grass_glyph(k: u32) -> char {
    ['.', ',', ';'][(hash(k) % 3) as usize]
}

#[test]
fn player_walks_right_and_is_clamped_then_quits() {
    let cn = Consts::new();
    let mut sc = Scene::new(&cn, 40, 10, RenderMode::FullClear);
    assert_eq!(sc.player_x(), 16);
    assert_eq!(sc.mode(), Mode::Welcome);
    for _ in 0..30 {
        assert!(sc.handle_input(&b"\x1b[C"[..], &cn));
    }
    assert_eq!(sc.player_x(), 33);
    assert_eq!(sc.mode(), Mode::Exploring);
    assert!(sc.tick(50, &cn).is_some());
    assert!(!sc.handle_input(&b"q"[..], &cn));
    assert!(sc.should_exit());
    assert!(sc.tick(50, &cn).is_none());
}

#[test]
fn player_is_clamped_at_the_left_edge() {
    let cn = Consts::new();
    let mut sc = Scene::new(&cn, 40, 10, RenderMode::Diff);
    for _ in 0..20 {
        assert!(sc.handle_input(&b"a"[..], &cn));
    }
    assert_eq!(sc.player_x(), 0);
    assert!(sc.handle_input(&b"d"[..], &cn));
    assert_eq!(sc.player_x(), 1);
    assert!(sc.handle_input(&b"\x1b[D"[..], &cn));
    assert_eq!(sc.player_x(), 0);
}

#[test]
fn input_decoding() {
    assert_eq!(decode_input(b"q"), Command::Quit);
    assert_eq!(decode_input(b"\x03"), Command::Quit);
    assert_eq!(decode_input(b"\x1b"), Command::Quit);
    assert_eq!(decode_input(b"a"), Command::Left);
    assert_eq!(decode_input(b"\x1b[D"), Command::Left);
    assert_eq!(decode_input(b"d"), Command::Right);
    assert_eq!(decode_input(b"\x1b[C"), Command::Right);
    assert_eq!(decode_input(b"x"), Command::Ignore);
    assert_eq!(decode_input(b"qq"), Command::Ignore);
    assert_eq!(decode_input(b"\x1b["), Command::Ignore);
    assert_eq!(decode_input(b""), Command::Ignore);
    assert_eq!(decode_input(&[0xff, 0xfe]), Command::Ignore);
}

#[test]
fn ignored_input_changes_nothing() {
    let cn = Consts::new();
    let mut sc = Scene::new(&cn, 40, 10, RenderMode::FullClear);
    assert!(sc.handle_input(&b"z"[..], &cn));
    assert_eq!(sc.player_x(), 16);
    assert_eq!(sc.mode(), Mode::Welcome);
    assert!(!sc.should_exit());
}

#[test]
fn end_of_input_exits() {
    let cn = Consts::new();
    let mut sc = Scene::new(&cn, 40, 10, RenderMode::FullClear);
    sc.handle_eof();
    assert!(sc.should_exit());
    assert!(sc.tick(50, &cn).is_none());
}

#[test]
fn scroll_follows_past_three_quarters() {
    let cn = Consts::new();
    let mut sc = Scene::new(&cn, 40, 10, RenderMode::FullClear);
    assert_eq!(sc.get_scroll(), 0);
    for _ in 0..14 {
        sc.handle_input(&b"d"[..], &cn);
    }
    assert_eq!(sc.player_x(), 30);
    assert_eq!(sc.get_scroll(), 0);
    sc.handle_input(&b"d"[..], &cn);
    assert_eq!(sc.get_scroll(), 1);
    for _ in 0..10 {
        sc.handle_input(&b"d"[..], &cn);
    }
    assert_eq!(sc.player_x(), 33);
    assert_eq!(sc.get_scroll(), 3);
}

#[test]
fn offscreen_sprite_leaves_buffer_unchanged() {
    let cn = Consts::new();
    let mut sc = Scene::new(&cn, 40, 10, RenderMode::FullClear);
    let red = Color { r: 255, g: 0, b: 0 };
    sc.print_ascii(&cn.asc_tree, -100, 2, red);
    sc.print_ascii(&cn.asc_tree, 40, 2, red);
    sc.print_ascii(&cn.asc_tree, 5, 10, red);
    sc.print_ascii(&cn.asc_tree, 5, -10, red);
    for y in 0..10 {
        for x in 0..40 {
            assert!(sc.cell(x, y).is_none());
        }
    }
}

#[test]
fn sprite_is_clipped_and_spaces_are_transparent() {
    let cn = Consts::new();
    let mut sc = Scene::new(&cn, 40, 10, RenderMode::FullClear);
    let c = Color { r: 1, g: 2, b: 3 };
    sc.print_ascii(&cn.asc_cat, -1, 8, c);
    // Rows " /\_/\", "( | | )", " >   < " with the first column off screen.
    assert_eq!(sc.cell(0, 8), Some(Pixel { color: c, glyph: '/' }));
    assert_eq!(sc.cell(1, 8), Some(Pixel { color: c, glyph: '\\' }));
    assert_eq!(sc.cell(2, 8), Some(Pixel { color: c, glyph: '_' }));
    assert_eq!(sc.cell(0, 9), None);
    assert_eq!(sc.cell(1, 9), Some(Pixel { color: c, glyph: '|' }));
    assert_eq!(sc.cell(2, 9), None);
}

#[test]
fn ground_is_stable_between_frames() {
    let cn = Consts::new();
    let mut sc = Scene::new(&cn, 40, 10, RenderMode::FullClear);
    sc.draw_grass();
    let first: Vec<Option<Pixel>> = (0..40).map(|x| sc.cell(x, 9)).collect();
    for x in 0..40usize {
        let p = first[x].unwrap();
        assert_eq!(p.glyph, grass_glyph(x as u32));
        assert_eq!(p.color, Color { r: 181, g: 203, b: 194 });
    }
    sc.draw_buf();
    sc.draw_grass();
    let second: Vec<Option<Pixel>> = (0..40).map(|x| sc.cell(x, 9)).collect();
    assert_eq!(first, second);
}

#[test]
fn ground_moves_with_the_scroll_offset() {
    let cn = Consts::new();
    let mut sc = Scene::new(&cn, 40, 10, RenderMode::FullClear);
    for _ in 0..17 {
        sc.handle_input(&b"d"[..], &cn);
    }
    assert_eq!(sc.get_scroll(), 3);
    sc.draw_grass();
    for x in 0..40usize {
        assert_eq!(sc.cell(x, 9).unwrap().glyph, grass_glyph(x as u32 + 3));
    }
}

#[test]
fn full_clear_frame_draws_scene() {
    let cn = Consts::new();
    let mut sc = Scene::new(&cn, 80, 24, RenderMode::FullClear);
    let out = sc.tick(50, &cn).unwrap();
    assert!(out.starts_with("\x1b[2J"));
    assert!(out.ends_with("\x1b[0m"));
    assert!(out.contains("Welcome to my"));
    for y in 0..24 {
        for x in 0..80 {
            assert!(sc.cell(x, y).is_none());
        }
    }
}

#[test]
fn diff_frame_repeated_without_change_writes_only_reset() {
    let cn = Consts::new();
    let mut sc = Scene::new(&cn, 80, 24, RenderMode::Diff);
    let first = sc.tick(0, &cn).unwrap();
    assert!(!first.starts_with("\x1b[2J"));
    assert!(first.contains("Welcome"));
    assert!(first.ends_with("\x1b[0m"));
    let second = sc.tick(0, &cn).unwrap();
    assert_eq!(second, "\x1b[0m");
    sc.handle_input(&b"d"[..], &cn);
    let third = sc.tick(0, &cn).unwrap();
    assert!(third.len() > 4);
    assert!(third.len() < first.len());
}

#[test]
fn snow_count_and_bounds() {
    let f = SnowField::new(40, 10);
    assert_eq!(f.len(), 16);
    let mut xs = Vec::new();
    for i in 0..f.len() {
        let p = f.get(i);
        assert!(0 <= p.x && p.x < 40 * UNIT);
        assert!(0 <= p.y && p.y < 10 * UNIT);
        assert!(-SNOW_SPEED / 2 <= p.vx && p.vx < SNOW_SPEED / 2);
        assert!(SNOW_SPEED <= p.vy && p.vy < 2 * SNOW_SPEED);
        xs.push(p.x);
    }
    assert!(xs.iter().any(|x| *x != xs[0]));
}

#[test]
fn snow_count_rounds_to_nearest() {
    assert_eq!(SnowField::new(13, 1).len(), 1);
    assert_eq!(SnowField::new(12, 1).len(), 0);
    assert_eq!(SnowField::new(80, 24).len(), 77);
}

#[test]
fn snow_wraps_horizontally() {
    let mut f = SnowField::new(40, 10);
    for _ in 0..200 {
        f.advance(37);
        for i in 0..f.len() {
            let p = f.get(i);
            assert!(0 <= p.x && p.x < 40 * UNIT);
            assert!(0 <= p.y && p.y <= 10 * UNIT);
        }
    }
}

#[test]
fn snow_respawns_at_top_with_new_speed() {
    let mut f = SnowField::new(40, 10);
    let before: Vec<_> = (0..f.len()).map(|i| f.get(i)).collect();
    f.advance(10_000);
    for i in 0..f.len() {
        let p = f.get(i);
        assert_eq!(p.y, 0);
        assert!(SNOW_SPEED <= p.vy && p.vy < 2 * SNOW_SPEED);
        let expect_x = (before[i].x + before[i].vx * 10_000).rem_euclid(40 * UNIT);
        assert_eq!(p.x, expect_x);
    }
}

#[test]
fn snow_moves_by_velocity() {
    let mut f = SnowField::new(40, 10);
    let before: Vec<_> = (0..f.len()).map(|i| f.get(i)).collect();
    f.advance(1);
    for i in 0..f.len() {
        let (a, b) = (before[i], f.get(i));
        assert_eq!(b.x, (a.x + a.vx).rem_euclid(40 * UNIT));
        if a.y + a.vy <= 10 * UNIT {
            assert_eq!(b.y, a.y + a.vy);
            assert_eq!(b.vx, a.vx);
            assert_eq!(b.color, a.color);
        }
    }
}
