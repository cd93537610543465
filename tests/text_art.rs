use tngame::scene::{Consts, CAT_ART};
use tngame::size::parse_size;
use tngame::{gen_bubble, gen_bubble_ascii, hash, AsciiArt};

#[test]
fn hash_known_values() {
    assert_eq!(hash(0), 0);
    assert_eq!(hash(1), 824515495);
    assert_eq!(hash(2), 1722258072);
    assert_eq!(hash(42), 4147366645);
    assert_eq!(hash(12345), 1747545881);
}

#[test]
fn hash_is_deterministic() {
    for k in 0..200u32 {
        assert_eq!(hash(k), hash(k));
    }
}

#[test]
fn bubble_pads_lines_to_the_longest() {
    let b = gen_bubble("Welcome to my\nsnowy world!");
    assert_eq!(
        b,
        ".===============.\n| Welcome to my |\n| snowy world!  |\n.===============.\n"
    );
}

#[test]
fn bubble_trims_each_line() {
    let b = gen_bubble("  hi  \n\tthere ");
    assert_eq!(b, ".=======.\n| hi    |\n| there |\n.=======.\n");
}

#[test]
fn bubble_ignores_a_closing_newline() {
    let b = gen_bubble("ab\n");
    assert_eq!(b, ".====.\n| ab |\n.====.\n");
}

#[test]
fn bubble_single_empty_line() {
    let b = gen_bubble("\n");
    assert_eq!(b, ".==.\n|  |\n.==.\n");
}

#[test]
fn bubble_as_art() {
    let a = gen_bubble_ascii("Welcome to my\nsnowy world!");
    assert_eq!(a.height(), 4);
    assert_eq!(a.width(), 17);
    assert_eq!(a.credit(), "cowsay");
    assert_eq!(
        a.art(),
        ".===============.\n| Welcome to my |\n| snowy world!  |\n.===============."
    );
}

#[test]
fn art_trims_surrounding_newlines() {
    let a = AsciiArt::new("\n\nab\nc\n\n", "me");
    assert_eq!(a.art(), "ab\nc");
    assert_eq!(a.height(), 2);
    assert_eq!(a.width(), 2);
    assert_eq!(a.credit(), "me");
    assert_eq!(a.rows().len(), 2);
    assert_eq!(a.rows()[0], vec!['a', 'b']);
}

#[test]
fn art_empty() {
    let a = AsciiArt::new("\n\n", "");
    assert_eq!(a.art(), "");
    assert_eq!(a.height(), 0);
    assert_eq!(a.width(), 0);
}

#[test]
fn art_keeps_inner_blank_lines_and_drops_carriage_returns() {
    let a = AsciiArt::new("x\r\n\r\nyz", "c");
    assert_eq!(a.height(), 3);
    assert_eq!(a.width(), 2);
    assert_eq!(a.rows()[0], vec!['x']);
    assert!(a.rows()[1].is_empty());
}

#[test]
fn cat_sprite_is_seven_wide() {
    let cn = Consts::new();
    assert_eq!(cn.asc_cat.width(), 7);
    assert_eq!(cn.asc_cat.height(), 3);
    assert_eq!(cn.asc_cat.art(), CAT_ART.trim_matches('\n'));
    assert_eq!(cn.asc_tree.height(), 10);
    assert_eq!(cn.asc_house.height(), 7);
    assert_eq!(cn.asc_title.height(), 7);
}

#[test]
fn size_text_parses() {
    assert_eq!(parse_size("80x24"), Some((80, 24)));
    assert_eq!(parse_size("80x24x5"), Some((80, 24)));
    assert_eq!(parse_size("-5x+7"), Some((-5, 7)));
    assert_eq!(parse_size("-2147483648x2147483647"), Some((i32::MIN, i32::MAX)));
    assert_eq!(parse_size("2147483648x1"), None);
    assert_eq!(parse_size("99999999999x1"), None);
    assert_eq!(parse_size("80"), None);
    assert_eq!(parse_size("80x"), None);
    assert_eq!(parse_size("x24"), None);
    assert_eq!(parse_size("8a0x24"), None);
    assert_eq!(parse_size(" 80x24"), None);
    assert_eq!(parse_size(""), None);
}
