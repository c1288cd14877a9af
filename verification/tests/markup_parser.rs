//! The markup-line reader: colors in both dialects, permissive
//! attributes, and whole lines split back into blocks.

use lemon::color::Color;
use lemon::markup::{parse, parse_color_attr, Block};
use lemon::model::Alignment;

fn parse_to_vec(s: &str) -> Vec<Block> {
    let mut blocks = Vec::new();
    let mut p = parse(s);
    while let Some(b) = p.next() {
        blocks.push(b.unwrap());
    }
    blocks
}

#[test]
fn opaque_colors() {
    let (c0, _) = Color::parse("#aabbcc").unwrap();
    let (c1, _) = Color::parse("0xaabbcc").unwrap();
    let expect = Color { r: 0xaa, g: 0xbb, b: 0xcc, a: None };

    assert_eq!(c0, c1);
    assert_eq!(c0, expect);
    assert_eq!(c1, expect);
}

#[test]
fn transparent_colors() {
    let (c0, _) = Color::parse("#55aabbcc").unwrap();
    let (c1, _) = Color::parse("0xaabbcc55").unwrap();
    let expect = Color { r: 0xaa, g: 0xbb, b: 0xcc, a: Some(0x55) };

    assert_eq!(c0, c1);
    assert_eq!(c0, expect);
    assert_eq!(c1, expect);
}

#[test]
fn permissive_color() {
    let (c0, _) = parse_color_attr("%{F:0xaabbcc55}", "F").unwrap();
    let (c1, _) = parse_color_attr("%{F0xaabbcc55}", "F").unwrap();
    let expect = Color { r: 0xaa, g: 0xbb, b: 0xcc, a: Some(0x55) };
    assert_eq!(c0, c1);
    assert_eq!(c0, expect);
    assert_eq!(c1, expect);
}

#[test]
fn plain_block() {
    let blocks = parse_to_vec("Text");
    assert_eq!(blocks.len(), 1);
    let mut expect = Block::empty(Alignment::Left);
    expect.t = "Text".to_string();
    assert_eq!(blocks[0], expect);
}

#[test]
fn fg_block() {
    let blocks = parse_to_vec("%{F:0xaabbcc}Text");
    assert_eq!(blocks.len(), 1);
    let mut expect = Block::empty(Alignment::Left);
    expect.t = "Text".to_string();
    expect.fg = Some(Color { r: 0xaa, g: 0xbb, b: 0xcc, a: None });
    assert_eq!(blocks[0], expect);
}

#[test]
fn two_fg_blocks() {
    let blocks = parse_to_vec("%{F:0xffffff}Black%{F:0x000000}White");
    assert_eq!(blocks.len(), 2);
    let mut b0 = Block::empty(Alignment::Left);
    b0.t = "Black".to_string();
    b0.fg = Some(Color { r: 0xff, g: 0xff, b: 0xff, a: None });
    assert_eq!(blocks[0], b0);
    let mut b1 = Block::empty(Alignment::Left);
    b1.t = "White".to_string();
    b1.fg = Some(Color { r: 0x00, g: 0x00, b: 0x00, a: None });
    assert_eq!(blocks[1], b1);
}

#[test]
fn alignment_conservation() {
    let blocks = parse_to_vec("%{l}%{F:0xFffFFf}left%{U:0xdeadbeef}also left%{r}right");
    assert_eq!(blocks.len(), 3);
    let mut left0 = Block::empty(Alignment::Left);
    left0.t = "left".to_string();
    left0.fg = Some(Color { r: 0xff, g: 0xff, b: 0xff, a: None });
    assert_eq!(blocks[0], left0);
    let mut left1 = Block::empty(Alignment::Left);
    left1.t = "also left".to_string();
    left1.ul = Some(Color { r: 0xde, g: 0xad, b: 0xbe, a: Some(0xef) });
    assert_eq!(blocks[1], left1);
    let mut right = Block::empty(Alignment::Right);
    right.t = "right".to_string();
    assert_eq!(blocks[2], right);
}

#[test]
fn gibberish_text_with_percents() {
    let blocks = parse_to_vec("%{F:0xFffFFf}The t% ext %{F}");
    assert_eq!(blocks.len(), 1);
    let mut expect = Block::empty(Alignment::Left);
    expect.t = "The t% ext %{F}".to_string();
    expect.fg = Some(Color { r: 0xff, g: 0xff, b: 0xff, a: None });
    assert_eq!(blocks[0], expect);
}

#[test]
fn multiple_actions() {
    let blocks = parse_to_vec(
        "%{U:0xE3B97D}%{A1:1-0-0-1}%{A2:1-0-0-2}%{A3:1-0-0-3}%{A4:1-0-0-4}%{A5:1-0-0-5}[0] music name > 84%",
    );
    assert_eq!(blocks.len(), 1);
    let mut expect = Block::empty(Alignment::Left);
    expect.t = "[0] music name > 84%".to_string();
    expect.ul = Some(Color { r: 0xe3, g: 0xb9, b: 0x7d, a: None });
    expect.actions = vec![
        Some("1-0-0-1".to_string()),
        Some("1-0-0-2".to_string()),
        Some("1-0-0-3".to_string()),
        Some("1-0-0-4".to_string()),
        Some("1-0-0-5".to_string()),
    ];
    assert_eq!(blocks[0], expect);
}

#[test]
fn fuzzed_input() {
    for input in [
        r#"k{c%{"#,
        r#"%{\u{5}"#,
        r#"%{"#,
        r#"%{c}"#,
        r#"%%{l}"#,
        r#"%`%{F0x}"#,
        r#"L}{%{U0x"#,
        r#"%%%{A5:5{A555{5{A%{ll}6"#,
    ] {
        let mut p = parse(input);
        let mut guard = 0;
        while let Some(_) = p.next() {
            guard += 1;
            assert!(guard < 4096, "infinite iterator detected");
        }
    }
}
