//! The configuration-file reader: colors in every written form, and
//! sections with their bullet attributes.

use lemon::color::{Color, ColorError};
use lemon::parsing::{Parser, Title};

#[test]
fn parse_short_color() {
    assert_eq!(
        Color::parse_config("#123").unwrap(),
        Color { r: 0x10, g: 0x20, b: 0x30, a: None }
    )
}

#[test]
fn parse_short_color_with_alpha() {
    assert_eq!(
        Color::parse_config("#123a").unwrap(),
        Color { r: 0x10, g: 0x20, b: 0x30, a: Some(0xa0) }
    )
}

#[test]
fn parse_long_color() {
    assert_eq!(
        Color::parse_config("#d1d2d3").unwrap(),
        Color { r: 0xd1, g: 0xd2, b: 0xd3, a: None }
    )
}

#[test]
fn parse_long_color_with_alpha() {
    assert_eq!(
        Color::parse_config("#d1d2d3ab").unwrap(),
        Color { r: 0xd1, g: 0xd2, b: 0xd3, a: Some(0xab) }
    )
}

#[test]
fn color_error_variants() {
    assert_eq!(Color::parse_config("123456"), Err(ColorError::MissingHash));
    assert_eq!(Color::parse_config("#12345"), Err(ColorError::InvalidLength));
    assert_eq!(Color::parse_config("#1g2"), Err(ColorError::InvalidDigit));
}

#[test]
fn simple() {
    let md = r#"
# Bar
- bg: `#aa222222`
        "#;
    let mut p = Parser::new(md);
    let (title, mut kvs) = p
        .next_section()
        .expect("No parse error")
        .expect("There is one section");
    assert_eq!(title, Title { title: "Bar".to_string(), level: 1 });
    assert_eq!(
        kvs.next().map(Result::unwrap),
        Some(("bg".to_string(), "#aa222222".to_string(), 1))
    );
}

#[test]
fn two_blocks() {
    let md = r#"
# Bar
- bg: `#aa222222`

## Workspaces
- cmd: `echo ola`
        "#;
    let mut p = Parser::new(md);
    let (title, mut kvs) = p
        .next_section()
        .expect("No parse error")
        .expect("There is one section");
    assert_eq!(title, Title { title: "Bar".to_string(), level: 1 });
    assert_eq!(
        kvs.next().map(Result::unwrap),
        Some(("bg".to_string(), "#aa222222".to_string(), 1))
    );
    let (title, mut kvs) = p
        .next_section()
        .expect("No parse error")
        .expect("There is a second section");
    assert_eq!(title, Title { title: "Workspaces".to_string(), level: 2 });
    assert_eq!(
        kvs.next().map(Result::unwrap),
        Some(("cmd".to_string(), "echo ola".to_string(), 1))
    );
}

#[test]
fn nested_bullets() {
    let md = r#"
# Bar
- bg: `#aa222222`

## Workspaces
- cmd: `echo ola`
  - nested: `bullet`
        "#;
    let mut p = Parser::new(md);
    let (title, mut kvs) = p
        .next_section()
        .expect("No parse error")
        .expect("There is one section");
    assert_eq!(title, Title { title: "Bar".to_string(), level: 1 });
    assert_eq!(
        kvs.next().map(Result::unwrap),
        Some(("bg".to_string(), "#aa222222".to_string(), 1))
    );
    let (title, mut kvs) = p
        .next_section()
        .expect("No parse error")
        .expect("There is one section");
    assert_eq!(title, Title { title: "Workspaces".to_string(), level: 2 });
    let mut collected = Vec::new();
    while let Some(item) = kvs.next() {
        collected.push(item.unwrap());
    }
    assert_eq!(
        collected,
        vec![
            ("cmd".to_string(), "echo ola".to_string(), 1),
            ("nested".to_string(), "bullet".to_string(), 2),
        ]
    );
}

#[test]
fn trailing_ws() {
    let md = r#"
# Bar
- bg: `#aa222222`


        "#;

    let mut p = Parser::new(md);
    let (title, mut kvs) = p
        .next_section()
        .expect("No parse error")
        .expect("There is one section");
    assert_eq!(title, Title { title: "Bar".to_string(), level: 1 });
    assert_eq!(
        kvs.next().map(Result::unwrap),
        Some(("bg".to_string(), "#aa222222".to_string(), 1))
    );
}

#[test]
fn leading_ws() {
    let md = r#"



# Bar
- bg: `#aa222222`"#;

    let mut p = Parser::new(md);
    let (title, mut kvs) = p
        .next_section()
        .expect("No parse error")
        .expect("There is one section");
    assert_eq!(title, Title { title: "Bar".to_string(), level: 1 });
    assert_eq!(
        kvs.next().map(Result::unwrap),
        Some(("bg".to_string(), "#aa222222".to_string(), 1))
    );
}

#[test]
fn three_blocks() {
    let md = r#"
# Bar
- a: b

## W
- c: d


## D
- e: f
        "#;
    let mut p = Parser::new(md);
    let (title, mut kvs) = p
        .next_section()
        .expect("No parse error")
        .expect("There is one section");
    assert_eq!(title, Title { title: "Bar".to_string(), level: 1 });
    assert_eq!(kvs.next().map(Result::unwrap), Some(("a".to_string(), "b".to_string(), 1)));
    let (title, mut kvs) = p
        .next_section()
        .expect("No parse error")
        .expect("There is one section");
    assert_eq!(title, Title { title: "W".to_string(), level: 2 });
    assert_eq!(kvs.next().map(Result::unwrap), Some(("c".to_string(), "d".to_string(), 1)));
    let (title, mut kvs) = p
        .next_section()
        .expect("No parse error")
        .expect("There is one section");
    assert_eq!(title, Title { title: "D".to_string(), level: 2 });
    assert_eq!(kvs.next().map(Result::unwrap), Some(("e".to_string(), "f".to_string(), 1)));
}

#[test]
fn whole_file_parse() {
    let md = "# Bar\n- bg: `#aa222222`\n- separator: `|`\n\n## Cpu\n- cmd: `echo cpu`\n- interval: 5\n- alignment: left\n- layer: 2\n";
    let overrides = lemon::config::GlobalConfig {
        file_config: lemon::config::FileConfig::new(),
        cmdline: lemon::config::CommandLineConfig::new(),
        n_layers: 0,
    };
    let (gc, blocks) = lemon::parsing::parse(md, overrides, 34, 64).unwrap();
    assert_eq!(gc.n_layers, 3);
    assert_eq!(gc.file_config.separator, Some("|".to_string()));
    assert_eq!(blocks.left.len(), 1);
    assert_eq!(blocks.left[0].cmd, "echo cpu".to_string());
    assert!(matches!(blocks.left[0].task, lemon::block::TaskKind::Timed(5)));
    assert!(matches!(
        blocks.left[0].layer,
        lemon::model::ActivationLayer::L(2)
    ));
}

#[test]
fn palette_uppercases_env_names() {
    let mut fc = lemon::config::FileConfig::new();
    let old = fc.set_color("blue", Color { r: 1, g: 2, b: 3, a: None });
    assert_eq!(old, None);
    let gc = lemon::config::GlobalConfig {
        file_config: fc,
        cmdline: lemon::config::CommandLineConfig::new(),
        n_layers: 1,
    };
    let vars = gc.as_env_vars(
        lemon::model::AffectedMonitor::Single(0),
        lemon::model::ActivationLayer::L(300),
    );
    assert!(vars.contains(&("LEMON_BLUE".to_string(), "#010203".to_string())));
    assert!(vars.contains(&("LEMON_LAYER".to_string(), "300".to_string())));
    let vars = gc.as_env_vars(
        lemon::model::AffectedMonitor::All,
        lemon::model::ActivationLayer::All,
    );
    assert!(vars.contains(&("LEMON_MONITOR".to_string(), "all".to_string())));
    assert!(vars.contains(&("LEMON_LAYER".to_string(), "all".to_string())));
}

#[test]
fn renderer_command_lines() {
    let mut fc = lemon::config::FileConfig::new();
    fc.height = Some(24);
    fc.bottom = true;
    fc.fonts = vec!["mono:size=10".to_string(), "emoji".to_string()];
    fc.underline_width = Some(2);
    fc.background = Some(Color { r: 0x18, g: 0x18, b: 0x18, a: None });
    let mut gc = lemon::config::GlobalConfig {
        file_config: fc,
        cmdline: lemon::config::CommandLineConfig::new(),
        n_layers: 1,
    };

    gc.cmdline.program = lemon::display::Program::Lemonbar;
    let args = gc.to_arg_list(None, Some((1920, 1080)));
    assert_eq!(
        args,
        vec![
            "-a".to_string(),
            "255".to_string(),
            "-d".to_string(),
            "-b".to_string(),
            "-f".to_string(),
            "mono:size=10".to_string(),
            "-f".to_string(),
            "emoji".to_string(),
            "-u".to_string(),
            "2".to_string(),
            "-B".to_string(),
            "#181818".to_string(),
            "-g".to_string(),
            "1920x24+1080+0".to_string(),
        ]
    );

    gc.cmdline.program = lemon::display::Program::Zelbar;
    let args = gc.to_arg_list(Some("DP-1"), None);
    assert_eq!(
        args,
        vec![
            "-g".to_string(),
            "0:24".to_string(),
            "-o".to_string(),
            "DP-1".to_string(),
            "-btm".to_string(),
            "-fn".to_string(),
            "mono:size=10,emoji".to_string(),
            "-lh".to_string(),
            "2".to_string(),
            "-B".to_string(),
            "0x181818".to_string(),
        ]
    );
}
