//! The click-action codec and the markup encoder: round trips, exact
//! wire strings, and the attribute stacking order.

use lemon::action::Action;
use lemon::block::{Actions, BlockBuilder, BlockText, TaskKind, TextDecorations};
use lemon::color::Color;
use lemon::display::{render_run, Program};
use lemon::events::MouseButton;
use lemon::model::Alignment;
use lemon::parsing::Title;

#[test]
fn action_encodes_the_wire_tuple() {
    let a = Action::new(Alignment::Left, 3, 1, MouseButton::Middle);
    assert_eq!(a.encode(), "0-3-1-2".to_string());
    let a = Action::new(Alignment::Right, 12, 250, MouseButton::ScrollDown);
    assert_eq!(a.encode(), "2-12-250-5".to_string());
}

#[test]
fn action_round_trip() {
    for alignment in [Alignment::Left, Alignment::Middle, Alignment::Right] {
        for button in [
            MouseButton::Left,
            MouseButton::Middle,
            MouseButton::Right,
            MouseButton::ScrollUp,
            MouseButton::ScrollDown,
        ] {
            let a = Action::new(alignment, 17, 3, button);
            let decoded = Action::decode(a.encode().as_str()).unwrap();
            assert_eq!(decoded, a);
        }
    }
}

#[test]
fn action_decode_examples() {
    let a = Action::decode("0-3-1-2").unwrap();
    assert_eq!(a.id, (Alignment::Left, 3));
    assert_eq!(a.monitor, 1);
    assert_eq!(a.button, MouseButton::Middle);

    assert!(Action::decode("x-3-1-2").is_none());
    assert!(Action::decode("0-3-1").is_none());
    assert!(Action::decode("0-3-1-9").is_none());
    assert!(Action::decode("0-3-1-2\n").is_some());
}

fn block_with(
    decorations: TextDecorations,
    actions: Actions,
    raw: bool,
) -> lemon::block::Block {
    let mut builder = BlockBuilder::new();
    builder.decorations = Some(decorations);
    builder.raw = Some(raw);
    builder.build(
        Title { level: 2, title: "test".to_string() },
        "cmd".to_string(),
        Alignment::Left,
        actions,
        TaskKind::Static,
    )
}

#[test]
fn markup_stacking_scenario() {
    let decorations = TextDecorations {
        bg: Some(Color { r: 1, g: 2, b: 3, a: None }),
        fg: Some(Color { r: 4, g: 5, b: 6, a: None }),
        underline: Some(Color { r: 7, g: 8, b: 9, a: None }),
    };
    let mut actions = Actions::new();
    actions.set(0, "left command".to_string());
    actions.set(1, "middle command".to_string());
    let block = block_with(decorations, actions, false);
    let mut out = String::new();
    render_run(
        &mut out,
        Program::Lemonbar,
        &block,
        &BlockText { decorations: TextDecorations::none(), text: "X".to_string() },
        0,
        0,
    );
    assert_eq!(
        out,
        "%{B#010203}%{F#040506}%{U#070809}%{+u}%{A1:0-0-0-1:}%{A2:0-0-0-2:}X%{A}%{A}%{U-}%{-u}%{F-}%{B-}"
            .to_string()
    );
    // the five marks open before the body and close after it, innermost
    // first: the body stands exactly once, between the opens and closes
    let body_at = out.find('X').unwrap();
    assert_eq!(out.matches('X').count(), 1);
    let opens = &out[..body_at];
    let closes = &out[body_at + 1..];
    assert_eq!(opens.matches("%{").count(), 6); // B F U +u A1 A2
    assert_eq!(closes.matches("%{").count(), 6); // A A U- -u F- B-
}

#[test]
fn zelbar_attributes_are_self_terminating() {
    let decorations = TextDecorations {
        bg: None,
        fg: Some(Color { r: 4, g: 5, b: 6, a: None }),
        underline: None,
    };
    let block = block_with(decorations, Actions::new(), false);
    let mut out = String::new();
    render_run(
        &mut out,
        Program::Zelbar,
        &block,
        &BlockText { decorations: TextDecorations::none(), text: "X".to_string() },
        0,
        0,
    );
    assert_eq!(out, "%{F:0x040506}X".to_string());
}

#[test]
fn zelbar_raw_text_is_rewritten() {
    let block = block_with(TextDecorations::none(), Actions::new(), true);
    let mut out = String::new();
    render_run(
        &mut out,
        Program::Zelbar,
        &block,
        &BlockText {
            decorations: TextDecorations::none(),
            text: "%{F#aabbcc}hi%{+u}there%{F-}".to_string(),
        },
        0,
        0,
    );
    assert_eq!(out, "%{F:0xaabbcc}hithere".to_string());
}

#[test]
fn lemonbar_escapes_percent() {
    let block = block_with(TextDecorations::none(), Actions::new(), false);
    let mut out = String::new();
    render_run(
        &mut out,
        Program::Lemonbar,
        &block,
        &BlockText { decorations: TextDecorations::none(), text: "50% done".to_string() },
        0,
        0,
    );
    assert_eq!(out, "50%% done".to_string());
}

#[test]
fn lemonbar_raw_guards_trailing_percent() {
    let block = block_with(TextDecorations::none(), Actions::new(), true);
    let mut out = String::new();
    render_run(
        &mut out,
        Program::Lemonbar,
        &block,
        &BlockText { decorations: TextDecorations::none(), text: "84%".to_string() },
        0,
        0,
    );
    assert_eq!(out, "84%%".to_string());
}

#[test]
fn color_codes() {
    let c = Color { r: 0xd8, g: 0x00, b: 0x1c, a: None };
    assert_eq!(c.to_code(), "#D8001C".to_string());
    assert_eq!(c.to_hex(), "0xD8001C".to_string());
    let c = Color { r: 0xd8, g: 0x00, b: 0x1c, a: Some(0x55) };
    assert_eq!(c.to_code(), "#55D8001C".to_string());
    assert_eq!(c.to_hex(), "0xD8001C55".to_string());
    assert!(c.has_transparency());
}
