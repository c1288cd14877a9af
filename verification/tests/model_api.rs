//! The model vocabulary: alignments, monitors, layers, storage slots,
//! button bitsets and validated attributes.

use lemon::block::{
    Actions, AvailableActions, BlockBuilder, BlockUpdate, Config, Font, Offset, TaskKind,
    TextDecorations,
};
use lemon::event_loop::{build_line, RunningConfig};
use lemon::parsing::Title;
use lemon::display::Program;
use lemon::events::MouseButton;
use lemon::model::{ActivationLayer, ActiveMonitors, AffectedMonitor, Alignment};
use lemon::color::Color;
use lemon::music;
use lemon::one_or_more::OneOrMore;

#[test]
fn alignment_indices() {
    assert_eq!(Alignment::Left.to_index(), 0);
    assert_eq!(Alignment::Middle.to_index(), 1);
    assert_eq!(Alignment::Right.to_index(), 2);
    assert_eq!(Alignment::from_index(1), Alignment::Middle);
    assert_eq!(Alignment::from_name("middle"), Some(Alignment::Middle));
    assert_eq!(Alignment::from_name("Left"), Some(Alignment::Left));
    assert_eq!(Alignment::from_name("centre"), None);
}

#[test]
fn layers_match_permissively() {
    assert!(ActivationLayer::All.matches_value(7));
    assert!(ActivationLayer::L(7).matches_value(7));
    assert!(!ActivationLayer::L(7).matches_value(6));
    assert!(ActivationLayer::All.matches(&ActivationLayer::L(3)));
    assert!(ActivationLayer::L(3).matches(&ActivationLayer::All));
}

#[test]
fn monitors_enumerate() {
    assert_eq!(ActiveMonitors::All.monitors(), vec![AffectedMonitor::All]);
    assert_eq!(
        ActiveMonitors::MonitorCount(3).monitors(),
        vec![
            AffectedMonitor::Single(0),
            AffectedMonitor::Single(1),
            AffectedMonitor::Single(2),
        ]
    );
    assert_eq!(ActiveMonitors::MonitorCount(3).len(), 3);
    assert_eq!(AffectedMonitor::All.single(), None);
    assert_eq!(AffectedMonitor::Single(2).single(), Some(2));
}

#[test]
fn one_or_more_grows_per_monitor() {
    let mut slots: OneOrMore<Vec<u8>> = OneOrMore::one(Vec::new());
    ActiveMonitors::All.resize_one_or_more(&mut slots, Vec::new());
    assert_eq!(slots.len(), 1);
    ActiveMonitors::MonitorCount(3).resize_one_or_more(&mut slots, Vec::new());
    assert_eq!(slots.len(), 3);
    slots.set(1, vec![7]);
    assert_eq!(slots.at(1), &vec![7]);
    assert_eq!(slots.at(0), &Vec::<u8>::new());
    let mut iter = slots.iter();
    assert_eq!(iter.next(), Some(&Vec::new()));
    assert_eq!(iter.next(), Some(&vec![7]));
    assert_eq!(iter.next(), Some(&Vec::new()));
    assert_eq!(iter.next(), None);
    slots.push(vec![9]);
    assert_eq!(slots.len(), 4);
}

#[test]
fn shared_slot_answers_every_index() {
    let mut slot: OneOrMore<u8> = OneOrMore::one(5);
    assert_eq!(*slot.at(0), 5);
    assert_eq!(*slot.at(200), 5);
    slot.set(31, 9);
    assert_eq!(*slot.at(0), 9);
}

#[test]
fn button_bitset() {
    let mut actions = AvailableActions::none();
    actions.set(0);
    actions.set(4);
    assert!(actions.has(0));
    assert!(!actions.has(1));
    assert_eq!(
        actions.iter(),
        vec![MouseButton::Left, MouseButton::ScrollDown]
    );
    let mut all = AvailableActions::none();
    all.set_all(&vec![true, true, true, true, true]);
    assert_eq!(all.iter().len(), 5);
}

#[test]
fn font_and_offset_validation() {
    assert!(Font::try_new("-").is_some());
    assert!(Font::try_new("3").is_some());
    assert!(Font::try_new("0").is_none());
    assert!(Font::try_new("big").is_none());
    assert!(Offset::try_new("0").is_some());
    assert!(Offset::try_new("12").is_some());
    assert!(Offset::try_new("-3").is_none());
    assert!(Offset::try_new("wide").is_none());
}

#[test]
fn program_names() {
    assert_eq!(Program::from_name("lemonbar"), Some(Program::Lemonbar));
    assert_eq!(Program::from_name("zelbar"), Some(Program::Zelbar));
    assert_eq!(Program::from_name("swaybar"), None);
    assert_eq!(Program::Lemonbar.as_str(), "lemonbar");
    assert_eq!(Program::Zelbar.as_str(), "zelbar");
}

#[test]
fn zelbar_line_marks_every_run() {
    let mut config = Config::new();
    for _ in 0..2 {
        let mut builder = BlockBuilder::new();
        builder.decorations = Some(TextDecorations::none());
        config.push(builder.build(
            Title { level: 2, title: "z".to_string() },
            "cmd".to_string(),
            Alignment::Left,
            Actions::new(),
            TaskKind::Static,
        ));
    }
    let mut rc = RunningConfig::from_config(config);
    assert!(rc.update(BlockUpdate::from_string(
        "one".to_string(),
        (Alignment::Left, 0),
        AffectedMonitor::All,
    )));
    assert!(rc.update(BlockUpdate::from_string(
        "two".to_string(),
        (Alignment::Left, 1),
        AffectedMonitor::All,
    )));
    let sep = Some("|".to_string());
    let line = build_line(&rc, Program::Zelbar, 0, 0, &sep);
    assert_eq!(line, "%{l}one%{l}|%{l}two\n".to_string());
}

#[test]
fn music_title_shapes_bar_text() {
    let mut runs = Vec::new();
    music::Title::simple("short song".to_string()).to_decorated_text(&mut runs, 0, Color::blue());
    assert_eq!(runs.len(), 1);
    assert_eq!(runs[0].text, "short song".to_string());

    let mut runs = Vec::new();
    let long = "a very long title that keeps going";
    music::Title::simple(long.to_string()).to_decorated_text(&mut runs, 1, Color::blue());
    assert_eq!(runs[0].text, "a very long title ...".to_string());

    let mut runs = Vec::new();
    let title = music::Title {
        media_title: Some("video".to_string()),
        chapter: Some("song".to_string()),
    };
    title.to_decorated_text(&mut runs, 0, Color::blue());
    assert_eq!(runs.len(), 4);
    assert_eq!(runs[0].text, "Video:".to_string());
    assert_eq!(runs[0].decorations.fg, Some(Color::blue()));
    assert_eq!(runs[1].text, " video ".to_string());
    assert_eq!(runs[2].text, "Song:".to_string());
    assert_eq!(runs[3].text, " song ".to_string());

    let mut runs = Vec::new();
    music::Title { media_title: None, chapter: Some("x".to_string()) }
        .to_decorated_text(&mut runs, 0, Color::blue());
    assert!(runs.is_empty());
}
