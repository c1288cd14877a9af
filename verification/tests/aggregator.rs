//! The update aggregator and the render pass: idempotent updates, layer
//! filtering, separators, and the task-engine decisions.

use lemon::block::{Actions, BlockBuilder, BlockUpdate, Config, TaskKind, TextDecorations};
use lemon::engine::{
    merge_output, persistent_update, static_updates, timed_reaction, TimedReaction,
};
use lemon::event_loop::{build_line, RunningConfig};
use lemon::events::{Event, MouseButton};
use lemon::display::Program;
use lemon::model::{ActivationLayer, ActiveMonitors, AffectedMonitor, Alignment};
use lemon::parsing::Title;

fn static_block(alignment: Alignment, layer: ActivationLayer) -> lemon::block::Block {
    let mut builder = BlockBuilder::new();
    builder.layer = Some(layer);
    builder.decorations = Some(TextDecorations::none());
    builder.build(
        Title { level: 2, title: "test".to_string() },
        "cmd".to_string(),
        alignment,
        Actions::new(),
        TaskKind::Static,
    )
}

fn one_block_config(alignment: Alignment, layer: ActivationLayer) -> RunningConfig {
    let mut config = Config::new();
    config.push(static_block(alignment, layer));
    RunningConfig::from_config(config)
}

#[test]
fn update_is_idempotent() {
    let mut rc = one_block_config(Alignment::Left, ActivationLayer::All);
    let update = BlockUpdate::from_string(
        "hello".to_string(),
        (Alignment::Left, 0),
        AffectedMonitor::All,
    );
    assert!(rc.update(update));
    let again = BlockUpdate::from_string(
        "hello".to_string(),
        (Alignment::Left, 0),
        AffectedMonitor::All,
    );
    let line_before = build_line(&rc, Program::Lemonbar, 0, 0, &None);
    assert!(!rc.update(again));
    let line_after = build_line(&rc, Program::Lemonbar, 0, 0, &None);
    assert_eq!(line_before, line_after);
}

#[test]
fn single_static_block_line() {
    let mut rc = one_block_config(Alignment::Left, ActivationLayer::All);
    let update = BlockUpdate::from_string(
        "CPU: 5%".to_string(),
        (Alignment::Left, 0),
        AffectedMonitor::All,
    );
    assert!(rc.update(update));
    let line = build_line(&rc, Program::Lemonbar, 0, 0, &None);
    assert!(line.starts_with("%{l}CPU: 5%"));
    assert_eq!(line, "%{l}CPU: 5%%\n".to_string());
}

#[test]
fn separator_stands_only_between_blocks() {
    let mut config = Config::new();
    config.push(static_block(Alignment::Left, ActivationLayer::All));
    config.push(static_block(Alignment::Left, ActivationLayer::All));
    let mut rc = RunningConfig::from_config(config);
    assert!(rc.update(BlockUpdate::from_string(
        "one".to_string(),
        (Alignment::Left, 0),
        AffectedMonitor::All,
    )));
    assert!(rc.update(BlockUpdate::from_string(
        "two".to_string(),
        (Alignment::Left, 1),
        AffectedMonitor::All,
    )));
    let sep = Some("|".to_string());
    let line = build_line(&rc, Program::Lemonbar, 0, 0, &sep);
    assert_eq!(line, "%{l}one|two\n".to_string());
    assert_eq!(line.matches('|').count(), 1);
}

#[test]
fn layer_filtering_scenario() {
    let mut rc = one_block_config(Alignment::Left, ActivationLayer::L(2));
    assert!(rc.update(BlockUpdate::from_string(
        "hidden".to_string(),
        (Alignment::Left, 0),
        AffectedMonitor::All,
    )));
    let at_zero = build_line(&rc, Program::Lemonbar, 0, 0, &None);
    let at_one = build_line(&rc, Program::Lemonbar, 0, 1, &None);
    let at_two = build_line(&rc, Program::Lemonbar, 0, 2, &None);
    assert_eq!(at_zero, "\n".to_string());
    assert_eq!(at_one, "\n".to_string());
    assert_eq!(at_two, "%{l}hidden\n".to_string());
}

#[test]
fn empty_blocks_render_nothing() {
    let rc = one_block_config(Alignment::Middle, ActivationLayer::All);
    let line = build_line(&rc, Program::Lemonbar, 0, 0, &None);
    assert_eq!(line, "\n".to_string());
}

#[test]
fn persistent_lines_become_updates() {
    // a persistent child that wrote three lines produces three updates,
    // each trimmed of its newline and addressed to the child's monitor
    let mut rc = one_block_config(Alignment::Left, ActivationLayer::All);
    let mut seen = 0;
    for line in ["one\n", "two\n", "three\n"] {
        let update = persistent_update(
            line.to_string(),
            (Alignment::Left, 0),
            AffectedMonitor::All,
        );
        if rc.update(update) {
            seen += 1;
        }
    }
    assert_eq!(seen, 3);
    let line = build_line(&rc, Program::Lemonbar, 0, 0, &None);
    assert_eq!(line, "%{l}three\n".to_string());
}

#[test]
fn static_task_sends_one_update_per_monitor() {
    let updates = static_updates("fixed text", (Alignment::Right, 2), ActiveMonitors::All);
    assert_eq!(updates.len(), 1);
    let updates = static_updates(
        "fixed text",
        (Alignment::Right, 2),
        ActiveMonitors::MonitorCount(3),
    );
    assert_eq!(updates.len(), 3);
    let (al, index, monitor) = updates[1].id();
    assert_eq!(al, Alignment::Right);
    assert_eq!(index, 2);
    assert!(matches!(monitor, AffectedMonitor::Single(1)));
}

#[test]
fn timed_reactions() {
    let mut actions = Actions::new();
    actions.set(0, "volume up".to_string());
    let bid = (Alignment::Left, 1);
    let click = Event::MouseClicked(bid, 0, MouseButton::Left);
    assert_eq!(
        timed_reaction(lemon::block::Signal::Off, bid, &actions, &click),
        TimedReaction::RunCommand("volume up".to_string())
    );
    let other = Event::MouseClicked((Alignment::Left, 2), 0, MouseButton::Left);
    assert_eq!(
        timed_reaction(lemon::block::Signal::Off, bid, &actions, &other),
        TimedReaction::Ignore
    );
    assert_eq!(
        timed_reaction(lemon::block::Signal::Off, bid, &actions, &Event::Signal),
        TimedReaction::Ignore
    );
    assert_eq!(
        timed_reaction(lemon::block::Signal::Any, bid, &actions, &Event::Signal),
        TimedReaction::Refresh
    );
    assert_eq!(
        timed_reaction(lemon::block::Signal::Off, bid, &actions, &Event::NewLayer),
        TimedReaction::Refresh
    );
}

#[test]
fn failed_commands_still_become_content() {
    assert_eq!(merge_output(Ok("fine\n".to_string())), "fine".to_string());
    assert_eq!(
        merge_output(Err("sh: nope: not found\n".to_string())),
        "sh: nope: not found".to_string()
    );
}

#[test]
fn layer_advances_modulo_count() {
    assert_eq!(lemon::model::next_layer(0, 3), 1);
    assert_eq!(lemon::model::next_layer(2, 3), 0);
    let mut l = ActivationLayer::L(1);
    l.next(2);
    assert!(matches!(l, ActivationLayer::L(0)));
}
