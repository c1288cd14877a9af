//! The decision core of the three task strategies. The surrounding
//! loops — timers, child processes, channel waits — run outside this
//! crate; they feed every event and every command result through these
//! functions and perform exactly the actions decided here.

use vstd::prelude::*;

use crate::action::strip_trailing_newlines;
use crate::block::{Actions, BlockUpdate, Signal};
use crate::events::{BlockId, Event};
use crate::model::{layer_matches, ActivationLayer, ActiveMonitors};
use crate::text::str_to_chars;

verus! {

/// Whether two block ids address the same block.
pub fn block_id_eq(a: BlockId, b: BlockId) -> (r: bool)
    ensures
        r == (a == b),
{
    let same = a.0 == b.0 && a.1 == b.1;
    proof {
        if a.0 == b.0 && a.1 == b.1 {
            assert(a == b);
        }
    }
    same
}

/// The command a click event asks this block to run: the event must be a
/// click on this very block, with a button that has a configured
/// command. Any other event asks for nothing.
pub fn click_command<'a>(actions: &'a Actions, bid: BlockId, event: &Event) -> (r: Option<
    &'a String,
>)
    requires
        actions.wf(),
    ensures
        match r {
            Some(cmd) => *event matches Event::MouseClicked(id, _, button) && id == bid
                && actions.spec_for_button(button.spec_number()) == Some(*cmd),
            None => !(*event matches Event::MouseClicked(id, _, button) && id == bid
                && actions.spec_for_button(button.spec_number()) is Some),
        },
{
    match event {
        Event::MouseClicked(id, _, button) => {
            if block_id_eq(*id, bid) {
                actions.for_button(*button)
            } else {
                None
            }
        },
        Event::Signal => None,
        Event::NewLayer => None,
    }
}

/// What a timed task does next.
#[derive(Debug, Clone, PartialEq)]
pub enum TimedReaction {
    /// Run this button command to completion, discarding its output; no
    /// re-render is forced.
    RunCommand(String),
    /// Re-run the block's own command and push the result.
    Refresh,
    /// Nothing.
    Ignore,
}

/// How a timed block reacts to one event: a click on it with a
/// configured button runs that command; the shared refresh signal
/// refreshes it only if it opted in; a layer change always refreshes; a
/// timer lapse (no event) also refreshes, which the caller signals by
/// passing no event at all.
pub fn timed_reaction(signal: Signal, bid: BlockId, actions: &Actions, event: &Event) -> (r:
    TimedReaction)
    requires
        actions.wf(),
    ensures
        match r {
            TimedReaction::RunCommand(cmd) => *event matches Event::MouseClicked(id, _, button)
                && id == bid && actions.spec_for_button(button.spec_number()) == Some(cmd),
            TimedReaction::Refresh => (*event is NewLayer) || (*event is Signal && !(signal
                is Off)),
            TimedReaction::Ignore => match *event {
                Event::MouseClicked(id, _, button) => !(id == bid && actions.spec_for_button(
                    button.spec_number(),
                ) is Some),
                Event::Signal => signal is Off,
                Event::NewLayer => false,
            },
        },
{
    match event {
        Event::MouseClicked(_, _, _) => {
            match click_command(actions, bid, event) {
                Option::Some(cmd) => TimedReaction::RunCommand(cmd.clone()),
                Option::None => TimedReaction::Ignore,
            }
        },
        Event::Signal => {
            if signal.is_some() {
                TimedReaction::Refresh
            } else {
                TimedReaction::Ignore
            }
        },
        Event::NewLayer => TimedReaction::Refresh,
    }
}

/// Whether a timed block runs its command at all right now: only when
/// the current layer matches its activation layer; otherwise the whole
/// refresh is skipped.
pub fn should_refresh(activation_layer: ActivationLayer, current_layer: u16) -> (r: bool)
    ensures
        r == layer_matches(activation_layer, ActivationLayer::L(current_layer)),
{
    activation_layer.matches_value(current_layer)
}

/// Removes the trailing newlines of a command's output.
pub fn trim_new_lines(s: &mut String)
    ensures
        final(s)@ == strip_trailing_newlines(old(s)@),
{
    let mut chars = str_to_chars(s.as_str());
    let ghost orig = s@;
    loop
        invariant
            strip_trailing_newlines(chars@) == strip_trailing_newlines(orig),
        ensures
            chars@ == strip_trailing_newlines(orig),
        decreases chars@.len(),
    {
        if chars.len() == 0 {
            break ;
        }
        let last = chars[chars.len() - 1];
        if last != '\n' {
            break ;
        }
        let ghost before = chars@;
        chars.pop();
        proof {
            assert(before.drop_last() =~= chars@);
        }
    }
    *s = crate::text::chars_to_string(&chars);
}

/// A command's outcome folded into bar text: a failing command's error
/// text becomes the block's visible content instead of aborting the
/// task. Trailing newlines are removed either way.
pub fn merge_output(r: Result<String, String>) -> (out: String)
    ensures
        match r {
            Ok(t) => out@ == strip_trailing_newlines(t@),
            Err(e) => out@ == strip_trailing_newlines(e@),
        },
{
    let mut text = match r {
        Result::Ok(t) => t,
        Result::Err(e) => e,
    };
    trim_new_lines(&mut text);
    text
}

/// The updates a static block sends when it starts: its literal
/// configured text, once per monitor it is active on.
pub fn static_updates(cmd: &str, bid: BlockId, monitors: ActiveMonitors) -> (r: Vec<BlockUpdate>)
    ensures
        r@.len() == monitors.spec_monitors().len(),
        forall|i: int|
            0 <= i < r@.len() ==> {
                &&& (#[trigger] r@[i]).spec_id() == (
                    bid.0,
                    bid.1,
                    monitors.spec_monitors()[i],
                )
                &&& r@[i].spec_text().len() == 1
                &&& r@[i].spec_text()[0].text@ == cmd@
            },
{
    let mons = monitors.monitors();
    let mut r: Vec<BlockUpdate> = Vec::new();
    let mut i: usize = 0;
    while i < mons.len()
        invariant
            i <= mons@.len(),
            mons@ == monitors.spec_monitors(),
            r@.len() == i,
            forall|j: int|
                0 <= j < i ==> {
                    &&& (#[trigger] r@[j]).spec_id() == (bid.0, bid.1, mons@[j])
                    &&& r@[j].spec_text().len() == 1
                    &&& r@[j].spec_text()[0].text@ == cmd@
                },
        decreases mons@.len() - i,
    {
        let text = cmd.to_owned();
        r.push(BlockUpdate::from_string(text, bid, mons[i]));
        i += 1;
    }
    r
}

/// The update a persistent block's child sends for one line it wrote:
/// the line, trimmed of trailing newlines, addressed to the monitor the
/// child runs for.
pub fn persistent_update(line: String, bid: BlockId, monitor: crate::model::AffectedMonitor) -> (r:
    BlockUpdate)
    ensures
        r.spec_id() == (bid.0, bid.1, monitor),
        r.spec_text().len() == 1,
        r.spec_text()[0].text@ == strip_trailing_newlines(line@),
{
    let mut line = line;
    trim_new_lines(&mut line);
    BlockUpdate::from_string(line, bid, monitor)
}

} // verus!
