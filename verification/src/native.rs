//! The native block implementations the configuration can name. Their
//! behavior lives outside this crate, next to the other I/O; here they
//! are only named and selected.

use vstd::prelude::*;

use crate::block::{NativeKind, TaskKind};
use crate::text::str_eq;

verus! {

/// The music-player block.
#[derive(Debug, Clone, Copy)]
pub struct Music;

/// The clock block.
#[derive(Debug, Clone, Copy)]
pub struct Clock;

/// The compositor-workspaces block.
#[derive(Debug, Clone, Copy)]
pub struct HyprLand;

/// The task a native block name stands for: `m` is the music player,
/// `clock` the clock, `hyprland` the compositor workspaces.
pub fn new(cmd: &str) -> (r: Option<TaskKind>)
    ensures
        r == Some(TaskKind::Native(NativeKind::Music)) <==> cmd@ == "m"@,
        r == Some(TaskKind::Native(NativeKind::Clock)) <==> cmd@ == "clock"@,
        r == Some(TaskKind::Native(NativeKind::HyprLand)) <==> cmd@ == "hyprland"@,
        r is None <==> !(cmd@ == "m"@ || cmd@ == "clock"@ || cmd@ == "hyprland"@),
{
    proof {
        reveal_strlit("m");
        reveal_strlit("clock");
        reveal_strlit("hyprland");
        assert("m"@.len() == 1 && "clock"@.len() == 5 && "hyprland"@.len() == 8);
    }
    if str_eq(cmd, "m") {
        Some(TaskKind::Native(NativeKind::Music))
    } else if str_eq(cmd, "clock") {
        Some(TaskKind::Native(NativeKind::Clock))
    } else if str_eq(cmd, "hyprland") {
        Some(TaskKind::Native(NativeKind::HyprLand))
    } else {
        None
    }
}

} // verus!
