//! Engine for a desktop status line: block descriptors, the update
//! aggregator, the markup encoder/decoder for the two supported renderer
//! dialects, and the click-action codec.

pub mod action;
pub mod block;
pub mod color;
pub mod config;
pub mod display;
pub mod parsing;
pub mod digits;
pub mod engine;
pub mod event_loop;
pub mod events;
pub mod markup;
pub mod model;
pub mod music;
pub mod native;
pub mod one_or_more;
pub mod text;

use vstd::prelude::*;

verus! {

} // verus!
