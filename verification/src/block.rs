//! Block descriptors and the values they produce: the immutable per-block
//! configuration, the text runs a task emits, and the update that carries
//! them to the aggregator.

use vstd::prelude::*;

use crate::color::Color;
use crate::digits::{all_digits, digits_val, parse_u64_digits};
use crate::events::{BlockId, MouseButton};
use crate::model::{ActivationLayer, ActiveMonitors, AffectedMonitor, Alignment};
use crate::parsing::Title;
use crate::text::{str_eq, str_to_chars};
use vstd::pervasive::VecAdditionalExecFns;

verus! {

// ---------------------------------------------------------------------------
// decorations and text runs
// ---------------------------------------------------------------------------

/// Per-run-of-text colors, distinct from the block-level ones: one update
/// may carry several differently decorated runs.
#[derive(Debug, PartialEq, Eq, Clone, Copy, Structural)]
pub struct TextDecorations {
    pub bg: Option<Color>,
    pub fg: Option<Color>,
    pub underline: Option<Color>,
}

impl TextDecorations {
    /// No colors set.
    pub fn none() -> (r: TextDecorations)
        ensures
            r == (TextDecorations { bg: None, fg: None, underline: None }),
    {
        TextDecorations { bg: None, fg: None, underline: None }
    }

    /// Whether no color at all is set.
    pub fn is_default(&self) -> (r: bool)
        ensures
            r == (self.bg is None && self.fg is None && self.underline is None),
            r == (*self == TextDecorations { bg: None, fg: None, underline: None }),
    {
        self.bg.is_none() && self.fg.is_none() && self.underline.is_none()
    }
}

impl Default for TextDecorations {
    /// No colors set.
    fn default() -> (r: Self)
        ensures
            r == (TextDecorations { bg: None, fg: None, underline: None }),
    {
        TextDecorations { bg: None, fg: None, underline: None }
    }
}

/// One run of text with its decorations.
#[derive(Debug, Clone)]
pub struct BlockText {
    pub decorations: TextDecorations,
    pub text: String,
}

impl BlockText {
    /// An undecorated run.
    pub fn plain(text: String) -> (r: BlockText)
        ensures
            r.decorations == (TextDecorations { bg: None, fg: None, underline: None }),
            r.text == text,
    {
        BlockText { decorations: TextDecorations::none(), text }
    }

    /// Whether the run holds no text.
    pub fn is_empty(&self) -> (r: bool)
        ensures
            r == (self.text@.len() == 0),
    {
        self.text.as_str().is_empty()
    }
}

impl PartialEq for BlockText {
    /// Two runs are equal when their decorations and their text agree.
    fn eq(&self, other: &Self) -> (r: bool) {
        self.decorations == other.decorations && self.text == other.text
    }
}

impl Eq for BlockText {

}

impl vstd::std_specs::cmp::PartialEqSpecImpl for BlockText {
    open spec fn obeys_eq_spec() -> bool {
        true
    }

    open spec fn eq_spec(&self, other: &Self) -> bool {
        self.decorations == other.decorations && self.text@ == other.text@
    }
}

/// Whether two run lists are equal as the aggregator compares them:
/// same decorations and same characters, run by run.
pub open spec fn runs_equal(a: Seq<BlockText>, b: Seq<BlockText>) -> bool {
    a.len() == b.len() && forall|i: int|
        0 <= i < a.len() ==> (#[trigger] a[i]).decorations == b[i].decorations && a[i].text@
            == b[i].text@
}

/// Compares two run lists.
pub fn runs_eq(a: &Vec<BlockText>, b: &Vec<BlockText>) -> (r: bool)
    ensures
        r == runs_equal(a@, b@),
{
    if a.len() != b.len() {
        return false;
    }
    let mut i: usize = 0;
    while i < a.len()
        invariant
            i <= a@.len(),
            a@.len() == b@.len(),
            forall|j: int|
                0 <= j < i ==> (#[trigger] a@[j]).decorations == b@[j].decorations && a@[j].text@
                    == b@[j].text@,
        decreases a@.len() - i,
    {
        let ax = &a[i];
        let bx = &b[i];
        if !(ax.decorations == bx.decorations) {
            return false;
        }
        if !ax.text.eq(&bx.text) {
            return false;
        }
        i += 1;
    }
    true
}

// ---------------------------------------------------------------------------
// updates
// ---------------------------------------------------------------------------

/// A rendered value for one block: its text runs and the monitor they
/// are for. Produced by a task, consumed once by the aggregator.
#[derive(Debug)]
pub struct BlockUpdate {
    text: Vec<BlockText>,
    alignment: Alignment,
    index: usize,
    monitor: AffectedMonitor,
}

impl BlockUpdate {
    /// The runs carried.
    pub closed spec fn spec_text(&self) -> Seq<BlockText> {
        self.text@
    }

    /// The block addressed.
    pub closed spec fn spec_id(&self) -> (Alignment, usize, AffectedMonitor) {
        (self.alignment, self.index, self.monitor)
    }

    /// An update carrying `text` for block `id` on `monitor`.
    pub fn new(text: Vec<BlockText>, id: BlockId, monitor: AffectedMonitor) -> (r: BlockUpdate)
        ensures
            r.spec_text() == text@,
            r.spec_id() == (id.0, id.1, monitor),
    {
        BlockUpdate { text, alignment: id.0, index: id.1, monitor }
    }

    /// An update carrying one undecorated run.
    pub fn from_string(text: String, id: BlockId, monitor: AffectedMonitor) -> (r: BlockUpdate)
        ensures
            r.spec_text().len() == 1,
            r.spec_text()[0].text == text,
            r.spec_text()[0].decorations == (TextDecorations { bg: None, fg: None, underline: None }),
            r.spec_id() == (id.0, id.1, monitor),
    {
        let mut runs: Vec<BlockText> = Vec::new();
        runs.push(BlockText::plain(text));
        BlockUpdate { text: runs, alignment: id.0, index: id.1, monitor }
    }

    /// Surrenders the runs.
    pub fn into_inner_text(self) -> (r: Vec<BlockText>)
        ensures
            r@ == self.spec_text(),
    {
        self.text
    }

    /// The addressed block and monitor.
    pub fn id(&self) -> (r: (Alignment, usize, AffectedMonitor))
        ensures
            r == self.spec_id(),
    {
        (self.alignment, self.index, self.monitor)
    }
}

// ---------------------------------------------------------------------------
// signals
// ---------------------------------------------------------------------------

/// Whether a block reacts to the shared refresh signal, to a private
/// signal number, or to neither.
#[derive(Clone, Copy, Debug, PartialEq, Eq, Structural)]
pub enum Signal {
    Off,
    Any,
    Num(i32),
}

impl Signal {
    /// Whether any signal is configured.
    pub fn is_some(&self) -> (r: bool)
        ensures
            r == !(*self is Off),
    {
        match self {
            Signal::Off => false,
            Signal::Any => true,
            Signal::Num(_) => true,
        }
    }
}

impl Default for Signal {
    /// No signal configured.
    fn default() -> (r: Self)
        ensures
            r == Signal::Off,
    {
        Signal::Off
    }
}

/// Whether `x` is a valid private signal offset on a platform whose
/// real-time signals run from `rt_min` up to (but excluding) `rt_max`:
/// the offset signal must stay strictly below the ceiling.
pub fn valid_rt_signum(rt_min: i32, rt_max: i32, x: i32) -> (r: bool)
    ensures
        r == (rt_min + x < rt_max),
{
    (rt_min as i64) + (x as i64) < (rt_max as i64)
}

// ---------------------------------------------------------------------------
// click actions of a block
// ---------------------------------------------------------------------------

/// The commands configured for the five mouse buttons, in button order.
#[derive(Debug, Clone)]
pub struct Actions {
    pub entries: Vec<Option<String>>,
}

impl Actions {
    /// There is exactly one entry per button.
    pub open spec fn wf(&self) -> bool {
        self.entries@.len() == 5
    }

    /// The command for the button with wire number `n`.
    pub open spec fn spec_for_button(&self, n: nat) -> Option<String>
        recommends
            1 <= n <= 5,
    {
        self.entries@[n - 1]
    }

    /// No commands configured.
    pub fn new() -> (r: Actions)
        ensures
            r.wf(),
            forall|i: int| 0 <= i < 5 ==> r.entries@[i] is None,
    {
        let mut entries: Vec<Option<String>> = Vec::new();
        let mut i: usize = 0;
        while i < 5
            invariant
                i <= 5,
                entries@.len() == i,
                forall|j: int| 0 <= j < i ==> entries@[j] is None,
            decreases 5 - i,
        {
            entries.push(None);
            i += 1;
        }
        Actions { entries }
    }

    /// Configures `cmd` for the button at position `index` (0 for left
    /// click through 4 for scroll down).
    pub fn set(&mut self, index: usize, cmd: String)
        requires
            old(self).wf(),
            index < 5,
        ensures
            final(self).wf(),
            final(self).entries@ == old(self).entries@.update(index as int, Some(cmd)),
    {
        self.entries.set(index, Some(cmd));
    }

    /// The command for `button`, if one is configured.
    pub fn for_button(&self, button: MouseButton) -> (r: Option<&String>)
        requires
            self.wf(),
        ensures
            match r {
                Some(cmd) => self.spec_for_button(button.spec_number()) == Some(*cmd),
                None => self.spec_for_button(button.spec_number()) is None,
            },
    {
        let idx = (button.to_number() - 1) as usize;
        self.entries[idx].as_ref()
    }
}

/// The set of buttons that have a configured action, as a bitset; bit
/// `i` stands for the button with wire number `i + 1`.
#[derive(Copy, Clone, Debug)]
pub struct AvailableActions(pub u8);

impl AvailableActions {
    /// Whether bit `i` is set.
    pub open spec fn spec_has(self, i: nat) -> bool {
        i < 8 && (self.0 >> (i as u8)) & 1 == 1
    }

    /// No buttons.
    pub fn none() -> (r: AvailableActions)
        ensures
            forall|i: nat| !r.spec_has(i),
    {
        let r = AvailableActions(0);
        proof {
            assert(forall|i: u8| i < 8 ==> (0u8 >> i) & 1 == 0) by (bit_vector);
        }
        r
    }

    /// Marks button bit `index`.
    pub fn set(&mut self, index: u8)
        requires
            index < 6,
        ensures
            forall|i: nat|
                #[trigger] final(self).spec_has(i) <==> (old(self).spec_has(i) || i == index),
    {
        let ghost x = self.0;
        let ghost ix = index;
        self.0 = self.0 | (1u8 << index);
        proof {
            assert(forall|j: u8|
                j < 8 && ix < 8 ==> ((x | (1u8 << ix)) >> j) & 1 == (if j == ix {
                    1u8
                } else {
                    (x >> j) & 1
                })) by (bit_vector);
        }
    }

    /// Whether bit `i` is set.
    pub fn has(&self, i: u8) -> (r: bool)
        requires
            i < 8,
        ensures
            r == self.spec_has(i as nat),
    {
        (self.0 >> i) & 1 == 1
    }

    /// Marks every bit whose flag is true.
    pub fn set_all(&mut self, flags: &Vec<bool>)
        requires
            flags@.len() <= 5,
        ensures
            forall|i: nat|
                #[trigger] final(self).spec_has(i) <==> (old(self).spec_has(i) || (i < flags@.len()
                    && flags@[i as int])),
    {
        let mut i: usize = 0;
        while i < flags.len()
            invariant
                i <= flags@.len(),
                flags@.len() <= 5,
                forall|k: nat|
                    #[trigger] self.spec_has(k) <==> (old(self).spec_has(k) || (k < i && flags@[k
                        as int])),
            decreases flags@.len() - i,
        {
            if flags[i] {
                self.set(i as u8);
            }
            i += 1;
        }
    }

    /// The buttons whose bit is set, in button-number order.
    pub open spec fn spec_buttons_from(self, i: nat) -> Seq<MouseButton>
        decreases 5 - i,
    {
        if i >= 5 {
            Seq::empty()
        } else {
            (if self.spec_has(i) {
                seq![
                    if i == 0 {
                        MouseButton::Left
                    } else if i == 1 {
                        MouseButton::Middle
                    } else if i == 2 {
                        MouseButton::Right
                    } else if i == 3 {
                        MouseButton::ScrollUp
                    } else {
                        MouseButton::ScrollDown
                    },
                ]
            } else {
                Seq::empty()
            }) + self.spec_buttons_from((i + 1) as nat)
        }
    }

    /// The buttons whose bit is set, in button-number order.
    pub fn iter(self) -> (r: Vec<MouseButton>)
        ensures
            r@ == self.spec_buttons_from(0),
    {
        let mut v: Vec<MouseButton> = Vec::new();
        let mut i: u8 = 0;
        while i < 5
            invariant
                i <= 5,
                self.spec_buttons_from(0) == v@ + self.spec_buttons_from(i as nat),
            decreases 5 - i,
        {
            let ghost before = v@;
            if self.has(i) {
                v.push(MouseButton::from_number(i + 1));
                proof {
                    let b = self.spec_buttons_from(i as nat)[0];
                    assert(v@ =~= before.push(b));
                    assert(before + self.spec_buttons_from(i as nat) =~= v@
                        + self.spec_buttons_from(i as nat + 1));
                }
            } else {
                proof {
                    assert(before + self.spec_buttons_from(i as nat) =~= v@
                        + self.spec_buttons_from(i as nat + 1));
                }
            }
            i += 1;
        }
        proof {
            assert(self.spec_buttons_from(5) =~= Seq::<MouseButton>::empty());
            assert(v@ + self.spec_buttons_from(5) =~= v@);
        }
        v
    }

    /// The set of buttons that have a configured action.
    pub fn from_actions(actions: &Actions) -> (r: AvailableActions)
        requires
            actions.wf(),
        ensures
            forall|i: nat|
                #[trigger] r.spec_has(i) <==> (i < 5 && actions.entries@[i as int] is Some),
    {
        let mut r = AvailableActions::none();
        let mut i: usize = 0;
        while i < 5
            invariant
                i <= 5,
                actions.wf(),
                forall|k: nat|
                    #[trigger] r.spec_has(k) <==> (k < i && actions.entries@[k as int] is Some),
            decreases 5 - i,
        {
            if actions.entries[i].is_some() {
                r.set(i as u8);
            }
            i += 1;
        }
        r
    }
}

// ---------------------------------------------------------------------------
// fonts and offsets
// ---------------------------------------------------------------------------

/// A font choice: either the reset marker `-` or a positive index.
#[derive(Clone, Debug)]
pub struct Font(pub String);

/// Whether `s` is a valid font argument: the reset marker, or a positive
/// index that fits a `u32`.
pub open spec fn valid_font(s: Seq<char>) -> bool {
    s == "-"@ || (s.len() > 0 && all_digits(s) && 0 < digits_val(s) <= u32::MAX)
}

impl Font {
    /// Accepts `s` as a font if it is the reset marker or a positive
    /// index.
    pub fn try_new(s: &str) -> (r: Option<Font>)
        ensures
            r is Some <==> valid_font(s@),
            r matches Some(f) ==> f.0@ == s@,
    {
        proof {
            reveal_strlit("-");
        }
        if str_eq(s, "-") {
            return Some(Font(s.to_owned()));
        }
        let chars = str_to_chars(s);
        match parse_u64_digits(chars.as_slice()) {
            Option::Some(v) => {
                if 0 < v && v <= u32::MAX as u64 {
                    Some(Font(s.to_owned()))
                } else {
                    None
                }
            },
            Option::None => {
                proof {
                    if s@.len() > 0 && all_digits(s@) {
                        assert(digits_val(s@) > u64::MAX);
                    }
                }
                None
            },
        }
    }
}

/// A horizontal pixel offset, validated to be a `u32`.
#[derive(Clone, Debug)]
pub struct Offset(pub String);

/// Whether `s` is a valid offset argument: a number that fits a `u32`.
pub open spec fn valid_offset(s: Seq<char>) -> bool {
    s.len() > 0 && all_digits(s) && digits_val(s) <= u32::MAX
}

impl Offset {
    /// Accepts `s` as an offset if it is a `u32` number.
    pub fn try_new(s: &str) -> (r: Option<Offset>)
        ensures
            r is Some <==> valid_offset(s@),
            r matches Some(f) ==> f.0@ == s@,
    {
        let chars = str_to_chars(s);
        match parse_u64_digits(chars.as_slice()) {
            Option::Some(v) => {
                if v <= u32::MAX as u64 {
                    Some(Offset(s.to_owned()))
                } else {
                    None
                }
            },
            Option::None => {
                proof {
                    if s@.len() > 0 && all_digits(s@) {
                        assert(digits_val(s@) > u64::MAX);
                    }
                }
                None
            },
        }
    }
}

// ---------------------------------------------------------------------------
// preconditions and tasks
// ---------------------------------------------------------------------------

/// A condition checked before a block starts; the check itself is I/O and
/// happens outside this crate.
#[derive(Clone, Debug)]
pub enum Precondition {
    FileExists(String),
}

/// A native block implementation, named in the configuration file.
#[derive(Clone, Copy, Debug, PartialEq, Eq, Structural)]
pub enum NativeKind {
    Music,
    Clock,
    HyprLand,
}

/// How a block's task runs: one static value, a command re-run on a
/// timer, a long-lived streaming command, or a native implementation.
#[derive(Clone, Copy, Debug, PartialEq, Eq, Structural)]
pub enum TaskKind {
    Static,
    /// The refresh interval, in seconds.
    Timed(u64),
    Persistent,
    Native(NativeKind),
}

// ---------------------------------------------------------------------------
// the block itself
// ---------------------------------------------------------------------------

/// An immutable block descriptor, created once at configuration time.
#[derive(Debug)]
pub struct Block {
    pub decorations: TextDecorations,
    pub font: Option<Font>,
    pub offset: Option<Offset>,
    pub raw: bool,
    pub layer: ActivationLayer,
    pub active_in: ActiveMonitors,
    pub signal: Signal,
    pub precondition: Option<Precondition>,
    pub title: Title,
    pub alignment: Alignment,
    pub available_actions: Actions,
    pub cmd: String,
    pub task: TaskKind,
}

impl Block {
    /// A well-formed block has a positive monitor count and one action
    /// entry per button.
    pub open spec fn wf(&self) -> bool {
        self.active_in.wf() && self.available_actions.wf()
    }
}

/// Collects a block's optional attributes while a configuration section
/// is read; `build` fills everything still unset with its default.
#[derive(Debug)]
pub struct BlockBuilder {
    pub decorations: Option<TextDecorations>,
    pub font: Option<Font>,
    pub offset: Option<Offset>,
    pub raw: Option<bool>,
    pub layer: Option<ActivationLayer>,
    pub active_in: Option<ActiveMonitors>,
    pub signal: Option<Signal>,
    pub precondition: Option<Precondition>,
}

impl BlockBuilder {
    /// Nothing set yet.
    pub fn new() -> (r: BlockBuilder)
        ensures
            r.decorations is None,
            r.font is None,
            r.offset is None,
            r.raw is None,
            r.layer is None,
            r.active_in is None,
            r.signal is None,
            r.precondition is None,
    {
        BlockBuilder {
            decorations: None,
            font: None,
            offset: None,
            raw: None,
            layer: None,
            active_in: None,
            signal: None,
            precondition: None,
        }
    }

    /// Whether a signal was configured.
    pub fn has_signal(&self) -> (r: bool)
        ensures
            r == (self.signal matches Some(s) && !(s is Off)),
    {
        match &self.signal {
            Option::Some(s) => s.is_some(),
            Option::None => false,
        }
    }

    /// The finished block: every attribute still unset takes its default
    /// (no decorations, no font, no offset, cooked text, every layer, the
    /// shared monitor slot, no signal, no precondition).
    pub fn build(
        self,
        title: Title,
        cmd: String,
        alignment: Alignment,
        available_actions: Actions,
        task: TaskKind,
    ) -> (r: Block)
        ensures
            r.decorations == (if self.decorations is Some {
                self.decorations->0
            } else {
                TextDecorations { bg: None, fg: None, underline: None }
            }),
            r.font == self.font,
            r.offset == self.offset,
            r.raw == (if self.raw is Some {
                self.raw->0
            } else {
                false
            }),
            r.layer == (if self.layer is Some {
                self.layer->0
            } else {
                ActivationLayer::All
            }),
            r.active_in == (if self.active_in is Some {
                self.active_in->0
            } else {
                ActiveMonitors::All
            }),
            r.signal == (if self.signal is Some {
                self.signal->0
            } else {
                Signal::Off
            }),
            r.precondition == self.precondition,
            r.title == title,
            r.alignment == alignment,
            r.available_actions == available_actions,
            r.cmd == cmd,
            r.task == task,
    {
        let raw = match self.raw {
            Option::Some(b) => b,
            Option::None => false,
        };
        let decorations = match self.decorations {
            Option::Some(d) => d,
            Option::None => TextDecorations::none(),
        };
        let layer = match self.layer {
            Option::Some(l) => l,
            Option::None => ActivationLayer::All,
        };
        let active_in = match self.active_in {
            Option::Some(m) => m,
            Option::None => ActiveMonitors::All,
        };
        let signal = match self.signal {
            Option::Some(s) => s,
            Option::None => Signal::Off,
        };
        Block {
            decorations,
            font: self.font,
            offset: self.offset,
            raw,
            layer,
            active_in,
            signal,
            precondition: self.precondition,
            title,
            alignment,
            available_actions,
            cmd,
            task,
        }
    }
}

// ---------------------------------------------------------------------------
// the configured blocks
// ---------------------------------------------------------------------------

/// Every configured block, in declaration order, in its alignment
/// bucket.
#[derive(Debug)]
pub struct Config {
    pub left: Vec<Block>,
    pub middle: Vec<Block>,
    pub right: Vec<Block>,
}

impl Config {
    /// The bucket for one alignment.
    pub open spec fn spec_bucket(&self, a: Alignment) -> Seq<Block> {
        match a {
            Alignment::Left => self.left@,
            Alignment::Middle => self.middle@,
            Alignment::Right => self.right@,
        }
    }

    /// Every block in every bucket is well formed.
    pub open spec fn wf(&self) -> bool {
        forall|a: Alignment, i: int|
            0 <= i < self.spec_bucket(a).len() ==> (#[trigger] self.spec_bucket(a)[i]).wf()
    }

    /// No blocks yet.
    pub fn new() -> (r: Config)
        ensures
            forall|a: Alignment| r.spec_bucket(a).len() == 0,
            r.wf(),
    {
        Config { left: Vec::new(), middle: Vec::new(), right: Vec::new() }
    }

    /// The bucket for one alignment.
    pub fn bucket(&self, a: Alignment) -> (r: &Vec<Block>)
        ensures
            r@ == self.spec_bucket(a),
    {
        match a {
            Alignment::Left => &self.left,
            Alignment::Middle => &self.middle,
            Alignment::Right => &self.right,
        }
    }

    /// Appends a block to its alignment's bucket.
    pub fn push(&mut self, block: Block)
        ensures
            final(self).spec_bucket(block.alignment) == old(self).spec_bucket(
                block.alignment,
            ).push(block),
            forall|a: Alignment|
                a != block.alignment ==> final(self).spec_bucket(a) == old(self).spec_bucket(a),
    {
        match block.alignment {
            Alignment::Left => self.left.push(block),
            Alignment::Middle => self.middle.push(block),
            Alignment::Right => self.right.push(block),
        }
    }
}

} // verus!
