//! The basic vocabulary of the status line: bar alignments, activation
//! layers, monitor addressing, and the per-alignment index counters that
//! assign block ids at startup.

use vstd::prelude::*;

use crate::text::str_eq;

verus! {

// ---------------------------------------------------------------------------
// Alignment
// ---------------------------------------------------------------------------

/// One of the three regions of the bar.
#[derive(Debug, Copy, Clone, PartialEq, Eq, Hash, Structural)]
pub enum Alignment {
    Left,
    Middle,
    Right,
}

impl Alignment {
    /// The wire index of the region: left 0, middle 1, right 2.
    pub open spec fn spec_index(self) -> nat {
        match self {
            Alignment::Left => 0,
            Alignment::Middle => 1,
            Alignment::Right => 2,
        }
    }

    /// The wire index of the region.
    pub fn to_index(self) -> (r: u8)
        ensures
            r == self.spec_index(),
            r < 3,
    {
        match self {
            Alignment::Left => 0,
            Alignment::Middle => 1,
            Alignment::Right => 2,
        }
    }

    /// The region with wire index `x`.
    pub fn from_index(x: u8) -> (r: Alignment)
        requires
            x < 3,
        ensures
            r.spec_index() == x,
    {
        if x == 0 {
            Alignment::Left
        } else if x == 1 {
            Alignment::Middle
        } else {
            Alignment::Right
        }
    }

    /// All three regions, left to right.
    pub fn all() -> (r: Vec<Alignment>)
        ensures
            r@ == seq![Alignment::Left, Alignment::Middle, Alignment::Right],
    {
        let mut v: Vec<Alignment> = Vec::new();
        v.push(Alignment::Left);
        v.push(Alignment::Middle);
        v.push(Alignment::Right);
        assert(v@ =~= seq![Alignment::Left, Alignment::Middle, Alignment::Right]);
        v
    }

    /// The region a configuration file names, or `None`.
    pub fn from_name(s: &str) -> (r: Option<Alignment>)
        ensures
            r == Some(Alignment::Left) <==> (s@ == "left"@ || s@ == "Left"@),
            r == Some(Alignment::Middle) <==> (s@ == "middle"@ || s@ == "Middle"@),
            r == Some(Alignment::Right) <==> (s@ == "right"@ || s@ == "Right"@),
            r is None <==> !(s@ == "left"@ || s@ == "Left"@ || s@ == "middle"@ || s@ == "Middle"@
                || s@ == "right"@ || s@ == "Right"@),
    {
        proof {
            reveal_strlit("left");
            reveal_strlit("Left");
            reveal_strlit("middle");
            reveal_strlit("Middle");
            reveal_strlit("right");
            reveal_strlit("Right");
        }
        proof {
            assert("middle"@[0] == 'm' && "Middle"@[0] == 'M');
            assert("left"@[0] == 'l' && "Left"@[0] == 'L');
            assert("right"@[0] == 'r' && "Right"@[0] == 'R');
            assert("left"@.len() == 4 && "Left"@.len() == 4);
            assert("middle"@.len() == 6 && "Middle"@.len() == 6);
            assert("right"@.len() == 5 && "Right"@.len() == 5);
        }
        if str_eq(s, "left") || str_eq(s, "Left") {
            Some(Alignment::Left)
        } else if str_eq(s, "middle") || str_eq(s, "Middle") {
            Some(Alignment::Middle)
        } else if str_eq(s, "right") || str_eq(s, "Right") {
            Some(Alignment::Right)
        } else {
            None
        }
    }
}

// ---------------------------------------------------------------------------
// Layers
// ---------------------------------------------------------------------------

/// The visibility group a block belongs to: every layer, or one layer.
#[derive(Debug, Clone, Copy, Structural, PartialEq, Eq)]
pub enum ActivationLayer {
    All,
    L(u16),
}

/// Whether two layer values agree: `All` agrees with everything, two
/// concrete layers agree when they are the same number.
pub open spec fn layer_matches(a: ActivationLayer, b: ActivationLayer) -> bool {
    match (a, b) {
        (ActivationLayer::All, _) => true,
        (_, ActivationLayer::All) => true,
        (ActivationLayer::L(l1), ActivationLayer::L(l2)) => l1 == l2,
    }
}

impl ActivationLayer {
    /// Whether this layer value agrees with `other`.
    pub fn matches(&self, other: &ActivationLayer) -> (r: bool)
        ensures
            r == layer_matches(*self, *other),
    {
        match (self, other) {
            (ActivationLayer::All, _) => true,
            (_, ActivationLayer::All) => true,
            (ActivationLayer::L(l1), ActivationLayer::L(l2)) => l1 == l2,
        }
    }

    /// Whether this layer value agrees with the concrete layer `n`.
    pub fn matches_value(&self, n: u16) -> (r: bool)
        ensures
            r == layer_matches(*self, ActivationLayer::L(n)),
    {
        self.matches(&ActivationLayer::L(n))
    }

    /// Advances a concrete layer cyclically below `bound`.
    pub fn next(&mut self, bound: u16)
        requires
            *old(self) is L,
            old(self)->L_0 < u16::MAX,
            bound > 0,
        ensures
            *final(self) == ActivationLayer::L(((old(self)->L_0 + 1) % (bound as int)) as u16),
    {
        match self {
            ActivationLayer::L(n) => {
                let next: u16 = (*n + 1) % bound;
                *self = ActivationLayer::L(next);
            },
            ActivationLayer::All => {
                proof {
                    assert(false);
                }
            },
        }
    }
}

/// The process-wide current layer is a number, advanced modulo the
/// configured layer count by the layer-change signal alone.
pub fn next_layer(current: u16, n_layers: u16) -> (r: u16)
    requires
        current < u16::MAX,
        n_layers > 0,
    ensures
        r == (current + 1) % (n_layers as int),
{
    (current + 1) % n_layers
}

// ---------------------------------------------------------------------------
// Monitors
// ---------------------------------------------------------------------------

/// The monitor an update addresses: every output, or one output.
#[derive(Debug, Clone, Copy, PartialEq, Eq, Structural)]
pub enum AffectedMonitor {
    All,
    Single(u8),
}

impl AffectedMonitor {
    /// The single monitor index, or `None` for a value shared by all.
    pub fn single(self) -> (r: Option<u8>)
        ensures
            self is All ==> r is None,
            self is Single ==> r == Some(self->Single_0),
    {
        match self {
            AffectedMonitor::All => None,
            AffectedMonitor::Single(s) => Some(s),
        }
    }

    /// The monitor addressing a single output.
    pub fn from_index(value: u8) -> (r: Self)
        ensures
            r == AffectedMonitor::Single(value),
    {
        AffectedMonitor::Single(value)
    }
}

/// Whether a block produces one shared value or one value per output.
#[derive(Debug, Clone, Copy, PartialEq, Eq, Structural)]
pub enum ActiveMonitors {
    All,
    MonitorCount(u8),
}

impl ActiveMonitors {
    /// A declared monitor count must be positive.
    pub open spec fn wf(self) -> bool {
        match self {
            ActiveMonitors::All => true,
            ActiveMonitors::MonitorCount(n) => n > 0,
        }
    }

    /// The monitors a task of this block must address: the shared `All`
    /// slot, or each single output in turn.
    pub open spec fn spec_monitors(self) -> Seq<AffectedMonitor> {
        match self {
            ActiveMonitors::All => seq![AffectedMonitor::All],
            ActiveMonitors::MonitorCount(n) => Seq::new(
                n as nat,
                |i: int| AffectedMonitor::Single(i as u8),
            ),
        }
    }

    /// The monitors a task of this block must address.
    pub fn monitors(&self) -> (r: Vec<AffectedMonitor>)
        ensures
            r@ == self.spec_monitors(),
    {
        match self {
            ActiveMonitors::All => {
                let mut v: Vec<AffectedMonitor> = Vec::new();
                v.push(AffectedMonitor::All);
                assert(v@ =~= self.spec_monitors());
                v
            },
            ActiveMonitors::MonitorCount(n) => {
                let mut v: Vec<AffectedMonitor> = Vec::new();
                let mut i: u8 = 0;
                let count: u8 = *n;
                while i < count
                    invariant
                        i <= count,
                        v@ == self.spec_monitors().take(i as int),
                        *self matches ActiveMonitors::MonitorCount(c) && c == count,
                    decreases count - i,
                {
                    v.push(AffectedMonitor::Single(i));
                    assert(v@ =~= self.spec_monitors().take(i + 1));
                    i += 1;
                }
                assert(v@ =~= self.spec_monitors());
                v
            },
        }
    }

    /// How many update slots the block needs.
    pub fn len(&self) -> (r: usize)
        requires
            self.wf(),
        ensures
            r == self.spec_monitors().len(),
            r >= 1,
    {
        match self {
            ActiveMonitors::All => 1,
            ActiveMonitors::MonitorCount(n) => *n as usize,
        }
    }

    /// Grows per-monitor storage to one slot per declared monitor; a block
    /// active on all outputs keeps its single shared slot.
    pub fn resize_one_or_more<T: Clone>(
        self,
        one_or_more: &mut crate::one_or_more::OneOrMore<T>,
        fill: T,
    )
        ensures
            self is All ==> *final(one_or_more) == *old(one_or_more),
            self matches ActiveMonitors::MonitorCount(n) ==> {
                &&& n <= 1 ==> *final(one_or_more) == *old(one_or_more)
                &&& n > 1 ==> {
                    &&& final(one_or_more).spec_seq().len() == n
                    &&& forall|i: int|
                        0 <= i < old(one_or_more).spec_seq().len() && i < n
                            ==> final(one_or_more).spec_seq()[i] == old(one_or_more).spec_seq()[i]
                    &&& forall|i: int|
                        old(one_or_more).spec_seq().len() <= i < n ==> cloned::<T>(
                            fill,
                            #[trigger] final(one_or_more).spec_seq()[i],
                        )
                }
            },
    {
        match self {
            ActiveMonitors::All => (),
            ActiveMonitors::MonitorCount(m) => {
                one_or_more.resize_with(m as usize, fill);
            },
        }
    }
}

// ---------------------------------------------------------------------------
// Indexes
// ---------------------------------------------------------------------------

/// The per-alignment counters that hand out block indices in declaration
/// order at startup.
#[derive(Copy, Clone, Debug, PartialEq, Eq, Structural)]
pub struct Indexes {
    pub left: usize,
    pub middle: usize,
    pub right: usize,
}

impl Indexes {
    /// The counter for one alignment.
    pub open spec fn spec_counter(self, alignment: Alignment) -> nat {
        match alignment {
            Alignment::Left => self.left as nat,
            Alignment::Middle => self.middle as nat,
            Alignment::Right => self.right as nat,
        }
    }

    /// Fresh counters, all zero.
    pub fn new() -> (r: Indexes)
        ensures
            forall|a: Alignment| r.spec_counter(a) == 0,
    {
        Indexes { left: 0, middle: 0, right: 0 }
    }

    /// Hands out the next index for `alignment` and advances its counter;
    /// the other counters do not move.
    pub fn get(&mut self, alignment: Alignment) -> (r: usize)
        requires
            old(self).spec_counter(alignment) < usize::MAX,
        ensures
            r == old(self).spec_counter(alignment),
            final(self).spec_counter(alignment) == old(self).spec_counter(alignment) + 1,
            forall|a: Alignment|
                a != alignment ==> final(self).spec_counter(a) == old(self).spec_counter(a),
    {
        match alignment {
            Alignment::Left => {
                let i = self.left;
                self.left = self.left + 1;
                i
            },
            Alignment::Middle => {
                let i = self.middle;
                self.middle = self.middle + 1;
                i
            },
            Alignment::Right => {
                let i = self.right;
                self.right = self.right + 1;
                i
            },
        }
    }
}

} // verus!
