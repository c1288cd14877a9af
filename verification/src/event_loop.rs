//! The update aggregator: the per-monitor running state of every block,
//! the fold that applies one update to it, and the pass that renders one
//! monitor's line from it.
//!
//! This state is owned by a single consumer task; updates are applied and
//! rendered strictly in arrival order.

use vstd::prelude::*;

use crate::block::{runs_eq, runs_equal, Block, BlockText, BlockUpdate, Config};
use crate::display::{
    align_marker, any_nonempty, display_block, spec_display_block, view_sep, write_align_marker,
    Program,
};
use crate::model::{layer_matches, ActivationLayer, AffectedMonitor, Alignment};
use crate::one_or_more::OneOrMore;
use crate::text::push_char;

verus! {

/// One configured block together with the last text it rendered, one
/// slot per monitor it is active on.
#[derive(Debug)]
pub struct RunningBlock {
    pub block: Block,
    pub last_run: OneOrMore<Vec<BlockText>>,
}

/// The aggregator's whole state: the three alignment buckets.
#[derive(Debug)]
pub struct RunningConfig {
    pub left: Vec<RunningBlock>,
    pub middle: Vec<RunningBlock>,
    pub right: Vec<RunningBlock>,
}

/// The storage slot an update for `m` lands in: the single monitor's
/// slot, or — for a value shared by all monitors — the one shared slot.
pub open spec fn resolve_monitor(m: AffectedMonitor) -> u8 {
    match m {
        AffectedMonitor::Single(n) => n,
        AffectedMonitor::All => u8::MAX,
    }
}

impl RunningConfig {
    /// The bucket for one alignment.
    pub open spec fn spec_bucket(&self, a: Alignment) -> Seq<RunningBlock> {
        match a {
            Alignment::Left => self.left@,
            Alignment::Middle => self.middle@,
            Alignment::Right => self.right@,
        }
    }

    /// Every block is well formed.
    pub open spec fn wf(&self) -> bool {
        forall|a: Alignment, i: int|
            0 <= i < self.spec_bucket(a).len() ==> (#[trigger] self.spec_bucket(a)[i]).block.wf()
    }

    /// Whether every block can be read at slot `m`.
    pub open spec fn slot_ok(&self, m: u8) -> bool {
        forall|a: Alignment, i: int|
            0 <= i < self.spec_bucket(a).len() ==> (#[trigger] self.spec_bucket(
                a,
            )[i]).last_run.valid_index(m as int)
    }

    /// The runs stored for block `i` of alignment `a` at slot `m`.
    pub open spec fn spec_slot(&self, a: Alignment, i: int, m: u8) -> Seq<BlockText> {
        self.spec_bucket(a)[i].last_run.spec_at(m as int)@
    }

    /// Whether applying `u` would change the stored state: it would,
    /// unless the addressed slot already holds exactly the same runs.
    pub open spec fn spec_changed(&self, u: BlockUpdate) -> bool {
        !runs_equal(
            self.spec_slot(u.spec_id().0, u.spec_id().1 as int, resolve_monitor(u.spec_id().2)),
            u.spec_text(),
        )
    }

    /// The running state a configuration starts from: every block keeps
    /// its descriptor, with one empty text slot — grown to one empty slot
    /// per monitor for blocks declared per-monitor.
    pub fn from_config(config: Config) -> (r: RunningConfig)
        requires
            config.wf(),
        ensures
            r.wf(),
            forall|a: Alignment| r.spec_bucket(a).len() == config.spec_bucket(a).len(),
            forall|a: Alignment, i: int|
                0 <= i < r.spec_bucket(a).len() ==> (#[trigger] r.spec_bucket(a)[i]).block
                    == config.spec_bucket(a)[i],
            forall|a: Alignment, i: int, k: int|
                0 <= i < r.spec_bucket(a).len() && r.spec_bucket(a)[i].last_run.valid_index(k)
                    ==> (#[trigger] r.spec_bucket(a)[i].last_run.spec_at(k))@.len() == 0,
            forall|a: Alignment, i: int|
                0 <= i < r.spec_bucket(a).len() ==> (#[trigger] r.spec_bucket(
                    a,
                )[i]).last_run.spec_seq().len() == config.spec_bucket(a)[i].active_in.spec_monitors().len(),
    {
        let ghost cfg = config;
        let Config { left, middle, right } = config;
        proof {
            assert forall|i: int| 0 <= i < left@.len() implies (#[trigger] left@[i]).wf() by {
                assert(cfg.spec_bucket(Alignment::Left)[i].wf());
            }
            assert forall|i: int| 0 <= i < middle@.len() implies (#[trigger] middle@[i]).wf() by {
                assert(cfg.spec_bucket(Alignment::Middle)[i].wf());
            }
            assert forall|i: int| 0 <= i < right@.len() implies (#[trigger] right@[i]).wf() by {
                assert(cfg.spec_bucket(Alignment::Right)[i].wf());
            }
        }
        let left_r = running_bucket(left);
        let middle_r = running_bucket(middle);
        let right_r = running_bucket(right);
        RunningConfig { left: left_r, middle: middle_r, right: right_r }
    }

    /// How many blocks one alignment's bucket holds.
    pub fn bucket_len(&self, a: Alignment) -> (r: usize)
        ensures
            r == self.spec_bucket(a).len(),
    {
        match a {
            Alignment::Left => self.left.len(),
            Alignment::Middle => self.middle.len(),
            Alignment::Right => self.right.len(),
        }
    }

    /// Whether the slot an update for (`a`, `index`, `monitor`) lands in
    /// exists.
    pub fn slot_exists(&self, a: Alignment, index: usize, monitor: AffectedMonitor) -> (r: bool)
        requires
            index < self.spec_bucket(a).len(),
        ensures
            r == self.spec_bucket(a)[index as int].last_run.valid_index(
                resolve_monitor(monitor) as int,
            ),
    {
        let m: u8 = match monitor {
            AffectedMonitor::Single(n) => n,
            AffectedMonitor::All => u8::MAX,
        };
        let bucket: &Vec<RunningBlock> = match a {
            Alignment::Left => &self.left,
            Alignment::Middle => &self.middle,
            Alignment::Right => &self.right,
        };
        match &bucket[index].last_run {
            crate::one_or_more::OneOrMore::One(_) => true,
            crate::one_or_more::OneOrMore::More(v) => (m as usize) < v.len(),
        }
    }

    /// Applies one update: looks up the addressed slot, and either
    /// replaces its runs and reports a change, or — when the slot already
    /// holds the same runs — leaves everything untouched.
    pub fn update(&mut self, update: BlockUpdate) -> (changed: bool)
        requires
            old(self).wf(),
            update.spec_id().1 < old(self).spec_bucket(update.spec_id().0).len(),
            old(self).spec_bucket(update.spec_id().0)[update.spec_id().1 as int].last_run.valid_index(
                resolve_monitor(update.spec_id().2) as int,
            ),
        ensures
            final(self).wf(),
            changed == old(self).spec_changed(update),
            !changed ==> forall|x: Alignment|
                final(self).spec_bucket(x) == old(self).spec_bucket(x),
            changed ==> {
                let a = update.spec_id().0;
                let i = update.spec_id().1 as int;
                let m = resolve_monitor(update.spec_id().2);
                &&& forall|x: Alignment|
                    x != a ==> final(self).spec_bucket(x) == old(self).spec_bucket(x)
                &&& final(self).spec_bucket(a).len() == old(self).spec_bucket(a).len()
                &&& forall|j: int|
                    0 <= j < old(self).spec_bucket(a).len() && j != i ==> final(self).spec_bucket(
                        a,
                    )[j] == old(self).spec_bucket(a)[j]
                &&& final(self).spec_bucket(a)[i].block == old(self).spec_bucket(a)[i].block
                &&& final(self).spec_bucket(a)[i].last_run.spec_seq().len() == old(
                    self,
                ).spec_bucket(a)[i].last_run.spec_seq().len()
                &&& (final(self).spec_bucket(a)[i].last_run is One <==> old(self).spec_bucket(
                    a,
                )[i].last_run is One)
                &&& final(self).spec_slot(a, i, m) == update.spec_text()
                &&& forall|k: int|
                    old(self).spec_bucket(a)[i].last_run is More && 0 <= k < old(self).spec_bucket(
                        a,
                    )[i].last_run.spec_seq().len() && k != m ==> final(self).spec_bucket(
                        a,
                    )[i].last_run.spec_seq()[k] == old(self).spec_bucket(
                        a,
                    )[i].last_run.spec_seq()[k]
            },
    {
        let (alignment, index, monitor) = update.id();
        let m: u8 = match monitor {
            AffectedMonitor::Single(n) => n,
            AffectedMonitor::All => u8::MAX,
        };
        let bucket: &mut Vec<RunningBlock> = match alignment {
            Alignment::Left => &mut self.left,
            Alignment::Middle => &mut self.middle,
            Alignment::Right => &mut self.right,
        };
        let rb: &mut RunningBlock = &mut bucket[index];
        let new_text = update.into_inner_text();
        let stored: &Vec<BlockText> = rb.last_run.at(m as usize);
        let changed: bool;
        if runs_eq(stored, &new_text) {
            changed = false;
        } else {
            rb.last_run.set(m as usize, new_text);
            changed = true;
        }
        proof {
            let a = update.spec_id().0;
            let i = update.spec_id().1 as int;
            assert forall|x: Alignment, j: int|
                0 <= j < self.spec_bucket(x).len() implies (#[trigger] self.spec_bucket(
                x,
            )[j]).block.wf() by {
                assert(old(self).spec_bucket(x).len() == self.spec_bucket(x).len());
                assert(old(self).spec_bucket(x)[j].block.wf());
                assert(self.spec_bucket(x)[j].block == old(self).spec_bucket(x)[j].block);
            }
            if !changed {
                assert forall|x: Alignment| self.spec_bucket(x) =~= old(self).spec_bucket(
                    x,
                ) by {
                    if x == a {
                        assert(old(self).spec_bucket(a).update(i, old(self).spec_bucket(a)[i])
                            =~= old(self).spec_bucket(a));
                    }
                }
            }
        }
        changed
    }
}

/// The running state of one bucket's blocks, with empty slots.
fn running_bucket(blocks: Vec<Block>) -> (r: Vec<RunningBlock>)
    requires
        forall|i: int| 0 <= i < blocks@.len() ==> (#[trigger] blocks@[i]).wf(),
    ensures
        r@.len() == blocks@.len(),
        forall|i: int| 0 <= i < r@.len() ==> (#[trigger] r@[i]).block == blocks@[i],
        forall|i: int| 0 <= i < r@.len() ==> (#[trigger] r@[i]).block.wf(),
        forall|i: int, k: int|
            0 <= i < r@.len() && r@[i].last_run.valid_index(k)
                ==> (#[trigger] r@[i].last_run.spec_at(k))@.len() == 0,
        forall|i: int|
            0 <= i < r@.len() ==> (#[trigger] r@[i]).last_run.spec_seq().len()
                == blocks@[i].active_in.spec_monitors().len(),
{
    let mut r: Vec<RunningBlock> = Vec::new();
    let mut blocks = blocks;
    let n = blocks.len();
    let ghost orig = blocks@;
    let mut i: usize = 0;
    while i < n
        invariant
            i <= n,
            n == orig.len(),
            blocks@ =~= orig.skip(i as int),
            r@.len() == i,
            forall|j: int| 0 <= j < orig.len() ==> (#[trigger] orig[j]).wf(),
            forall|j: int| 0 <= j < i ==> (#[trigger] r@[j]).block == orig[j],
            forall|j: int, k: int|
                0 <= j < i && r@[j].last_run.valid_index(k)
                    ==> (#[trigger] r@[j].last_run.spec_at(k))@.len() == 0,
            forall|j: int|
                0 <= j < i ==> (#[trigger] r@[j]).last_run.spec_seq().len()
                    == orig[j].active_in.spec_monitors().len(),
        decreases n - i,
    {
        let block = blocks.remove(0);
        proof {
            assert(blocks@ =~= orig.skip(i + 1));
            assert(block == orig[i as int]);
        }
        let mut last_run: OneOrMore<Vec<BlockText>> = OneOrMore::one(Vec::new());
        block.active_in.resize_one_or_more(&mut last_run, Vec::new());
        proof {
            assert(forall|k: int|
                last_run.valid_index(k) ==> (#[trigger] last_run.spec_at(k))@.len() == 0);
            assert(last_run.spec_seq().len() == block.active_in.spec_monitors().len());
        }
        r.push(RunningBlock { block, last_run });
        i += 1;
    }
    r
}

// ---------------------------------------------------------------------------
// idempotence
// ---------------------------------------------------------------------------

/// Idempotence: once an update's runs are stored in its slot, the same
/// update no longer counts as a change — so applying an update twice in
/// a row stores it once, and the second application reports no change
/// and (by `update`'s contract) leaves the state untouched.
pub proof fn lemma_update_idempotent(c: RunningConfig, u: BlockUpdate)
    requires
        c.spec_slot(u.spec_id().0, u.spec_id().1 as int, resolve_monitor(u.spec_id().2))
            == u.spec_text(),
    ensures
        !c.spec_changed(u),
{
    let s = u.spec_text();
    assert(runs_equal(s, s));
}

// ---------------------------------------------------------------------------
// the render pass
// ---------------------------------------------------------------------------

/// Whether a block shows on `monitor` at `layer`: it has stored text for
/// that monitor and its activation layer matches the current layer.
pub open spec fn visible(rb: RunningBlock, monitor: u8, layer: u16) -> bool {
    rb.last_run.spec_at(monitor as int)@.len() > 0 && layer_matches(
        rb.block.layer,
        ActivationLayer::L(layer),
    )
}

/// One alignment's part of the line, from block `idx` on: each visible
/// block is rendered in declaration order, the alignment switch marker
/// appears once before the first visible block (in the lemonbar dialect;
/// zelbar marks each run instead), and a separator stands only between
/// blocks that actually wrote text.
pub open spec fn spec_blocks_from(
    prog: Program,
    al: Alignment,
    blocks: Seq<RunningBlock>,
    idx: int,
    monitor: u8,
    layer: u16,
    sep: Option<Seq<char>>,
    wrote: bool,
    align_done: bool,
) -> Seq<char>
    decreases blocks.len() - idx,
{
    if idx < 0 || idx >= blocks.len() {
        Seq::empty()
    } else {
        let rb = blocks[idx];
        if visible(rb, monitor, layer) {
            (if !align_done && prog is Lemonbar {
                align_marker(al)
            } else {
                Seq::empty()
            }) + spec_display_block(
                prog,
                al,
                rb.block,
                rb.last_run.spec_at(monitor as int)@,
                idx as usize,
                monitor,
                sep,
                wrote,
                true,
            ) + spec_blocks_from(
                prog,
                al,
                blocks,
                idx + 1,
                monitor,
                layer,
                sep,
                wrote || any_nonempty(rb.last_run.spec_at(monitor as int)@),
                true,
            )
        } else {
            spec_blocks_from(prog, al, blocks, idx + 1, monitor, layer, sep, wrote, align_done)
        }
    }
}

/// One monitor's whole line: the three alignments left to right.
pub open spec fn spec_line(
    prog: Program,
    c: RunningConfig,
    monitor: u8,
    layer: u16,
    sep: Option<Seq<char>>,
) -> Seq<char> {
    spec_blocks_from(
        prog,
        Alignment::Left,
        c.spec_bucket(Alignment::Left),
        0,
        monitor,
        layer,
        sep,
        false,
        false,
    ) + spec_blocks_from(
        prog,
        Alignment::Middle,
        c.spec_bucket(Alignment::Middle),
        0,
        monitor,
        layer,
        sep,
        false,
        false,
    ) + spec_blocks_from(
        prog,
        Alignment::Right,
        c.spec_bucket(Alignment::Right),
        0,
        monitor,
        layer,
        sep,
        false,
        false,
    )
}

/// Renders one alignment's blocks into the line.
#[verifier::rlimit(100)]
fn render_bucket(
    line: &mut String,
    prog: Program,
    al: Alignment,
    blocks: &Vec<RunningBlock>,
    monitor: u8,
    layer: u16,
    sep: &Option<String>,
)
    requires
        forall|i: int| 0 <= i < blocks@.len() ==> (#[trigger] blocks@[i]).block.wf(),
        forall|i: int|
            0 <= i < blocks@.len() ==> (#[trigger] blocks@[i]).last_run.valid_index(
                monitor as int,
            ),
    ensures
        final(line)@ == old(line)@ + spec_blocks_from(
            prog,
            al,
            blocks@,
            0,
            monitor,
            layer,
            view_sep(*sep),
            false,
            false,
        ),
{
    let ghost sv = view_sep(*sep);
    let ghost full = spec_blocks_from(prog, al, blocks@, 0, monitor, layer, sv, false, false);
    let ghost base = line@;
    let ghost mut emitted: Seq<char> = Seq::empty();
    let mut wrote = false;
    let mut align_done = false;
    let mut i: usize = 0;
    while i < blocks.len()
        invariant
            i <= blocks@.len(),
            forall|j: int| 0 <= j < blocks@.len() ==> (#[trigger] blocks@[j]).block.wf(),
            forall|j: int|
                0 <= j < blocks@.len() ==> (#[trigger] blocks@[j]).last_run.valid_index(
                    monitor as int,
                ),
            sv == view_sep(*sep),
            line@ == base + emitted,
            full == spec_blocks_from(prog, al, blocks@, 0, monitor, layer, sv, false, false),
            full =~= emitted + spec_blocks_from(
                prog,
                al,
                blocks@,
                i as int,
                monitor,
                layer,
                sv,
                wrote,
                align_done,
            ),
        decreases blocks@.len() - i,
    {
        let rb = &blocks[i];
        let stored = rb.last_run.at(monitor as usize);
        let is_visible = stored.len() > 0 && rb.block.layer.matches_value(layer);
        let ghost pre = line@;
        if is_visible {
            assert(visible(blocks@[i as int], monitor, layer));
            if !align_done {
                match prog {
                    Program::Lemonbar => write_align_marker(line, al),
                    Program::Zelbar => {},
                }
            }
            let ghost marker_part: Seq<char> = if !align_done && prog is Lemonbar {
                align_marker(al)
            } else {
                Seq::empty()
            };
            assert(line@ =~= pre + marker_part);
            let ghost w0 = wrote;
            let ghost pre2 = line@;
            display_block(line, prog, al, &mut wrote, sep, &rb.block, stored, i, monitor);
            proof {
                let rbv = blocks@[i as int];
                let runs = rbv.last_run.spec_at(monitor as int)@;
                assert(line@ =~= pre + (marker_part + spec_display_block(
                    prog,
                    al,
                    rbv.block,
                    runs,
                    i as usize,
                    monitor,
                    sv,
                    w0,
                    true,
                )));
                emitted = emitted + marker_part + spec_display_block(
                    prog,
                    al,
                    rbv.block,
                    runs,
                    i as usize,
                    monitor,
                    sv,
                    w0,
                    true,
                );
                assert(line@ =~= base + emitted);
                assert(full =~= emitted + spec_blocks_from(
                    prog,
                    al,
                    blocks@,
                    i + 1,
                    monitor,
                    layer,
                    sv,
                    w0 || any_nonempty(runs),
                    true,
                ));
                assert(wrote == (w0 || any_nonempty(runs)));
            }
            align_done = true;
        } else {
            assert(!visible(blocks@[i as int], monitor, layer));
        }
        i += 1;
    }
    assert(spec_blocks_from(
        prog,
        al,
        blocks@,
        blocks@.len() as int,
        monitor,
        layer,
        sv,
        wrote,
        align_done,
    ) =~= Seq::<char>::empty());
    assert(line@ =~= base + full);
}

/// One monitor's line, newline-terminated, rendered from the running
/// state at the current layer.
pub fn build_line(
    c: &RunningConfig,
    prog: Program,
    monitor: u8,
    layer: u16,
    sep: &Option<String>,
) -> (r: String)
    requires
        c.wf(),
        c.slot_ok(monitor),
    ensures
        r@ == spec_line(prog, *c, monitor, layer, view_sep(*sep)) + seq!['\n'],
{
    let mut line = String::new();
    proof {
        assert forall|i: int|
            0 <= i < c.left@.len() implies (#[trigger] c.left@[i]).block.wf()
                && c.left@[i].last_run.valid_index(monitor as int) by {
            assert(c.spec_bucket(Alignment::Left)[i].block.wf());
            assert(c.spec_bucket(Alignment::Left)[i].last_run.valid_index(monitor as int));
        }
        assert forall|i: int|
            0 <= i < c.middle@.len() implies (#[trigger] c.middle@[i]).block.wf()
                && c.middle@[i].last_run.valid_index(monitor as int) by {
            assert(c.spec_bucket(Alignment::Middle)[i].block.wf());
            assert(c.spec_bucket(Alignment::Middle)[i].last_run.valid_index(monitor as int));
        }
        assert forall|i: int|
            0 <= i < c.right@.len() implies (#[trigger] c.right@[i]).block.wf()
                && c.right@[i].last_run.valid_index(monitor as int) by {
            assert(c.spec_bucket(Alignment::Right)[i].block.wf());
            assert(c.spec_bucket(Alignment::Right)[i].last_run.valid_index(monitor as int));
        }
    }
    render_bucket(&mut line, prog, Alignment::Left, &c.left, monitor, layer, sep);
    render_bucket(&mut line, prog, Alignment::Middle, &c.middle, monitor, layer, sep);
    render_bucket(&mut line, prog, Alignment::Right, &c.right, monitor, layer, sep);
    push_char(&mut line, '\n');
    assert(line@ =~= spec_line(prog, *c, monitor, layer, view_sep(*sep)) + seq!['\n']);
    line
}

// ---------------------------------------------------------------------------
// layer filtering
// ---------------------------------------------------------------------------

/// The rendered part of one alignment does not depend on the stored text
/// of blocks whose activation layer does not match the current layer.
pub proof fn lemma_bucket_layer_indep(
    prog: Program,
    al: Alignment,
    b1: Seq<RunningBlock>,
    b2: Seq<RunningBlock>,
    idx: int,
    monitor: u8,
    layer: u16,
    sep: Option<Seq<char>>,
    wrote: bool,
    align_done: bool,
)
    requires
        b1.len() == b2.len(),
        forall|j: int| 0 <= j < b1.len() ==> (#[trigger] b1[j]).block == b2[j].block,
        forall|j: int|
            0 <= j < b1.len() && layer_matches((#[trigger] b1[j]).block.layer, ActivationLayer::L(layer))
                ==> b1[j] == b2[j],
    ensures
        spec_blocks_from(prog, al, b1, idx, monitor, layer, sep, wrote, align_done)
            == spec_blocks_from(prog, al, b2, idx, monitor, layer, sep, wrote, align_done),
    decreases b1.len() - idx,
{
    if 0 <= idx && idx < b1.len() {
        if layer_matches(b1[idx].block.layer, ActivationLayer::L(layer)) {
            assert(b1[idx] == b2[idx]);
            if visible(b1[idx], monitor, layer) {
                lemma_bucket_layer_indep(
                    prog,
                    al,
                    b1,
                    b2,
                    idx + 1,
                    monitor,
                    layer,
                    sep,
                    wrote || any_nonempty(b1[idx].last_run.spec_at(monitor as int)@),
                    true,
                );
            } else {
                lemma_bucket_layer_indep(
                    prog,
                    al,
                    b1,
                    b2,
                    idx + 1,
                    monitor,
                    layer,
                    sep,
                    wrote,
                    align_done,
                );
            }
        } else {
            assert(!visible(b1[idx], monitor, layer));
            assert(!visible(b2[idx], monitor, layer));
            lemma_bucket_layer_indep(
                prog,
                al,
                b1,
                b2,
                idx + 1,
                monitor,
                layer,
                sep,
                wrote,
                align_done,
            );
        }
    }
}

/// Layer filtering: a block whose activation layer does not match the
/// current layer never appears in the rendered line — the line is the
/// same whatever text such blocks have stored.
pub proof fn lemma_layer_filtering(
    prog: Program,
    c1: RunningConfig,
    c2: RunningConfig,
    monitor: u8,
    layer: u16,
    sep: Option<Seq<char>>,
)
    requires
        forall|a: Alignment| c1.spec_bucket(a).len() == c2.spec_bucket(a).len(),
        forall|a: Alignment, j: int|
            0 <= j < c1.spec_bucket(a).len() ==> (#[trigger] c1.spec_bucket(a)[j]).block
                == c2.spec_bucket(a)[j].block,
        forall|a: Alignment, j: int|
            0 <= j < c1.spec_bucket(a).len() && layer_matches(
                (#[trigger] c1.spec_bucket(a)[j]).block.layer,
                ActivationLayer::L(layer),
            ) ==> c1.spec_bucket(a)[j] == c2.spec_bucket(a)[j],
    ensures
        spec_line(prog, c1, monitor, layer, sep) == spec_line(prog, c2, monitor, layer, sep),
{
    lemma_bucket_layer_indep(
        prog,
        Alignment::Left,
        c1.spec_bucket(Alignment::Left),
        c2.spec_bucket(Alignment::Left),
        0,
        monitor,
        layer,
        sep,
        false,
        false,
    );
    lemma_bucket_layer_indep(
        prog,
        Alignment::Middle,
        c1.spec_bucket(Alignment::Middle),
        c2.spec_bucket(Alignment::Middle),
        0,
        monitor,
        layer,
        sep,
        false,
        false,
    );
    lemma_bucket_layer_indep(
        prog,
        Alignment::Right,
        c1.spec_bucket(Alignment::Right),
        c2.spec_bucket(Alignment::Right),
        0,
        monitor,
        layer,
        sep,
        false,
        false,
    );
}

} // verus!
