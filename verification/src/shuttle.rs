//! The walk engine: drives a visitor across a multi-level table hierarchy.
//!
//! The shuttle holds the frames of every table the walk may touch in one
//! arena, and the visitor's `translate` turns the physical page number an
//! entry names into the index of that table's frame. The walk steers
//! towards the visitor's target, descends through live sub-table entries,
//! reports obstructions, and hands every reached entry to the visitor.
//!
//! What the engine does is pinned by its contracts. Each walk returns a
//! ghost log of its visitor interactions, and ensures that the log
//! replays — [`spec_replay`], one [`spec_step`]-prescribed step at a
//! time — from the first target to the returned one, carrying the old
//! arena into the new: every entry handed over is the one at the selected
//! slot of the live frame at that moment, descents enter exactly the
//! frames [`PageTableShuttle::child_frame`] accepts at the computed base,
//! and the arena changes exactly by the logged rewrites and
//! materializations, one slot at a time through
//! [`PageTableShuttle::write_slot`]. Which targets and entries the
//! visitor answers with is the visitor's business and deliberately
//! unconstrained.

use crate::addr::{spec_index_in, VPN};
use crate::meta::MmuMeta;
use crate::pos::Pos;
use crate::pte::Pte;
use crate::visit::{Decorator, Update, Visitor};
use vstd::arithmetic::power2::pow2;
use vstd::prelude::*;

verus! {

/// A page-table hierarchy ready to be walked: an arena of entry frames and
/// the index of the root table's frame.
pub struct PageTableShuttle {
    frames: Vec<Vec<Pte>>,
    root: usize,
}

/// What the engine does at one step within a frame, decided by the frame's
/// coordinates, the target, and the entry the target's page selects.
#[derive(Clone, Copy, Debug, PartialEq, Eq, Structural)]
pub enum Step {
    /// The target lies outside the frame's range or above its level: the
    /// walk leaves the frame.
    Unwind,
    /// The entry at this index is the target entry: it goes to the
    /// visitor's `arrive`.
    Arrive(usize),
    /// The entry at this index is a valid sub-table pointer above the
    /// target's level: the walk descends through it.
    Descend(usize),
    /// The entry at this index blocks the way down — invalid, or a leaf
    /// above the target's level: it goes to the visitor's `meet`.
    Obstruct(usize),
}

/// The number of pages of the whole virtual address space.
pub open spec fn spec_space_pages(m: &MmuMeta) -> nat {
    pow2((m.spec_v_bits() - m.page_bits) as nat)
}

/// The target lies within a frame based at page `base` on `level`: no
/// higher than the level, and its page inside the frame's page range.
pub open spec fn spec_in_frame(m: &MmuMeta, base: u64, level: int, t: Pos) -> bool {
    &&& t.level <= level
    &&& base <= t.vpn@
    &&& t.vpn@ < base + m.spec_pages_in_table(level)
}

/// The step a frame with entries `fr`, based at `base` on `level`, takes
/// towards target `t`; the selected entry is the one at the target page's
/// index in the frame.
pub open spec fn spec_step(m: &MmuMeta, fr: Seq<Pte>, base: u64, level: int, t: Pos) -> Step {
    if !spec_in_frame(m, base, level, t) {
        Step::Unwind
    } else {
        let index = spec_index_in(m, t.vpn@, level) as usize;
        if t.level == level {
            Step::Arrive(index)
        } else if m.spec_is_valid(fr[index as int].raw) && !m.spec_is_leaf(fr[index as int].raw) {
            Step::Descend(index)
        } else {
            Step::Obstruct(index)
        }
    }
}

/// One table frame on a walk's descent path: which arena frame it is, the
/// first page it covers, and its level.
pub struct WalkFrame {
    /// Index of the frame in the arena.
    pub fidx: usize,
    /// First virtual page the frame covers.
    pub base: u64,
    /// The frame's table level.
    pub level: usize,
}

/// One visitor interaction of a walk, as a walk's log records it: what the
/// engine handed over and what the visitor answered.
pub enum WalkStep {
    /// `arrive` got the entry `pte` (frame `f`, slot `i`); `wrote` is what
    /// the slot holds afterwards and `next` the answered target.
    Arrive { f: usize, i: usize, pte: Pte, wrote: Pte, next: Pos },
    /// `meet` got the blocking entry `pte` (frame `f`, slot `i`) and
    /// answered the target `next`.
    Meet { f: usize, i: usize, pte: Pte, next: Pos },
    /// `meet` got the blocking entry `pte` (frame `f`, slot `i`) and
    /// answered a materialization: `wrote` goes into the slot and the walk
    /// turns to arena frame `child`.
    Materialize { f: usize, i: usize, pte: Pte, wrote: Pte, child: usize },
    /// `translate` was asked where the sub-table entry `pte` (frame `f`,
    /// slot `i`) points and gave `answer`.
    Translate { f: usize, i: usize, pte: Pte, answer: Option<usize> },
    /// The step budget ran out: the walk stopped on the sentinel.
    GaveUp,
}

/// A walk's whole machine state, as the log replayer tracks it: the
/// arena's entries, the stack of frames the walk is inside (deepest last),
/// the current target, and the remaining step budget.
pub struct WalkState {
    /// Entries of every arena frame.
    pub arena: Seq<Seq<Pte>>,
    /// The frames the walk is inside, the root first.
    pub stack: Seq<WalkFrame>,
    /// The target the walk pursues.
    pub target: Pos,
    /// The remaining step budget.
    pub fuel: u64,
}

/// Frame `child` of `arena` can serve as the child table one level under
/// a level-`level` frame: it exists and holds one level-`level - 1` table.
pub open spec fn spec_child_ok(m: &MmuMeta, arena: Seq<Seq<Pte>>, child: usize, level: int) -> bool {
    &&& child < arena.len()
    &&& arena[child as int].len() == pow2(m.level_bits@[level - 1] as nat)
}

/// The first page covered by the child table under slot `i` of frame `fr`.
pub open spec fn spec_child_base(m: &MmuMeta, fr: WalkFrame, i: usize) -> u64 {
    ((fr.base + i * m.spec_pages_in_table(fr.level as int - 1)) as u64)
}

/// Pops every frame, deepest first, that the target has left; what remains
/// is the stack of frames still being walked, whose deepest frame the next
/// step works on.
pub open spec fn spec_unwound(
    m: &MmuMeta,
    arena: Seq<Seq<Pte>>,
    stack: Seq<WalkFrame>,
    t: Pos,
) -> Seq<WalkFrame>
    decreases stack.len(),
{
    if stack.len() == 0 {
        stack
    } else {
        let top = stack.last();
        if spec_step(m, arena[top.fidx as int], top.base, top.level as int, t) is Unwind {
            spec_unwound(m, arena, stack.drop_last(), t)
        } else {
            stack
        }
    }
}

/// Replays one logged interaction against a machine state: checks that the
/// interaction is exactly the one the engine owes in that state — the step
/// [`spec_step`] prescribes, on the entry at the selected slot of the
/// deepest live frame, with the budget not yet spent — and returns the
/// state after it, or `None` for an interaction the engine would never
/// produce.
pub open spec fn spec_replay_one(m: &MmuMeta, s: WalkState, ev: WalkStep) -> Option<WalkState> {
    let live = spec_unwound(m, s.arena, s.stack, s.target);
    if live.len() == 0 {
        Option::None
    } else {
        let top = live.last();
        let fr = s.arena[top.fidx as int];
        let st = spec_step(m, fr, top.base, top.level as int, s.target);
        match ev {
            WalkStep::GaveUp => {
                if s.fuel == 0 {
                    Option::Some(
                        WalkState {
                            arena: s.arena,
                            stack: live,
                            target: crate::pos::spec_stop(m),
                            fuel: 0,
                        },
                    )
                } else {
                    Option::None
                }
            },
            WalkStep::Arrive { f, i, pte, wrote, next } => {
                if s.fuel > 0 && f == top.fidx && st == Step::Arrive(i) && pte == fr[i as int] {
                    Option::Some(
                        WalkState {
                            arena: s.arena.update(top.fidx as int, fr.update(i as int, wrote)),
                            stack: live,
                            target: next,
                            fuel: (s.fuel - 1) as u64,
                        },
                    )
                } else {
                    Option::None
                }
            },
            WalkStep::Meet { f, i, pte, next } => {
                if s.fuel > 0 && f == top.fidx && st == Step::Obstruct(i) && pte == fr[
                    i as int
                ] {
                    Option::Some(
                        WalkState {
                            arena: s.arena,
                            stack: live,
                            target: next,
                            fuel: (s.fuel - 1) as u64,
                        },
                    )
                } else {
                    Option::None
                }
            },
            WalkStep::Materialize { f, i, pte, wrote, child } => {
                if s.fuel > 0 && f == top.fidx && st == Step::Obstruct(i) && pte == fr[
                    i as int
                ] {
                    let arena2 = s.arena.update(top.fidx as int, fr.update(i as int, wrote));
                    if spec_child_ok(m, arena2, child, top.level as int) {
                        Option::Some(
                            WalkState {
                                arena: arena2,
                                stack: live.push(
                                    WalkFrame {
                                        fidx: child,
                                        base: spec_child_base(m, top, i),
                                        level: (top.level - 1) as usize,
                                    },
                                ),
                                target: s.target,
                                fuel: (s.fuel - 1) as u64,
                            },
                        )
                    } else {
                        Option::Some(
                            WalkState {
                                arena: arena2,
                                stack: live,
                                target: crate::pos::spec_stop(m),
                                fuel: (s.fuel - 1) as u64,
                            },
                        )
                    }
                } else {
                    Option::None
                }
            },
            WalkStep::Translate { f, i, pte, answer } => {
                if s.fuel > 0 && f == top.fidx && st == Step::Descend(i) && pte == fr[
                    i as int
                ] {
                    match answer {
                        Option::Some(c) => {
                            if spec_child_ok(m, s.arena, c, top.level as int) {
                                Option::Some(
                                    WalkState {
                                        arena: s.arena,
                                        stack: live.push(
                                            WalkFrame {
                                                fidx: c,
                                                base: spec_child_base(m, top, i),
                                                level: (top.level - 1) as usize,
                                            },
                                        ),
                                        target: s.target,
                                        fuel: (s.fuel - 1) as u64,
                                    },
                                )
                            } else {
                                Option::Some(
                                    WalkState {
                                        arena: s.arena,
                                        stack: live,
                                        target: crate::pos::spec_stop(m),
                                        fuel: (s.fuel - 1) as u64,
                                    },
                                )
                            }
                        },
                        Option::None => Option::Some(
                            WalkState {
                                arena: s.arena,
                                stack: live,
                                target: crate::pos::spec_stop(m),
                                fuel: (s.fuel - 1) as u64,
                            },
                        ),
                    }
                } else {
                    Option::None
                }
            },
        }
    }
}

/// Replays a whole log, first interaction first; `Some` exactly when every
/// interaction is the one the engine owes in its turn.
pub open spec fn spec_replay(m: &MmuMeta, s: WalkState, log: Seq<WalkStep>) -> Option<WalkState>
    decreases log.len(),
{
    if log.len() == 0 {
        Option::Some(s)
    } else {
        match spec_replay_one(m, s, log[0]) {
            Option::Some(s2) => spec_replay(m, s2, log.skip(1)),
            Option::None => Option::None,
        }
    }
}

/// A complete walk from the root frame is accounted for by its log: the
/// log replays from the first target `t0` with budget `steps`, turning
/// the arena `arena0` into `arena1` and coming to rest at target `t1`
/// with `left` of the budget unused.
pub open spec fn spec_walk_logged(
    m: &MmuMeta,
    arena0: Seq<Seq<Pte>>,
    root: WalkFrame,
    t0: Pos,
    steps: u64,
    log: Seq<WalkStep>,
    arena1: Seq<Seq<Pte>>,
    t1: Pos,
    left: u64,
) -> bool {
    exists|stk: Seq<WalkFrame>|
        spec_replay(
            m,
            (WalkState { arena: arena0, stack: seq![root], target: t0, fuel: steps }),
            log,
        ) == Option::Some((WalkState { arena: arena1, stack: stk, target: t1, fuel: left }))
            && spec_unwound(m, arena1, stk, t1).len() == 0
}

/// The walk's step protocol, read off [`spec_step`]: within a frame the
/// engine arrives exactly at the target's level; above the target's level
/// it descends exactly through valid non-leaf entries and reports every
/// other entry as an obstruction; outside the frame it unwinds. The entry
/// that decides is always the one at the target page's index in the frame.
pub proof fn lemma_step_protocol(m: &MmuMeta, fr: Seq<Pte>, base: u64, level: int, t: Pos)
    ensures
        (spec_step(m, fr, base, level, t) is Unwind) <==> !spec_in_frame(m, base, level, t),
        (spec_step(m, fr, base, level, t) matches Step::Arrive(i) ==> spec_in_frame(
            m,
            base,
            level,
            t,
        ) && t.level == level && i == spec_index_in(m, t.vpn@, level) as usize),
        (spec_in_frame(m, base, level, t) && t.level == level ==> spec_step(m, fr, base, level, t)
            is Arrive),
        (spec_step(m, fr, base, level, t) matches Step::Descend(i) ==> spec_in_frame(
            m,
            base,
            level,
            t,
        ) && t.level < level && i == spec_index_in(m, t.vpn@, level) as usize && m.spec_is_valid(
            fr[i as int].raw,
        ) && !m.spec_is_leaf(fr[i as int].raw)),
        (spec_step(m, fr, base, level, t) matches Step::Obstruct(i) ==> spec_in_frame(
            m,
            base,
            level,
            t,
        ) && t.level < level && i == spec_index_in(m, t.vpn@, level) as usize && (!m.spec_is_valid(
            fr[i as int].raw,
        ) || m.spec_is_leaf(fr[i as int].raw))),
{
}

/// The page count of the space fits in a 64-bit word.
proof fn lemma_space_word(m: &MmuMeta)
    requires
        m.wf(),
    ensures
        spec_space_pages(m) <= u64::MAX,
{
    m.lemma_wf_bounds();
    vstd::arithmetic::power2::lemma_pow2_strictly_increases(
        (m.spec_v_bits() - m.page_bits) as nat,
        64,
    );
    assert(pow2(64) == 0x1_0000_0000_0000_0000) by {
        vstd::arithmetic::power2::lemma2_to64_rest();
    }
}

/// The slice of a parent frame's range that a child table covers stays
/// within the parent's range, and so within the space.
proof fn lemma_child_within(m: &MmuMeta, base: u64, level: int, index: int)
    requires
        m.wf(),
        1 <= level < m.levels(),
        0 <= index < pow2(m.level_bits@[level] as nat),
        base + m.spec_pages_in_table(level) <= spec_space_pages(m),
    ensures
        index * m.spec_pages_in_table(level - 1) + m.spec_pages_in_table(level - 1)
            <= m.spec_pages_in_table(level),
        base + index * m.spec_pages_in_table(level - 1) + m.spec_pages_in_table(level - 1)
            <= spec_space_pages(m),
        spec_space_pages(m) <= u64::MAX,
{
    let child = m.spec_pages_in_table(level - 1) as int;
    let width = pow2(m.level_bits@[level] as nat) as int;
    m.lemma_bits_below_step(level);
    vstd::arithmetic::power2::lemma_pow2_adds(
        m.spec_bits_below(level),
        m.level_bits@[level] as nat,
    );
    assert(m.spec_pages_in_table(level) == child * width) by {
        vstd::arithmetic::mul::lemma_mul_is_commutative(child, width);
    }
    vstd::arithmetic::power2::lemma_pow2_pos(m.spec_bits_below(level));
    // (index + 1) * child <= width * child == pages_in_table(level)
    vstd::arithmetic::mul::lemma_mul_inequality(index + 1, width, child);
    vstd::arithmetic::mul::lemma_mul_is_distributive_add_other_way(child, index, 1);
    vstd::arithmetic::mul::lemma_mul_basics(child);
    assert(index * child + child == (index + 1) * child);
    assert((index + 1) * child <= width * child);
    lemma_space_word(m);
}

/// Replaying one more interaction replays the log and then the
/// interaction.
proof fn lemma_replay_snoc(m: &MmuMeta, s: WalkState, log: Seq<WalkStep>, ev: WalkStep)
    ensures
        spec_replay(m, s, log.push(ev)) == (match spec_replay(m, s, log) {
            Option::Some(s2) => spec_replay_one(m, s2, ev),
            Option::None => Option::None::<WalkState>,
        }),
    decreases log.len(),
{
    if log.len() == 0 {
        assert(log.push(ev)[0] == ev);
        assert(log.push(ev).skip(1) =~= Seq::<WalkStep>::empty());
        assert(spec_replay(m, s, log) == Option::Some(s));
        match spec_replay_one(m, s, ev) {
            Option::Some(s2) => {
                assert(spec_replay(m, s, log.push(ev)) == spec_replay(
                    m,
                    s2,
                    log.push(ev).skip(1),
                ));
                assert(spec_replay(m, s2, log.push(ev).skip(1)) == Option::Some(s2));
            },
            Option::None => {
                assert(spec_replay(m, s, log.push(ev)) == Option::None::<WalkState>);
            },
        }
    } else {
        assert(log.push(ev)[0] == log[0]);
        assert(log.push(ev).skip(1) =~= log.skip(1).push(ev));
        match spec_replay_one(m, s, log[0]) {
            Option::Some(s2) => {
                lemma_replay_snoc(m, s2, log.skip(1), ev);
            },
            Option::None => {},
        }
    }
}

/// Replaying a concatenation replays the first log and then the second.
proof fn lemma_replay_append(m: &MmuMeta, s: WalkState, log1: Seq<WalkStep>, log2: Seq<WalkStep>)
    ensures
        spec_replay(m, s, log1 + log2) == (match spec_replay(m, s, log1) {
            Option::Some(s2) => spec_replay(m, s2, log2),
            Option::None => Option::None::<WalkState>,
        }),
    decreases log1.len(),
{
    if log1.len() == 0 {
        assert(log1 + log2 =~= log2);
    } else {
        assert((log1 + log2)[0] == log1[0]);
        assert((log1 + log2).skip(1) =~= log1.skip(1) + log2);
        match spec_replay_one(m, s, log1[0]) {
            Option::Some(s2) => {
                lemma_replay_append(m, s2, log1.skip(1), log2);
            },
            Option::None => {},
        }
    }
}

/// Unwinding a stack of two segments: while the upper segment keeps a live
/// frame the lower one is untouched; once the upper unwinds away, the
/// lower unwinds on its own.
proof fn lemma_unwound_append(
    m: &MmuMeta,
    arena: Seq<Seq<Pte>>,
    low: Seq<WalkFrame>,
    high: Seq<WalkFrame>,
    t: Pos,
)
    ensures
        spec_unwound(m, arena, low + high, t) == (if spec_unwound(m, arena, high, t).len() > 0 {
            low + spec_unwound(m, arena, high, t)
        } else {
            spec_unwound(m, arena, low, t)
        }),
    decreases high.len(),
{
    if high.len() == 0 {
        assert(low + high =~= low);
    } else {
        assert((low + high).last() == high.last());
        assert((low + high).drop_last() =~= low + high.drop_last());
        lemma_unwound_append(m, arena, low, high.drop_last(), t);
    }
}

/// A target on the stop sentinel has left every frame: the stack unwinds
/// away entirely.
proof fn lemma_unwound_stop(m: &MmuMeta, arena: Seq<Seq<Pte>>, stack: Seq<WalkFrame>)
    requires
        m.wf(),
        m.levels() <= usize::MAX,
        forall|k: int| 0 <= k < stack.len() ==> (#[trigger] stack[k]).level < m.levels(),
    ensures
        spec_unwound(m, arena, stack, crate::pos::spec_stop(m)).len() == 0,
    decreases stack.len(),
{
    if stack.len() > 0 {
        let top = stack.last();
        assert(crate::pos::spec_stop(m).level == m.levels());
        assert(!spec_in_frame(m, top.base, top.level as int, crate::pos::spec_stop(m)));
        lemma_unwound_stop(m, arena, stack.drop_last());
    }
}

/// Unwinding a one-frame stack: it stays when the frame is live and
/// vanishes when the target has left it.
proof fn lemma_unwound_single(m: &MmuMeta, arena: Seq<Seq<Pte>>, fr: WalkFrame, t: Pos)
    ensures
        (spec_step(m, arena[fr.fidx as int], fr.base, fr.level as int, t) is Unwind)
            ==> spec_unwound(m, arena, seq![fr], t).len() == 0,
        !(spec_step(m, arena[fr.fidx as int], fr.base, fr.level as int, t) is Unwind)
            ==> spec_unwound(m, arena, seq![fr], t) == seq![fr],
{
    assert(seq![fr].last() == fr);
    assert(seq![fr].drop_last() =~= Seq::<WalkFrame>::empty());
    assert(spec_unwound(m, arena, Seq::<WalkFrame>::empty(), t).len() == 0);
}

/// One replayed interaction is insensitive to rested frames below the
/// stack it was replayed on.
proof fn lemma_replay_one_lift(
    m: &MmuMeta,
    s: WalkState,
    ev: WalkStep,
    s2: WalkState,
    low: Seq<WalkFrame>,
)
    requires
        spec_replay_one(m, s, ev) == Option::Some(s2),
    ensures
        spec_replay_one(
            m,
            (WalkState { arena: s.arena, stack: low + s.stack, target: s.target, fuel: s.fuel }),
            ev,
        ) == Option::Some(
            (WalkState { arena: s2.arena, stack: low + s2.stack, target: s2.target, fuel: s2.fuel }),
        ),
{
    let live = spec_unwound(m, s.arena, s.stack, s.target);
    lemma_unwound_append(m, s.arena, low, s.stack, s.target);
    assert(live.len() > 0);
    let lifted = low + live;
    assert(lifted.last() == live.last());
    let top = live.last();
    match ev {
        WalkStep::GaveUp => {
            assert(s2.stack == live);
        },
        WalkStep::Arrive { f, i, pte, wrote, next } => {
            assert(s2.stack == live);
        },
        WalkStep::Meet { f, i, pte, next } => {
            assert(s2.stack == live);
        },
        WalkStep::Materialize { f, i, pte, wrote, child } => {
            let fr = s.arena[top.fidx as int];
            let arena2 = s.arena.update(top.fidx as int, fr.update(i as int, wrote));
            if spec_child_ok(m, arena2, child, top.level as int) {
                let cf = WalkFrame {
                    fidx: child,
                    base: spec_child_base(m, top, i),
                    level: (top.level - 1) as usize,
                };
                assert(lifted.push(cf) =~= low + live.push(cf));
            }
        },
        WalkStep::Translate { f, i, pte, answer } => {
            if answer is Some && spec_child_ok(m, s.arena, answer.unwrap(), top.level as int) {
                let cf = WalkFrame {
                    fidx: answer.unwrap(),
                    base: spec_child_base(m, top, i),
                    level: (top.level - 1) as usize,
                };
                assert(lifted.push(cf) =~= low + live.push(cf));
            }
        },
    }
}

/// A whole frame run is insensitive to rested frames below the stack it
/// was replayed on, which come through untouched.
proof fn lemma_replay_lift(
    m: &MmuMeta,
    s: WalkState,
    log: Seq<WalkStep>,
    fin: WalkState,
    low: Seq<WalkFrame>,
)
    requires
        spec_replay(m, s, log) == Option::Some(fin),
    ensures
        spec_replay(
            m,
            (WalkState { arena: s.arena, stack: low + s.stack, target: s.target, fuel: s.fuel }),
            log,
        ) == Option::Some(
            (WalkState {
                arena: fin.arena,
                stack: low + fin.stack,
                target: fin.target,
                fuel: fin.fuel,
            }),
        ),
    decreases log.len(),
{
    if log.len() == 0 {
        assert(fin == s);
    } else {
        match spec_replay_one(m, s, log[0]) {
            Option::Some(s2) => {
                lemma_replay_one_lift(m, s, log[0], s2, low);
                lemma_replay_lift(m, s2, log.skip(1), fin, low);
            },
            Option::None => {
                assert(false);
            },
        }
    }
}

impl PageTableShuttle {
    /// The frame arena.
    pub closed spec fn spec_frames(&self) -> Seq<Vec<Pte>> {
        self.frames@
    }

    /// The arena's entries, frame by frame.
    pub open spec fn spec_arena(&self) -> Seq<Seq<Pte>> {
        Seq::new(self.spec_frames().len(), |i: int| self.spec_frames()[i]@)
    }

    /// The root table's frame index.
    pub closed spec fn spec_root(&self) -> int {
        self.root as int
    }

    /// The shuttle is well formed for scheme `m`: the root frame exists
    /// and holds one root-level table.
    pub open spec fn wf(&self, m: &MmuMeta) -> bool {
        &&& m.wf()
        &&& self.spec_root() < self.spec_frames().len()
        &&& self.spec_frames()[self.spec_root()]@.len() == pow2(
            m.level_bits@[m.spec_max_level()] as nat,
        )
    }

    /// Builds a shuttle from the frames of every table of the hierarchy
    /// and the index of the root table's frame.
    pub fn new(frames: Vec<Vec<Pte>>, root: usize, m: &MmuMeta) -> (r: PageTableShuttle)
        requires
            m.wf(),
            root < frames@.len(),
            frames@[root as int]@.len() == pow2(m.level_bits@[m.spec_max_level()] as nat),
        ensures
            r.wf(m),
            r.spec_frames() == frames@,
            r.spec_root() == root,
    {
        PageTableShuttle { frames, root }
    }

    /// Number of frames in the arena.
    pub fn frame_count(&self) -> (r: usize)
        ensures
            r == self.spec_frames().len(),
    {
        self.frames.len()
    }

    /// Number of entries in frame `f`.
    pub fn frame_len(&self, f: usize) -> (r: usize)
        requires
            f < self.spec_frames().len(),
        ensures
            r == self.spec_frames()[f as int]@.len(),
    {
        self.frames[f].len()
    }

    /// The entry at index `i` of frame `f`.
    pub fn entry(&self, f: usize, i: usize) -> (r: Pte)
        requires
            f < self.spec_frames().len(),
            i < self.spec_frames()[f as int]@.len(),
        ensures
            r == self.spec_frames()[f as int]@[i as int],
    {
        self.frames[f][i]
    }

    /// Replaces the entry at index `i` of frame `f`; no other entry, no
    /// frame length and no other frame changes.
    pub fn write_slot(&mut self, f: usize, i: usize, pte: Pte)
        requires
            f < old(self).spec_frames().len(),
            i < old(self).spec_frames()[f as int]@.len(),
        ensures
            final(self).spec_frames().len() == old(self).spec_frames().len(),
            final(self).spec_frames()[f as int]@ == old(self).spec_frames()[f as int]@.update(
                i as int,
                pte,
            ),
            forall|j: int|
                0 <= j < old(self).spec_frames().len() && j != f
                    ==> final(self).spec_frames()[j] == old(self).spec_frames()[j],
            final(self).spec_root() == old(self).spec_root(),
            final(self).spec_arena() == old(self).spec_arena().update(
                f as int,
                old(self).spec_arena()[f as int].update(i as int, pte),
            ),
    {
        let fr = &mut self.frames[f];
        fr[i] = pte;
        proof {
            assert(self.spec_arena() =~~= old(self).spec_arena().update(
                f as int,
                old(self).spec_arena()[f as int].update(i as int, pte),
            ));
        }
    }

    /// The root table's frame index.
    pub fn root(&self) -> (r: usize)
        ensures
            r == self.spec_root(),
    {
        self.root
    }

    /// Classifies the step a frame takes towards `target`: exactly
    /// [`spec_step`] of the frame's entries, base and level.
    pub fn step_of(&self, m: &MmuMeta, fidx: usize, base: u64, level: usize, target: Pos) -> (r:
        Step)
        requires
            m.wf(),
            level < m.levels(),
            fidx < self.spec_frames().len(),
            self.spec_frames()[fidx as int]@.len() == pow2(m.level_bits@[level as int] as nat),
            base + m.spec_pages_in_table(level as int) <= spec_space_pages(m),
        ensures
            r == spec_step(m, self.spec_frames()[fidx as int]@, base, level as int, target),
            (r matches Step::Arrive(i) ==> i < self.spec_frames()[fidx as int]@.len()),
            (r matches Step::Descend(i) ==> i < self.spec_frames()[fidx as int]@.len()),
            (r matches Step::Obstruct(i) ==> i < self.spec_frames()[fidx as int]@.len()),
    {
        proof {
            lemma_space_word(m);
        }
        let pages = m.pages_in_table(level);
        let end = base + pages;
        if !(target.level <= level && base <= target.vpn.val() && target.vpn.val() < end) {
            return Step::Unwind;
        }
        // reading the length pins it as a machine word, which bounds the
        // entry index below
        let _flen = self.frame_len(fidx);
        proof {
            vstd::arithmetic::power2::lemma_pow2_pos(m.level_bits@[level as int] as nat);
        }
        let index = target.vpn.index_in(m, level);
        if target.level == level {
            return Step::Arrive(index);
        }
        let pte = self.entry(fidx, index);
        if pte.is_valid(m) && !pte.is_leaf(m) {
            Step::Descend(index)
        } else {
            Step::Obstruct(index)
        }
    }

    /// Checks that frame `child` can serve as the level-`level - 1` table
    /// under the entry at `index` of a level-`level` frame based at
    /// `base`, and computes the child table's base page.
    ///
    /// The answer is `Some` if and only if the frame exists and holds
    /// exactly one level-`level - 1` table.
    fn child_frame(&self, m: &MmuMeta, child: usize, base: u64, index: usize, level: usize)
        -> (r: Option<u64>)
        requires
            m.wf(),
            1 <= level < m.levels(),
            index < pow2(m.level_bits@[level as int] as nat),
            base + m.spec_pages_in_table(level as int) <= spec_space_pages(m),
        ensures
            (r is Some) <==> (child < self.spec_frames().len()
                && self.spec_frames()[child as int]@.len() == pow2(
                m.level_bits@[level as int - 1] as nat,
            )),
            r matches Some(child_base) ==> {
                &&& child_base == base + index * m.spec_pages_in_table(level as int - 1)
                &&& child_base + m.spec_pages_in_table(level as int - 1) <= spec_space_pages(m)
            },
    {
        proof {
            lemma_child_within(m, base, level as int, index as int);
            m.lemma_bits_below_step(level as int - 1);
            m.lemma_bits_below_mono(level as int, m.levels());
            m.lemma_wf_bounds();
        }
        if child >= self.frame_count() {
            return None;
        }
        let want = crate::meta::pow2_u64(m.level_bits[level - 1]);
        if (self.frame_len(child) as u64) != want {
            return None;
        }
        let span_child = m.pages_in_table(level - 1);
        Some(base + (index as u64) * span_child)
    }

    /// The frame the walk starts in: the root table, based at page zero,
    /// at the root level.
    pub open spec fn spec_root_frame(&self, m: &MmuMeta) -> WalkFrame {
        WalkFrame {
            fidx: self.spec_root() as usize,
            base: 0,
            level: m.spec_max_level() as usize,
        }
    }

    /// Walks the tables read-only under `visitor`'s guidance.
    ///
    /// At most `steps` entries are inspected: a walk that has not come to
    /// rest by then stops as if the visitor had asked for the sentinel.
    /// Returns the unused part of the budget, the final target — which
    /// lies outside the root table's range or above its level: the walk
    /// only ever returns at rest — and the walk's log: the target the
    /// visitor's `start` answered, and every interaction after it.
    /// Replaying the log from the root frame with that first target,
    /// step by step as [`spec_replay`] prescribes, accepts every logged
    /// interaction and ends exactly at the returned target and budget,
    /// with the arena read but never written.
    pub fn walk<V: Visitor>(&self, m: &MmuMeta, visitor: &mut V, steps: u64) -> (r: (
        u64,
        Pos,
        Ghost<(Pos, Seq<WalkStep>)>,
    ))
        requires
            self.wf(m),
        ensures
            r.0 <= steps,
            !spec_in_frame(m, 0, m.spec_max_level(), r.1),
            spec_walk_logged(
                m,
                self.spec_arena(),
                self.spec_root_frame(m),
                r.2@.0,
                steps,
                r.2@.1,
                self.spec_arena(),
                r.1,
                r.0,
            ),
    {
        let max = m.max_level();
        let mut target = visitor.start(Pos::new(VPN::zero(), max));
        let ghost t0 = target;
        let rt = self.root;
        let rr = self.walk_frame(m, rt, 0, max, visitor, &mut target, steps);
        proof {
            assert((WalkFrame { fidx: rt, base: 0, level: max }) == self.spec_root_frame(m));
            assert(spec_replay(
                m,
                (WalkState {
                    arena: self.spec_arena(),
                    stack: seq![self.spec_root_frame(m)],
                    target: t0,
                    fuel: steps,
                }),
                rr.1@,
            ) == Option::Some(
                (WalkState {
                    arena: self.spec_arena(),
                    stack: rr.2@,
                    target: target,
                    fuel: rr.0,
                }),
            ));
            assert(spec_unwound(m, self.spec_arena(), rr.2@, target).len() == 0);
            assert(spec_walk_logged(
                m,
                self.spec_arena(),
                self.spec_root_frame(m),
                t0,
                steps,
                rr.1@,
                self.spec_arena(),
                target,
                rr.0,
            ));
        }
        (rr.0, target, Ghost((t0, rr.1@)))
    }

    /// Walks the tables under `visitor`'s guidance, letting it rewrite
    /// entries and materialize sub-tables.
    ///
    /// At most `steps` entries are inspected: a walk that has not come to
    /// rest by then stops as if the visitor had asked for the sentinel.
    /// Returns the unused part of the budget, the final target — which
    /// lies outside the root table's range or above its level — and the
    /// walk's log: the target the visitor's `start` answered, and every
    /// interaction after it. Replaying the log from the root frame with
    /// that first target, step by step as [`spec_replay`] prescribes,
    /// accepts every logged interaction and ends exactly at the returned
    /// target and budget, turning the old arena into the new one: the
    /// entries change exactly by the logged rewrites and
    /// materializations, at the slots the steps select, and the arena's
    /// shape is preserved.
    pub fn walk_mut<D: Decorator>(&mut self, m: &MmuMeta, visitor: &mut D, steps: u64) -> (r: (
        u64,
        Pos,
        Ghost<(Pos, Seq<WalkStep>)>,
    ))
        requires
            old(self).wf(m),
        ensures
            r.0 <= steps,
            !spec_in_frame(m, 0, m.spec_max_level(), r.1),
            final(self).wf(m),
            final(self).spec_frames().len() == old(self).spec_frames().len(),
            forall|i: int|
                0 <= i < old(self).spec_frames().len() ==> final(self).spec_frames()[i]@.len()
                    == old(self).spec_frames()[i]@.len(),
            final(self).spec_root() == old(self).spec_root(),
            r.0 == steps ==> final(self).spec_frames() == old(self).spec_frames(),
            spec_walk_logged(
                m,
                old(self).spec_arena(),
                old(self).spec_root_frame(m),
                r.2@.0,
                steps,
                r.2@.1,
                final(self).spec_arena(),
                r.1,
                r.0,
            ),
    {
        let max = m.max_level();
        let mut target = visitor.start(Pos::new(VPN::zero(), max));
        let ghost t0 = target;
        let rt = self.root;
        let rr = self.walk_frame_mut(m, rt, 0, max, visitor, &mut target, steps);
        proof {
            assert((WalkFrame { fidx: rt, base: 0, level: max }) == old(
                self,
            ).spec_root_frame(m));
            assert(spec_replay(
                m,
                (WalkState {
                    arena: old(self).spec_arena(),
                    stack: seq![old(self).spec_root_frame(m)],
                    target: t0,
                    fuel: steps,
                }),
                rr.1@,
            ) == Option::Some(
                (WalkState {
                    arena: self.spec_arena(),
                    stack: rr.2@,
                    target: target,
                    fuel: rr.0,
                }),
            ));
            assert(spec_unwound(m, self.spec_arena(), rr.2@, target).len() == 0);
            assert(spec_walk_logged(
                m,
                old(self).spec_arena(),
                old(self).spec_root_frame(m),
                t0,
                steps,
                rr.1@,
                self.spec_arena(),
                target,
                rr.0,
            ));
        }
        (rr.0, target, Ghost((t0, rr.1@)))
    }

    /// One frame of the read-only walk: takes the step [`spec_step`]
    /// prescribes until the target leaves the frame, descending into
    /// accepted child frames; returns only once the target lies outside
    /// the frame, with the log of the frame run and the final replay
    /// stack.
    fn walk_frame<V: Visitor>(
        &self,
        m: &MmuMeta,
        fidx: usize,
        base: u64,
        level: usize,
        visitor: &mut V,
        target: &mut Pos,
        fuel: u64,
    ) -> (r: (u64, Ghost<Seq<WalkStep>>, Ghost<Seq<WalkFrame>>))
        requires
            m.wf(),
            level < m.levels(),
            fidx < self.spec_frames().len(),
            self.spec_frames()[fidx as int]@.len() == pow2(m.level_bits@[level as int] as nat),
            base + m.spec_pages_in_table(level as int) <= spec_space_pages(m),
        ensures
            r.0 <= fuel,
            !spec_in_frame(m, base, level as int, *final(target)),
            spec_replay(
                m,
                (WalkState {
                    arena: self.spec_arena(),
                    stack: seq![(WalkFrame { fidx, base, level })],
                    target: *old(target),
                    fuel,
                }),
                r.1@,
            ) == Option::Some(
                (WalkState {
                    arena: self.spec_arena(),
                    stack: r.2@,
                    target: *final(target),
                    fuel: r.0,
                }),
            ),
            spec_unwound(m, self.spec_arena(), r.2@, *final(target)).len() == 0,
            forall|k: int| 0 <= k < r.2@.len() ==> (#[trigger] r.2@[k]).level < m.levels(),
        decreases fuel, level,
    {
        let ghost fr0 = WalkFrame { fidx, base, level };
        let ghost s0 = WalkState {
            arena: self.spec_arena(),
            stack: seq![fr0],
            target: *target,
            fuel,
        };
        let nl = m.level_bits.len();
        let mut f = fuel;
        let ghost mut log: Seq<WalkStep> = Seq::empty();
        let ghost mut rs: Seq<WalkFrame> = seq![fr0];
        proof {
            lemma_unwound_single(m, self.spec_arena(), fr0, *target);
        }
        loop
            invariant
                m.wf(),
                m.levels() == nl,
                level < m.levels(),
                fidx < self.spec_frames().len(),
                self.spec_frames()[fidx as int]@.len() == pow2(
                    m.level_bits@[level as int] as nat,
                ),
                base + m.spec_pages_in_table(level as int) <= spec_space_pages(m),
                f <= fuel,
                fr0 == (WalkFrame { fidx, base, level }),
                s0.arena == self.spec_arena(),
                s0.stack == seq![fr0],
                s0.target == *old(target),
                s0.fuel == fuel,
                spec_replay(m, s0, log) == Option::Some(
                    (WalkState {
                        arena: self.spec_arena(),
                        stack: rs,
                        target: *target,
                        fuel: f,
                    }),
                ),
                forall|k: int| 0 <= k < rs.len() ==> (#[trigger] rs[k]).level < m.levels(),
                spec_in_frame(m, base, level as int, *target) ==> spec_unwound(
                    m,
                    self.spec_arena(),
                    rs,
                    *target,
                ) == seq![fr0],
                !spec_in_frame(m, base, level as int, *target) ==> spec_unwound(
                    m,
                    self.spec_arena(),
                    rs,
                    *target,
                ).len() == 0,
            ensures
                f <= fuel,
                !spec_in_frame(m, base, level as int, *target),
                spec_replay(m, s0, log) == Option::Some(
                    (WalkState {
                        arena: self.spec_arena(),
                        stack: rs,
                        target: *target,
                        fuel: f,
                    }),
                ),
                spec_unwound(m, self.spec_arena(), rs, *target).len() == 0,
                forall|k: int| 0 <= k < rs.len() ==> (#[trigger] rs[k]).level < m.levels(),
            decreases f,
        {
            let st = self.step_of(m, fidx, base, level, *target);
            if matches!(st, Step::Unwind) {
                break;
            }
            proof {
                assert(spec_in_frame(m, base, level as int, *target));
            }
            if f == 0 {
                proof {
                    let scur = WalkState {
                        arena: self.spec_arena(),
                        stack: rs,
                        target: *target,
                        fuel: f,
                    };
                    lemma_replay_snoc(m, s0, log, WalkStep::GaveUp);
                    assert(spec_replay_one(m, scur, WalkStep::GaveUp) == Option::Some(
                        (WalkState {
                            arena: self.spec_arena(),
                            stack: seq![fr0],
                            target: crate::pos::spec_stop(m),
                            fuel: 0,
                        }),
                    ));
                    log = log.push(WalkStep::GaveUp);
                    rs = seq![fr0];
                }
                *target = Pos::stop(m);
                proof {
                    lemma_unwound_stop(m, self.spec_arena(), rs);
                }
                return (0, Ghost(log), Ghost(rs));
            }
            let ghost fpre = f;
            f = f - 1;
            proof {
                vstd::arithmetic::power2::lemma_pow2_pos(m.level_bits@[level as int] as nat);
            }
            match st {
                Step::Unwind => {
                    break;
                },
                Step::Arrive(index) => {
                    let pte = self.entry(fidx, index);
                    let t2 = visitor.arrive(pte, *target);
                    proof {
                        let ev = WalkStep::Arrive {
                            f: fidx,
                            i: index,
                            pte,
                            wrote: pte,
                            next: t2,
                        };
                        let scur = WalkState {
                            arena: self.spec_arena(),
                            stack: rs,
                            target: *target,
                            fuel: fpre,
                        };
                        lemma_replay_snoc(m, s0, log, ev);
                        let fr = self.spec_arena()[fidx as int];
                        assert(self.spec_arena().update(
                            fidx as int,
                            fr.update(index as int, pte),
                        ) =~~= self.spec_arena());
                        assert(spec_replay_one(m, scur, ev) == Option::Some(
                            (WalkState {
                                arena: self.spec_arena(),
                                stack: seq![fr0],
                                target: t2,
                                fuel: f,
                            }),
                        ));
                        log = log.push(ev);
                        rs = seq![fr0];
                        lemma_unwound_single(m, self.spec_arena(), fr0, t2);
                    }
                    *target = t2;
                },
                Step::Descend(index) => {
                    let pte = self.entry(fidx, index);
                    let tr = visitor.translate(pte.ppn(m));
                    let ghost ev = WalkStep::Translate { f: fidx, i: index, pte, answer: tr };
                    let ghost scur = WalkState {
                        arena: self.spec_arena(),
                        stack: rs,
                        target: *target,
                        fuel: fpre,
                    };
                    proof {
                        lemma_replay_snoc(m, s0, log, ev);
                    }
                    match tr {
                        Some(child) => {
                            match self.child_frame(m, child, base, index, level) {
                                Some(child_base) => {
                                    let ghost cf = WalkFrame {
                                        fidx: child,
                                        base: child_base,
                                        level: (level - 1) as usize,
                                    };
                                    proof {
                                        assert(spec_child_ok(
                                            m,
                                            self.spec_arena(),
                                            child,
                                            level as int,
                                        ));
                                        assert(child_base == spec_child_base(m, fr0, index));
                                        assert(spec_replay_one(m, scur, ev) == Option::Some(
                                            (WalkState {
                                                arena: self.spec_arena(),
                                                stack: seq![fr0].push(cf),
                                                target: *target,
                                                fuel: f,
                                            }),
                                        ));
                                        log = log.push(ev);
                                        rs = seq![fr0].push(cf);
                                    }
                                    let ghost tpre = *target;
                                    let rr = self.walk_frame(
                                        m,
                                        child,
                                        child_base,
                                        level - 1,
                                        visitor,
                                        target,
                                        f,
                                    );
                                    f = rr.0;
                                    proof {
                                        let child_s0 = WalkState {
                                            arena: self.spec_arena(),
                                            stack: seq![cf],
                                            target: tpre,
                                            fuel: (fpre - 1) as u64,
                                        };
                                        let child_fin = WalkState {
                                            arena: self.spec_arena(),
                                            stack: rr.2@,
                                            target: *target,
                                            fuel: rr.0,
                                        };
                                        lemma_replay_lift(
                                            m,
                                            child_s0,
                                            rr.1@,
                                            child_fin,
                                            seq![fr0],
                                        );
                                        assert(seq![fr0] + seq![cf] =~= seq![fr0].push(cf));
                                        lemma_replay_append(m, s0, log, rr.1@);
                                        log = log + rr.1@;
                                        rs = seq![fr0] + rr.2@;
                                        lemma_unwound_append(
                                            m,
                                            self.spec_arena(),
                                            seq![fr0],
                                            rr.2@,
                                            *target,
                                        );
                                        lemma_unwound_single(
                                            m,
                                            self.spec_arena(),
                                            fr0,
                                            *target,
                                        );
                                    }
                                },
                                None => {
                                    proof {
                                        assert(spec_replay_one(m, scur, ev) == Option::Some(
                                            (WalkState {
                                                arena: self.spec_arena(),
                                                stack: seq![fr0],
                                                target: crate::pos::spec_stop(m),
                                                fuel: f,
                                            }),
                                        ));
                                        log = log.push(ev);
                                        rs = seq![fr0];
                                    }
                                    *target = Pos::stop(m);
                                    proof {
                                        lemma_unwound_stop(m, self.spec_arena(), rs);
                                    }
                                },
                            }
                        },
                        None => {
                            proof {
                                assert(spec_replay_one(m, scur, ev) == Option::Some(
                                    (WalkState {
                                        arena: self.spec_arena(),
                                        stack: seq![fr0],
                                        target: crate::pos::spec_stop(m),
                                        fuel: f,
                                    }),
                                ));
                                log = log.push(ev);
                                rs = seq![fr0];
                            }
                            *target = Pos::stop(m);
                            proof {
                                lemma_unwound_stop(m, self.spec_arena(), rs);
                            }
                        },
                    }
                },
                Step::Obstruct(index) => {
                    let pte = self.entry(fidx, index);
                    let t2 = visitor.meet(level, pte, *target);
                    proof {
                        let ev = WalkStep::Meet { f: fidx, i: index, pte, next: t2 };
                        let scur = WalkState {
                            arena: self.spec_arena(),
                            stack: rs,
                            target: *target,
                            fuel: fpre,
                        };
                        lemma_replay_snoc(m, s0, log, ev);
                        assert(spec_replay_one(m, scur, ev) == Option::Some(
                            (WalkState {
                                arena: self.spec_arena(),
                                stack: seq![fr0],
                                target: t2,
                                fuel: f,
                            }),
                        ));
                        log = log.push(ev);
                        rs = seq![fr0];
                        lemma_unwound_single(m, self.spec_arena(), fr0, t2);
                    }
                    *target = t2;
                },
            }
        }
        (f, Ghost(log), Ghost(rs))
    }

    /// One frame of the mutating walk; the counterpart of `walk_frame`
    /// with entry rewriting and sub-table materialization, every write
    /// going through [`PageTableShuttle::write_slot`] and every
    /// interaction logged.
    fn walk_frame_mut<D: Decorator>(
        &mut self,
        m: &MmuMeta,
        fidx: usize,
        base: u64,
        level: usize,
        visitor: &mut D,
        target: &mut Pos,
        fuel: u64,
    ) -> (r: (u64, Ghost<Seq<WalkStep>>, Ghost<Seq<WalkFrame>>))
        requires
            m.wf(),
            level < m.levels(),
            fidx < old(self).spec_frames().len(),
            old(self).spec_frames()[fidx as int]@.len() == pow2(
                m.level_bits@[level as int] as nat,
            ),
            base + m.spec_pages_in_table(level as int) <= spec_space_pages(m),
        ensures
            r.0 <= fuel,
            !spec_in_frame(m, base, level as int, *final(target)),
            final(self).spec_frames().len() == old(self).spec_frames().len(),
            forall|i: int|
                0 <= i < old(self).spec_frames().len() ==> final(self).spec_frames()[i]@.len()
                    == old(self).spec_frames()[i]@.len(),
            final(self).spec_root() == old(self).spec_root(),
            r.0 == fuel ==> final(self).spec_frames() == old(self).spec_frames(),
            spec_replay(
                m,
                (WalkState {
                    arena: old(self).spec_arena(),
                    stack: seq![(WalkFrame { fidx, base, level })],
                    target: *old(target),
                    fuel,
                }),
                r.1@,
            ) == Option::Some(
                (WalkState {
                    arena: final(self).spec_arena(),
                    stack: r.2@,
                    target: *final(target),
                    fuel: r.0,
                }),
            ),
            spec_unwound(m, final(self).spec_arena(), r.2@, *final(target)).len() == 0,
            forall|k: int| 0 <= k < r.2@.len() ==> (#[trigger] r.2@[k]).level < m.levels(),
        decreases fuel, level,
    {
        let ghost fr0 = WalkFrame { fidx, base, level };
        let ghost s0 = WalkState {
            arena: self.spec_arena(),
            stack: seq![fr0],
            target: *target,
            fuel,
        };
        let nl = m.level_bits.len();
        let mut f = fuel;
        let ghost mut log: Seq<WalkStep> = Seq::empty();
        let ghost mut rs: Seq<WalkFrame> = seq![fr0];
        proof {
            lemma_unwound_single(m, self.spec_arena(), fr0, *target);
        }
        loop
            invariant
                m.wf(),
                m.levels() == nl,
                level < m.levels(),
                self.spec_frames().len() == old(self).spec_frames().len(),
                forall|i: int|
                    0 <= i < old(self).spec_frames().len() ==> self.spec_frames()[i]@.len()
                        == old(self).spec_frames()[i]@.len(),
                self.spec_root() == old(self).spec_root(),
                fidx < self.spec_frames().len(),
                self.spec_frames()[fidx as int]@.len() == pow2(
                    m.level_bits@[level as int] as nat,
                ),
                base + m.spec_pages_in_table(level as int) <= spec_space_pages(m),
                f <= fuel,
                f == fuel ==> self.spec_frames() == old(self).spec_frames(),
                fr0 == (WalkFrame { fidx, base, level }),
                s0.arena == old(self).spec_arena(),
                s0.stack == seq![fr0],
                s0.target == *old(target),
                s0.fuel == fuel,
                spec_replay(m, s0, log) == Option::Some(
                    (WalkState {
                        arena: self.spec_arena(),
                        stack: rs,
                        target: *target,
                        fuel: f,
                    }),
                ),
                forall|k: int| 0 <= k < rs.len() ==> (#[trigger] rs[k]).level < m.levels(),
                spec_in_frame(m, base, level as int, *target) ==> spec_unwound(
                    m,
                    self.spec_arena(),
                    rs,
                    *target,
                ) == seq![fr0],
                !spec_in_frame(m, base, level as int, *target) ==> spec_unwound(
                    m,
                    self.spec_arena(),
                    rs,
                    *target,
                ).len() == 0,
            ensures
                f <= fuel,
                f == fuel ==> self.spec_frames() == old(self).spec_frames(),
                !spec_in_frame(m, base, level as int, *target),
                self.spec_frames().len() == old(self).spec_frames().len(),
                forall|i: int|
                    0 <= i < old(self).spec_frames().len() ==> self.spec_frames()[i]@.len()
                        == old(self).spec_frames()[i]@.len(),
                self.spec_root() == old(self).spec_root(),
                spec_replay(m, s0, log) == Option::Some(
                    (WalkState {
                        arena: self.spec_arena(),
                        stack: rs,
                        target: *target,
                        fuel: f,
                    }),
                ),
                spec_unwound(m, self.spec_arena(), rs, *target).len() == 0,
                forall|k: int| 0 <= k < rs.len() ==> (#[trigger] rs[k]).level < m.levels(),
            decreases f,
        {
            let st = self.step_of(m, fidx, base, level, *target);
            if matches!(st, Step::Unwind) {
                break;
            }
            proof {
                assert(spec_in_frame(m, base, level as int, *target));
            }
            if f == 0 {
                proof {
                    let scur = WalkState {
                        arena: self.spec_arena(),
                        stack: rs,
                        target: *target,
                        fuel: f,
                    };
                    lemma_replay_snoc(m, s0, log, WalkStep::GaveUp);
                    assert(spec_replay_one(m, scur, WalkStep::GaveUp) == Option::Some(
                        (WalkState {
                            arena: self.spec_arena(),
                            stack: seq![fr0],
                            target: crate::pos::spec_stop(m),
                            fuel: 0,
                        }),
                    ));
                    log = log.push(WalkStep::GaveUp);
                    rs = seq![fr0];
                }
                *target = Pos::stop(m);
                proof {
                    lemma_unwound_stop(m, self.spec_arena(), rs);
                }
                return (0, Ghost(log), Ghost(rs));
            }
            let ghost fpre = f;
            f = f - 1;
            proof {
                vstd::arithmetic::power2::lemma_pow2_pos(m.level_bits@[level as int] as nat);
            }
            match st {
                Step::Unwind => {
                    break;
                },
                Step::Arrive(index) => {
                    let pte = self.entry(fidx, index);
                    let mut e = pte;
                    let t2 = visitor.arrive(&mut e, *target);
                    let ghost scur = WalkState {
                        arena: self.spec_arena(),
                        stack: rs,
                        target: *target,
                        fuel: fpre,
                    };
                    self.write_slot(fidx, index, e);
                    proof {
                        let ev = WalkStep::Arrive {
                            f: fidx,
                            i: index,
                            pte,
                            wrote: e,
                            next: t2,
                        };
                        lemma_replay_snoc(m, s0, log, ev);
                        assert(spec_replay_one(m, scur, ev) == Option::Some(
                            (WalkState {
                                arena: self.spec_arena(),
                                stack: seq![fr0],
                                target: t2,
                                fuel: f,
                            }),
                        ));
                        log = log.push(ev);
                        rs = seq![fr0];
                        lemma_unwound_single(m, self.spec_arena(), fr0, t2);
                    }
                    *target = t2;
                },
                Step::Descend(index) => {
                    let pte = self.entry(fidx, index);
                    let tr = visitor.translate(pte.ppn(m));
                    let ghost ev = WalkStep::Translate { f: fidx, i: index, pte, answer: tr };
                    let ghost scur = WalkState {
                        arena: self.spec_arena(),
                        stack: rs,
                        target: *target,
                        fuel: fpre,
                    };
                    proof {
                        lemma_replay_snoc(m, s0, log, ev);
                    }
                    match tr {
                        Some(child) => {
                            match self.child_frame(m, child, base, index, level) {
                                Some(child_base) => {
                                    let ghost cf = WalkFrame {
                                        fidx: child,
                                        base: child_base,
                                        level: (level - 1) as usize,
                                    };
                                    proof {
                                        assert(spec_child_ok(
                                            m,
                                            self.spec_arena(),
                                            child,
                                            level as int,
                                        ));
                                        assert(child_base == spec_child_base(m, fr0, index));
                                        assert(spec_replay_one(m, scur, ev) == Option::Some(
                                            (WalkState {
                                                arena: self.spec_arena(),
                                                stack: seq![fr0].push(cf),
                                                target: *target,
                                                fuel: f,
                                            }),
                                        ));
                                        log = log.push(ev);
                                        rs = seq![fr0].push(cf);
                                    }
                                    let ghost tpre = *target;
                                    let ghost apre = self.spec_arena();
                                    let rr = self.walk_frame_mut(
                                        m,
                                        child,
                                        child_base,
                                        level - 1,
                                        visitor,
                                        target,
                                        f,
                                    );
                                    f = rr.0;
                                    proof {
                                        let child_s0 = WalkState {
                                            arena: apre,
                                            stack: seq![cf],
                                            target: tpre,
                                            fuel: (fpre - 1) as u64,
                                        };
                                        let child_fin = WalkState {
                                            arena: self.spec_arena(),
                                            stack: rr.2@,
                                            target: *target,
                                            fuel: rr.0,
                                        };
                                        lemma_replay_lift(
                                            m,
                                            child_s0,
                                            rr.1@,
                                            child_fin,
                                            seq![fr0],
                                        );
                                        assert(seq![fr0] + seq![cf] =~= seq![fr0].push(cf));
                                        lemma_replay_append(m, s0, log, rr.1@);
                                        log = log + rr.1@;
                                        rs = seq![fr0] + rr.2@;
                                        lemma_unwound_append(
                                            m,
                                            self.spec_arena(),
                                            seq![fr0],
                                            rr.2@,
                                            *target,
                                        );
                                        lemma_unwound_single(
                                            m,
                                            self.spec_arena(),
                                            fr0,
                                            *target,
                                        );
                                    }
                                },
                                None => {
                                    proof {
                                        assert(spec_replay_one(m, scur, ev) == Option::Some(
                                            (WalkState {
                                                arena: self.spec_arena(),
                                                stack: seq![fr0],
                                                target: crate::pos::spec_stop(m),
                                                fuel: f,
                                            }),
                                        ));
                                        log = log.push(ev);
                                        rs = seq![fr0];
                                    }
                                    *target = Pos::stop(m);
                                    proof {
                                        lemma_unwound_stop(m, self.spec_arena(), rs);
                                    }
                                },
                            }
                        },
                        None => {
                            proof {
                                assert(spec_replay_one(m, scur, ev) == Option::Some(
                                    (WalkState {
                                        arena: self.spec_arena(),
                                        stack: seq![fr0],
                                        target: crate::pos::spec_stop(m),
                                        fuel: f,
                                    }),
                                ));
                                log = log.push(ev);
                                rs = seq![fr0];
                            }
                            *target = Pos::stop(m);
                            proof {
                                lemma_unwound_stop(m, self.spec_arena(), rs);
                            }
                        },
                    }
                },
                Step::Obstruct(index) => {
                    let pte = self.entry(fidx, index);
                    match visitor.meet(level, pte, *target) {
                        Update::Target(t2) => {
                            proof {
                                let ev = WalkStep::Meet { f: fidx, i: index, pte, next: t2 };
                                let scur = WalkState {
                                    arena: self.spec_arena(),
                                    stack: rs,
                                    target: *target,
                                    fuel: fpre,
                                };
                                lemma_replay_snoc(m, s0, log, ev);
                                assert(spec_replay_one(m, scur, ev) == Option::Some(
                                    (WalkState {
                                        arena: self.spec_arena(),
                                        stack: seq![fr0],
                                        target: t2,
                                        fuel: f,
                                    }),
                                ));
                                log = log.push(ev);
                                rs = seq![fr0];
                                lemma_unwound_single(m, self.spec_arena(), fr0, t2);
                            }
                            *target = t2;
                        },
                        Update::Pte(newpte, child) => {
                            let ghost ev = WalkStep::Materialize {
                                f: fidx,
                                i: index,
                                pte,
                                wrote: newpte,
                                child,
                            };
                            let ghost scur = WalkState {
                                arena: self.spec_arena(),
                                stack: rs,
                                target: *target,
                                fuel: fpre,
                            };
                            proof {
                                lemma_replay_snoc(m, s0, log, ev);
                            }
                            self.write_slot(fidx, index, newpte);
                            match self.child_frame(m, child, base, index, level) {
                                Some(child_base) => {
                                    let ghost cf = WalkFrame {
                                        fidx: child,
                                        base: child_base,
                                        level: (level - 1) as usize,
                                    };
                                    proof {
                                        assert(spec_child_ok(
                                            m,
                                            self.spec_arena(),
                                            child,
                                            level as int,
                                        ));
                                        assert(child_base == spec_child_base(m, fr0, index));
                                        assert(spec_replay_one(m, scur, ev) == Option::Some(
                                            (WalkState {
                                                arena: self.spec_arena(),
                                                stack: seq![fr0].push(cf),
                                                target: *target,
                                                fuel: f,
                                            }),
                                        ));
                                        log = log.push(ev);
                                        rs = seq![fr0].push(cf);
                                    }
                                    let ghost tpre = *target;
                                    let ghost apre = self.spec_arena();
                                    let rr = self.walk_frame_mut(
                                        m,
                                        child,
                                        child_base,
                                        level - 1,
                                        visitor,
                                        target,
                                        f,
                                    );
                                    f = rr.0;
                                    proof {
                                        let child_s0 = WalkState {
                                            arena: apre,
                                            stack: seq![cf],
                                            target: tpre,
                                            fuel: (fpre - 1) as u64,
                                        };
                                        let child_fin = WalkState {
                                            arena: self.spec_arena(),
                                            stack: rr.2@,
                                            target: *target,
                                            fuel: rr.0,
                                        };
                                        lemma_replay_lift(
                                            m,
                                            child_s0,
                                            rr.1@,
                                            child_fin,
                                            seq![fr0],
                                        );
                                        assert(seq![fr0] + seq![cf] =~= seq![fr0].push(cf));
                                        lemma_replay_append(m, s0, log, rr.1@);
                                        log = log + rr.1@;
                                        rs = seq![fr0] + rr.2@;
                                        lemma_unwound_append(
                                            m,
                                            self.spec_arena(),
                                            seq![fr0],
                                            rr.2@,
                                            *target,
                                        );
                                        lemma_unwound_single(
                                            m,
                                            self.spec_arena(),
                                            fr0,
                                            *target,
                                        );
                                    }
                                },
                                None => {
                                    proof {
                                        assert(spec_replay_one(m, scur, ev) == Option::Some(
                                            (WalkState {
                                                arena: self.spec_arena(),
                                                stack: seq![fr0],
                                                target: crate::pos::spec_stop(m),
                                                fuel: f,
                                            }),
                                        ));
                                        log = log.push(ev);
                                        rs = seq![fr0];
                                    }
                                    *target = Pos::stop(m);
                                    proof {
                                        lemma_unwound_stop(m, self.spec_arena(), rs);
                                    }
                                },
                            }
                        },
                    }
                },
            }
        }
        (f, Ghost(log), Ghost(rs))
    }
}

} // verus!
