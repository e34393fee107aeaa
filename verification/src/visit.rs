//! The capability interfaces that steer a walk.

use crate::addr::PPN;
use crate::pos::Pos;
use crate::pte::Pte;
use vstd::prelude::*;

verus! {

/// A read-only guide for the walk engine.
///
/// The engine drives towards the guide's target position; the guide decides
/// at every boundary how to go on.
pub trait Visitor {
    /// Called once when the walk starts; `pos` is the first page of the
    /// root table at the root level. Returns the first target.
    fn start(&mut self, pos: Pos) -> Pos;

    /// Names the frame, by its index in the shuttle's frame arena, where
    /// the sub-table held in physical page `ppn` can be read; `None` stops
    /// the walk.
    fn translate(&self, ppn: PPN) -> Option<usize>;

    /// Called with the entry at the target position; returns the next
    /// target.
    fn arrive(&mut self, pte: Pte, target: Pos) -> Pos;

    /// Called when a level-`level` entry above the target blocks the way
    /// down: the entry is invalid, or maps a huge page. Returns the next
    /// target.
    fn meet(&mut self, level: usize, pte: Pte, target: Pos) -> Pos;
}

/// A mutating guide for the walk engine.
///
/// Like [`Visitor`], but the guide may rewrite the entry it arrives at,
/// and may materialize a missing sub-table when the way down is blocked.
pub trait Decorator {
    /// Called once when the walk starts; `pos` is the first page of the
    /// root table at the root level. Returns the first target.
    fn start(&mut self, pos: Pos) -> Pos;

    /// Names the frame, by its index in the shuttle's frame arena, where
    /// the sub-table held in physical page `ppn` can be read; `None` stops
    /// the walk.
    fn translate(&self, ppn: PPN) -> Option<usize>;

    /// Called with the entry at the target position, which it may rewrite
    /// in place; returns the next target.
    fn arrive(&mut self, pte: &mut Pte, target: Pos) -> Pos;

    /// Called when a level-`level` entry above the target blocks the way
    /// down: the entry is invalid, or maps a huge page.
    fn meet(&mut self, level: usize, pte: Pte, target: Pos) -> Update;
}

/// What a [`Decorator`] asks for after being blocked.
pub enum Update {
    /// Pursue this target instead.
    Target(Pos),
    /// Write the entry into the blocking slot and walk on into the fresh
    /// sub-table held in the named arena frame.
    Pte(Pte, usize),
}

} // verus!
