//! The dirty-region tracker: accumulates the cells mutated since the last
//! synchronization, under one of three escalating strategies.
//!
//! * `Full` — one boolean: something changed, push everything.
//! * `Square` — the axis-aligned bounding box of every touched cell.
//! * `PointSet` — the explicit set of touched indices. The synchronization
//!   step does not yet consume this strategy; it is selectable and inert.
//!
//! The strategy is picked from the cell count: past [`FULL_PUSH_MAX_CELLS`]
//! a full re-upload stops being cheaper than bookkeeping, so `Square` is
//! chosen. Switching strategy always discards accumulated dirty state.

use vstd::prelude::*;
use crate::mapper::CellIndex;

verus! {

/// Largest cell count for which the `Full` strategy is still chosen: a grid
/// with more cells than this tracks a bounding box instead.
pub const FULL_PUSH_MAX_CELLS: usize = 128;

/// The inclusive bounding box of the touched cells, both corners included.
#[derive(Clone, Copy, Debug, PartialEq, Eq, Structural)]
pub struct DirtyRect {
    pub lower: CellIndex,
    pub upper: CellIndex,
}

/// True when `p` lies inside `r`, borders included.
pub open spec fn rect_contains(r: DirtyRect, p: CellIndex) -> bool {
    r.lower.x <= p.x <= r.upper.x && r.lower.y <= p.y <= r.upper.y
}

/// One of the selectable tracking strategies, exactly one active per volume.
#[derive(Debug)]
pub enum UpdateHandler {
    Full { dirty: bool },
    Square { region: Option<DirtyRect> },
    PointSet { points: Vec<CellIndex> },
}

/// The mathematical state of an [`UpdateHandler`]: the same three strategies,
/// with the point set held as a `Set` so that contracts are free of the
/// vector's incidental order.
pub enum DirtyModel {
    FullModel { dirty: bool },
    SquareModel { region: Option<DirtyRect> },
    PointsModel { points: Set<CellIndex> },
}

impl View for UpdateHandler {
    type V = DirtyModel;

    open spec fn view(&self) -> DirtyModel {
        match self {
            UpdateHandler::Full { dirty } => DirtyModel::FullModel { dirty: *dirty },
            UpdateHandler::Square { region } => DirtyModel::SquareModel { region: *region },
            UpdateHandler::PointSet { points } => DirtyModel::PointsModel {
                points: Set::new(|c: CellIndex| points@.contains(c)),
            },
        }
    }
}

/// Names for the three strategies, for an explicit strategy switch.
#[derive(Clone, Copy, Debug, PartialEq, Eq, Structural)]
pub enum StrategyKind {
    Full,
    Square,
    PointSet,
}

impl DirtyModel {
    /// The strategy this state belongs to.
    pub open spec fn strategy(self) -> StrategyKind {
        match self {
            DirtyModel::FullModel { .. } => StrategyKind::Full,
            DirtyModel::SquareModel { .. } => StrategyKind::Square,
            DirtyModel::PointsModel { .. } => StrategyKind::PointSet,
        }
    }

    /// No mutation has been recorded since the last clear.
    pub open spec fn is_clean(self) -> bool {
        match self {
            DirtyModel::FullModel { dirty } => !dirty,
            DirtyModel::SquareModel { region } => region is None,
            DirtyModel::PointsModel { points } => points =~= Set::empty(),
        }
    }

    /// Whether a synchronization consulting this state pushes anything.
    /// The `PointSet` strategy is inert: it never causes a push.
    pub open spec fn causes_push(self) -> bool {
        match self {
            DirtyModel::FullModel { dirty } => dirty,
            DirtyModel::SquareModel { region } => region is Some,
            DirtyModel::PointsModel { .. } => false,
        }
    }

    /// The pristine state of a given strategy.
    pub open spec fn fresh(kind: StrategyKind) -> DirtyModel {
        match kind {
            StrategyKind::Full => DirtyModel::FullModel { dirty: false },
            StrategyKind::Square => DirtyModel::SquareModel { region: None },
            StrategyKind::PointSet => DirtyModel::PointsModel { points: Set::empty() },
        }
    }

    /// The strategy chosen for a grid of `count` cells.
    pub open spec fn strategy_for(count: nat) -> StrategyKind {
        if count > FULL_PUSH_MAX_CELLS {
            StrategyKind::Square
        } else {
            StrategyKind::Full
        }
    }

    /// Recording one touched cell: `Full` raises its flag, `Square` grows its
    /// box by an independent min/max merge on each axis, `PointSet` inserts.
    pub open spec fn spec_register(self, p: CellIndex) -> DirtyModel {
        match self {
            DirtyModel::FullModel { .. } => DirtyModel::FullModel { dirty: true },
            DirtyModel::SquareModel { region: None } => DirtyModel::SquareModel {
                region: Some(DirtyRect { lower: p, upper: p }),
            },
            DirtyModel::SquareModel { region: Some(r) } => DirtyModel::SquareModel {
                region: Some(
                    DirtyRect {
                        lower: CellIndex {
                            x: if p.x < r.lower.x { p.x } else { r.lower.x },
                            y: if p.y < r.lower.y { p.y } else { r.lower.y },
                        },
                        upper: CellIndex {
                            x: if p.x > r.upper.x { p.x } else { r.upper.x },
                            y: if p.y > r.upper.y { p.y } else { r.upper.y },
                        },
                    },
                ),
            },
            DirtyModel::PointsModel { points } => DirtyModel::PointsModel {
                points: points.insert(p),
            },
        }
    }

    /// Discarding accumulated state while keeping the strategy.
    pub open spec fn spec_clear(self) -> DirtyModel {
        DirtyModel::fresh(self.strategy())
    }

    /// Re-evaluating the strategy for a new cell count: the tracker is
    /// replaced by a pristine one only when the count now asks for another
    /// strategy; otherwise it is left untouched, dirty state included.
    pub open spec fn spec_update_from_elements(self, count: nat) -> DirtyModel {
        if DirtyModel::strategy_for(count) == self.strategy() {
            self
        } else {
            DirtyModel::fresh(DirtyModel::strategy_for(count))
        }
    }

    /// Every recorded cell lies inside the capacity rectangle. Only the
    /// `Square` state is consulted by synchronization, so only its box is
    /// constrained.
    pub open spec fn in_cap(self, cap_x: int, cap_y: int) -> bool {
        match self {
            DirtyModel::SquareModel { region: Some(r) } => {
                &&& 0 <= r.lower.x <= r.upper.x < cap_x
                &&& 0 <= r.lower.y <= r.upper.y < cap_y
            },
            _ => true,
        }
    }
}

impl UpdateHandler {
    /// Picks the strategy for a grid of `count` cells: `Square` past the
    /// threshold, `Full` otherwise, in either case with nothing recorded.
    pub fn from_elements(count: usize) -> (t: UpdateHandler)
        ensures
            t@ == DirtyModel::fresh(DirtyModel::strategy_for(count as nat)),
            t@.is_clean(),
    {
        if count > FULL_PUSH_MAX_CELLS {
            UpdateHandler::Square { region: None }
        } else {
            UpdateHandler::Full { dirty: false }
        }
    }

    /// A pristine tracker of an explicitly chosen strategy.
    pub fn fresh_of(kind: StrategyKind) -> (t: UpdateHandler)
        ensures
            t@ == DirtyModel::fresh(kind),
            t@.is_clean(),
    {
        let t = match kind {
            StrategyKind::Full => UpdateHandler::Full { dirty: false },
            StrategyKind::Square => UpdateHandler::Square { region: None },
            StrategyKind::PointSet => UpdateHandler::PointSet { points: Vec::new() },
        };
        proof {
            if kind is PointSet {
                assert(t@->points =~= Set::empty());
            }
        }
        t
    }

    /// Records one touched cell under the active strategy.
    #[verifier::loop_isolation(false)]
    pub fn register(&mut self, p: CellIndex)
        ensures
            final(self)@ == old(self)@.spec_register(p),
    {
        match self {
            UpdateHandler::Full { dirty } => {
                *dirty = true;
            },
            UpdateHandler::Square { region } => {
                match region {
                    None => {
                        *region = Some(DirtyRect { lower: p, upper: p });
                    },
                    Some(r) => {
                        if p.x < r.lower.x {
                            r.lower.x = p.x;
                        }
                        if p.y < r.lower.y {
                            r.lower.y = p.y;
                        }
                        if p.x > r.upper.x {
                            r.upper.x = p.x;
                        }
                        if p.y > r.upper.y {
                            r.upper.y = p.y;
                        }
                    },
                }
            },
            UpdateHandler::PointSet { points } => {
                let ghost s0 = points@;
                let n = points.len();
                let mut i: usize = 0;
                let mut found = false;
                while i < n
                    invariant
                        points@ == s0,
                        n == points@.len(),
                        i <= n,
                        found <==> exists|j: int| 0 <= j < i && points@[j] == p,
                    decreases n - i,
                {
                    if points[i] == p {
                        found = true;
                    }
                    i += 1;
                }
                if !found {
                    points.push(p);
                }
                proof {
                    assert(found <==> s0.contains(p));
                    assert forall|c: CellIndex|
                        points@.contains(c) <==> (s0.contains(c) || c == p) by {
                        if !found {
                            vstd::seq_lib::lemma_seq_contains_after_push(s0, p, c);
                        }
                    }
                    assert(Set::new(|c: CellIndex| points@.contains(c)) =~= Set::new(
                        |c: CellIndex| s0.contains(c),
                    ).insert(p));
                }
            },
        }
    }

    /// Forgets everything recorded; the strategy is kept.
    pub fn clear(&mut self)
        ensures
            final(self)@ == old(self)@.spec_clear(),
            final(self)@.is_clean(),
    {
        match &*self {
            UpdateHandler::Full { .. } => {
                *self = UpdateHandler::Full { dirty: false };
            },
            UpdateHandler::Square { .. } => {
                *self = UpdateHandler::Square { region: None };
            },
            UpdateHandler::PointSet { .. } => {
                *self = UpdateHandler::PointSet { points: Vec::new() };
                proof {
                    assert(self@->points =~= Set::empty());
                }
            },
        }
    }

    /// Re-evaluates the size threshold after a resize; see
    /// [`DirtyModel::spec_update_from_elements`]. A replacement discards any
    /// unflushed dirty state, so callers that must not drop updates
    /// synchronize before resizing.
    pub fn update_from_elements(&mut self, count: usize)
        ensures
            final(self)@ == old(self)@.spec_update_from_elements(count as nat),
    {
        let keep = match self {
            UpdateHandler::Full { .. } => count <= FULL_PUSH_MAX_CELLS,
            UpdateHandler::Square { .. } => count > FULL_PUSH_MAX_CELLS,
            UpdateHandler::PointSet { .. } => false,
        };
        if !keep {
            *self = UpdateHandler::from_elements(count);
        }
    }
}

/// Law: recording a cell under the `Square` strategy always yields a box,
/// that box contains the recorded cell, and it still contains everything the
/// previous box contained — the merge is a symmetric min/max expansion.
pub proof fn lemma_register_expands_box(t: DirtyModel, p: CellIndex)
    requires
        t is SquareModel,
    ensures
        t.spec_register(p) matches DirtyModel::SquareModel { region: Some(r2) } && rect_contains(
            r2,
            p,
        ) && (t->region matches Some(r1) ==> forall|q: CellIndex|
            rect_contains(r1, q) ==> rect_contains(r2, q)),
{
}

/// Law: a tracker kept within a capacity rectangle stays within it when a
/// cell inside that rectangle is recorded, and when it is cleared.
pub proof fn lemma_register_keeps_cap(t: DirtyModel, p: CellIndex, cap_x: int, cap_y: int)
    requires
        t.in_cap(cap_x, cap_y),
        0 <= p.x < cap_x,
        0 <= p.y < cap_y,
    ensures
        t.spec_register(p).in_cap(cap_x, cap_y),
        t.spec_clear().in_cap(cap_x, cap_y),
{
}

/// Law: growing past the threshold switches `Full` to `Square` and discards
/// any pending dirty flag, so the next synchronization pushes nothing.
pub proof fn lemma_growth_switch_discards(t: DirtyModel, count: nat)
    requires
        t is FullModel,
        count > FULL_PUSH_MAX_CELLS,
    ensures
        t.spec_update_from_elements(count) == DirtyModel::fresh(StrategyKind::Square),
        !t.spec_update_from_elements(count).causes_push(),
{
}

/// Law: a count that stays on the same side of the threshold leaves the
/// tracker untouched, dirty state included.
pub proof fn lemma_same_strategy_keeps_state(t: DirtyModel, count: nat)
    requires
        t.strategy() == DirtyModel::strategy_for(count),
    ensures
        t.spec_update_from_elements(count) == t,
{
}

} // verus!
