//! Solver-session bookkeeping: one identifier per solve call, so that a
//! result arriving after its call was superseded or cancelled is discarded,
//! and the cooperative interruption of the call still in flight.

use vstd::prelude::*;

use crate::board::{has_open, Board};
use crate::config::target::{Target, TargetIndex};
use crate::grid::Grid;

verus! {

/// Some index of the target names cell `(i, j)`.
pub open spec fn target_blocks(indices: Seq<TargetIndex>, i: int, j: int) -> bool {
    exists|k: int|
        0 <= k < indices.len() && (#[trigger] indices[k]).0 == i && indices[k].1 == j
}

/// Whether the target names cell `(i, j)`.
fn target_contains(target: &Target, i: usize, j: usize) -> (r: bool)
    ensures
        r == target_blocks(target.indices@, i as int, j as int),
{
    let n = target.indices.len();
    let mut k: usize = 0;
    while k < n
        invariant
            n == target.indices@.len(),
            k <= n,
            forall|m: int|
                0 <= m < k ==> !((#[trigger] target.indices@[m]).0 == i && target.indices@[m].1
                    == j),
        decreases n - k,
    {
        let TargetIndex(x, y) = target.indices[k];
        if x == i && y == j {
            assert((target.indices@[k as int]).0 == i && target.indices@[k as int].1 == j);
            return true;
        }
        k = k + 1;
    }
    false
}

/// Builds the board a solve call starts from: a cell is blocked when it is
/// not part of the board layout, already occupied by a placed tile, or named
/// by the selected target.
pub fn create_board(layout: &Grid, occupied: &Grid, target: &Target) -> (b: Board)
    requires
        layout.wf(),
        layout@.rows * layout@.cols <= usize::MAX,
        occupied.wf(),
        occupied@.rows == layout@.rows,
        occupied@.cols == layout@.cols,
    ensures
        b.wf(),
        b@.rows == layout@.rows,
        b@.cols == layout@.cols,
        forall|i: int, j: int|
            b@.in_bounds(i, j) ==> b@.cell(i, j) == (!layout@.cell(i, j) || occupied@.cell(i, j)
                || target_blocks(target.indices@, i, j)),
{
    let rows = layout.rows();
    let cols = layout.cols();
    let mut b = Board::new(rows, cols);
    let mut i: usize = 0;
    while i < rows
        invariant
            layout.wf(),
            occupied.wf(),
            occupied@.rows == layout@.rows,
            occupied@.cols == layout@.cols,
            rows == layout@.rows,
            cols == layout@.cols,
            b.wf(),
            b@.rows == rows,
            b@.cols == cols,
            i <= rows,
            forall|a: int, c: int|
                0 <= a < i && 0 <= c < cols ==> b@.cell(a, c) == (!layout@.cell(a, c)
                    || occupied@.cell(a, c) || target_blocks(target.indices@, a, c)),
        decreases rows - i,
    {
        let mut j: usize = 0;
        while j < cols
            invariant
                layout.wf(),
                occupied.wf(),
                occupied@.rows == layout@.rows,
                occupied@.cols == layout@.cols,
                rows == layout@.rows,
                cols == layout@.cols,
                b.wf(),
                b@.rows == rows,
                b@.cols == cols,
                i < rows,
                j <= cols,
                forall|a: int, c: int|
                    0 <= a < i && 0 <= c < cols ==> b@.cell(a, c) == (!layout@.cell(a, c)
                        || occupied@.cell(a, c) || target_blocks(target.indices@, a, c)),
                forall|c: int|
                    0 <= c < j ==> b@.cell(i as int, c) == (!layout@.cell(i as int, c)
                        || occupied@.cell(i as int, c) || target_blocks(
                        target.indices@,
                        i as int,
                        c,
                    )),
            decreases cols - j,
        {
            let blocked = !layout.get(i, j) || occupied.get(i, j) || target_contains(target, i, j);
            b.set(i, j, blocked);
            j = j + 1;
        }
        i = i + 1;
    }
    b
}

/// Whether the board for the given layout, occupancy and target is already
/// fully covered: every cell is either off the board, occupied or targeted.
pub fn is_solved(layout: &Grid, occupied: &Grid, target: &Target) -> (r: bool)
    requires
        layout.wf(),
        layout@.rows * layout@.cols <= usize::MAX,
        occupied.wf(),
        occupied@.rows == layout@.rows,
        occupied@.cols == layout@.cols,
    ensures
        r <==> forall|i: int, j: int|
            layout@.in_bounds(i, j) ==> (!layout@.cell(i, j) || occupied@.cell(i, j)
                || target_blocks(target.indices@, i, j)),
{
    let b = create_board(layout, occupied, target);
    let full = b.is_fully_blocked();
    proof {
        if full {
            assert forall|i: int, j: int| layout@.in_bounds(i, j) implies (!layout@.cell(i, j)
                || occupied@.cell(i, j) || target_blocks(target.indices@, i, j)) by {
                if !b@.cell(i, j) {
                    assert(crate::board::row_has_open(b@, i)) by {
                        assert(0 <= j < b@.cols && !b@.cell(i, j));
                    }
                    assert(has_open(b@));
                }
            }
        } else {
            let i = choose|i: int| 0 <= i < b@.rows && crate::board::row_has_open(b@, i);
            let j = choose|j: int| 0 <= j < b@.cols && !b@.cell(i, j);
        }
    }
    full
}

/// Identifies one solve call of a session.
#[derive(Debug, Clone, Copy, PartialEq, Eq, Structural, Hash)]
pub struct SolverCallId(u64);

impl SolverCallId {
    pub closed spec fn id(self) -> u64 {
        self.0
    }
}

/// Where the solver stands for the current target selection.
#[derive(Debug, Clone, Copy, PartialEq, Eq, Structural)]
pub enum SolverStatus {
    /// The solver is switched off.
    Disabled,
    /// The identified call is still running.
    Running { call_id: SolverCallId },
    /// The last call finished with this verdict.
    Done { solvable: bool },
}

/// Mints the call identifier for a fresh solve call from the session's call
/// counter; the caller advances the counter so that no two calls share one.
pub fn create_solver_call_id(counter: u64) -> (res: SolverCallId)
    ensures
        res.id() == counter,
{
    SolverCallId(counter)
}

/// Decides how a finished solve call updates the session.  The verdict is
/// accepted only while its call is still the current one: the current call is
/// then cleared and a `Done` status is handed back for the caller to report.
/// A verdict from a superseded call changes nothing and reports nothing.
pub fn handle_on_complete(
    current_call_id: Option<SolverCallId>,
    solver_call_id: SolverCallId,
    solvable: bool,
) -> (res: (Option<SolverCallId>, Option<SolverStatus>))
    ensures
        current_call_id == Some(solver_call_id) ==> res == (
            None::<SolverCallId>,
            Some(SolverStatus::Done { solvable }),
        ),
        current_call_id != Some(solver_call_id) ==> res == (
            current_call_id,
            None::<SolverStatus>,
        ),
{
    match current_call_id {
        Some(current) => {
            if current == solver_call_id {
                (None, Some(SolverStatus::Done { solvable }))
            } else {
                (Some(current), None)
            }
        },
        None => (None, None),
    }
}

/// Requests cancellation of the identified call: the token is cancelled only
/// when the call is still the session's current one.  Returns whether a
/// cancellation was issued.
pub fn interrupt_solver_call(
    call_id: &SolverCallId,
    current_call_id: &Option<SolverCallId>,
    cancel_token: &Option<tokio_util::sync::CancellationToken>,
) -> (cancelled: bool)
    ensures
        cancelled <==> (*current_call_id == Some(*call_id) && cancel_token is Some),
{
    match current_call_id {
        Some(current) => {
            if *current == *call_id {
                match cancel_token {
                    Some(token) => {
                        token.cancel();
                        true
                    },
                    None => false,
                }
            } else {
                false
            }
        },
        None => false,
    }
}

} // verus!
