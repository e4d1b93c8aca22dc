//! The run-length compositor: it turns one frame into the shortest list of
//! single-color writes that paints it.

use crate::color::Color;
use crate::composition::{
    lemma_alternating_runs, lemma_runs_count, lemma_runs_minimal, lemma_runs_paint,
    lemma_runs_replay, lemma_runs_total, lemma_uniform_runs,
};
use crate::frame::FrameGrid;
use vstd::arithmetic::div_mod::lemma_small_mod;
use vstd::prelude::*;

verus! {

/// What happens at the end of a row of the console.
#[derive(Clone, Copy, Debug, PartialEq, Eq, Structural)]
pub enum WrapPolicy {
    /// The console moves to the next row by itself, so a run may go on
    /// across the end of a row.
    AutoWrap,
    /// The console does not wrap. A run ends with its row, and the text of
    /// a run that ends a row other than the last ends in a line break.
    LineBreak,
}

/// One unit sent to the console: `glyphs` cells of one color, followed by a
/// line break if `line_break` is set.
#[derive(Clone, Copy, Debug, PartialEq, Eq, Structural)]
pub struct DrawOp {
    pub color: Color,
    pub glyphs: usize,
    pub line_break: bool,
}

/// Whether a run must end before cell `i` whatever the colors are: under
/// `LineBreak`, at every first cell of a row but the first row's.
pub open spec fn forces_break(policy: WrapPolicy, width: nat, i: int) -> bool {
    policy == WrapPolicy::LineBreak && width > 0 && i > 0 && i % (width as int) == 0
}

/// Whether cell `i` is the first cell of a maximal run: the first cell of
/// the grid, a cell whose color differs from the cell before it, or a cell
/// before which the policy forces a break.
pub open spec fn is_run_start(cells: Seq<Color>, width: nat, policy: WrapPolicy, i: int) -> bool {
    0 <= i < cells.len() && (i == 0 || cells[i] != cells[i - 1] || forces_break(policy, width, i))
}

/// The cells at which a maximal run starts.
pub open spec fn run_starts(cells: Seq<Color>, width: nat, policy: WrapPolicy) -> Set<int> {
    Set::new(|i: int| is_run_start(cells, width, policy, i))
}

/// The number of maximal runs in the cells.
pub open spec fn run_count(cells: Seq<Color>, width: nat, policy: WrapPolicy) -> nat {
    run_starts(cells, width, policy).len()
}

/// The cells that one op paints.
pub open spec fn block(op: DrawOp) -> Seq<Color> {
    Seq::new(op.glyphs as nat, |j: int| op.color)
}

/// The cells that a list of ops paints when they are applied in order.
pub open spec fn replay(ops: Seq<DrawOp>) -> Seq<Color>
    decreases ops.len(),
{
    if ops.len() == 0 {
        Seq::empty()
    } else {
        replay(ops.drop_last()) + block(ops.last())
    }
}

/// The number of glyphs that a list of ops writes.
pub open spec fn total_glyphs(ops: Seq<DrawOp>) -> nat
    decreases ops.len(),
{
    if ops.len() == 0 {
        0
    } else {
        total_glyphs(ops.drop_last()) + ops.last().glyphs as nat
    }
}

/// The ops with the last one marked as ending in a line break, if asked.
pub open spec fn close_run(ops: Seq<DrawOp>, line_break: bool) -> Seq<DrawOp> {
    if ops.len() == 0 || !line_break {
        ops
    } else {
        ops.update(ops.len() - 1, DrawOp { line_break: true, ..ops.last() })
    }
}

/// The ops with the last one longer by one glyph.
pub open spec fn extend_run(ops: Seq<DrawOp>) -> Seq<DrawOp> {
    if ops.len() == 0 {
        ops
    } else {
        ops.update(
            ops.len() - 1,
            DrawOp { glyphs: (ops.last().glyphs + 1) as usize, ..ops.last() },
        )
    }
}

/// The maximal runs of the cells, in order: the composition of a frame.
/// A cell either starts a new run or makes the run before it one longer.
pub open spec fn runs(cells: Seq<Color>, width: nat, policy: WrapPolicy) -> Seq<DrawOp>
    decreases cells.len(),
{
    if cells.len() == 0 {
        Seq::empty()
    } else {
        let last = cells.len() - 1;
        let before = runs(cells.drop_last(), width, policy);
        if is_run_start(cells, width, policy, last) {
            close_run(before, forces_break(policy, width, last)).push(
                DrawOp { color: cells[last], glyphs: 1, line_break: false },
            )
        } else {
            extend_run(before)
        }
    }
}

/// All cells have one color.
pub open spec fn is_uniform(cells: Seq<Color>) -> bool {
    forall|i: int, j: int| 0 <= i < cells.len() && 0 <= j < cells.len() ==> cells[i] == cells[j]
}

/// Every cell differs in color from the cell before it.
pub open spec fn is_alternating(cells: Seq<Color>) -> bool {
    forall|i: int| 0 <= i && i + 1 < cells.len() ==> #[trigger] cells[i] != cells[i + 1]
}

/// The number of glyphs that the first `k` ops of a list write: the cell at
/// which op `k` starts.
pub open spec fn offset(ops: Seq<DrawOp>, k: int) -> nat {
    total_glyphs(ops.take(k))
}

/// Whether a list of ops paints the cells faithfully: replayed in order it
/// gives the cells back, and no op goes on across a break that the policy
/// forces.
pub open spec fn paints(ops: Seq<DrawOp>, cells: Seq<Color>, width: nat, policy: WrapPolicy) -> bool {
    &&& replay(ops) == cells
    &&& forall|k: int, i: int|
        #![trigger offset(ops, k), forces_break(policy, width, i)]
        0 <= k < ops.len() && offset(ops, k) < i < offset(ops, k + 1) ==> !forces_break(
            policy,
            width,
            i,
        )
}

/// Composes a frame: the list of its maximal single-color runs in row-major
/// order, which is the shortest list of ops that paints it.
pub fn compose(grid: &FrameGrid, policy: WrapPolicy) -> (ops: Vec<DrawOp>)
    ensures
        ops@ == runs(grid@.cells, grid@.width, policy),
        ops@.len() == run_count(grid@.cells, grid@.width, policy),
        total_glyphs(ops@) == grid@.width * grid@.height,
        replay(ops@) == grid@.cells,
        paints(ops@, grid@.cells, grid@.width, policy),
        forall|other: Seq<DrawOp>| #[trigger]
            paints(other, grid@.cells, grid@.width, policy) ==> other.len() >= ops@.len(),
        grid@.cells.len() > 0 && is_uniform(grid@.cells) && (policy == WrapPolicy::AutoWrap
            || grid@.height == 1) ==> ops@ == seq![
            DrawOp {
                color: grid@.cells[0],
                glyphs: (grid@.width * grid@.height) as usize,
                line_break: false,
            },
        ],
        is_alternating(grid@.cells) ==> ops@.len() == grid@.width * grid@.height && forall|k: int|
            0 <= k < ops@.len() ==> (#[trigger] ops@[k]).glyphs == 1 && ops@[k].color
                == grid@.cells[k],
{
    let cells = grid.cells();
    let width = grid.width();
    let count = cells.len();
    let mut ops: Vec<DrawOp> = Vec::new();
    if count > 0 {
        assert(width > 0) by (nonlinear_arith)
            requires
                count > 0,
                count == width * grid@.height,
        ;
        let mut current = cells[0];
        let mut pending: usize = 1;
        let mut i: usize = 1;
        proof {
            let first = cells@.take(1);
            assert(runs(first.drop_last(), width as nat, policy) =~= Seq::<DrawOp>::empty());
            assert(runs(first, width as nat, policy) =~= ops@.push(
                DrawOp { color: current, glyphs: pending, line_break: false },
            ));
        }
        while i < count
            invariant
                1 <= i <= count,
                count == cells@.len(),
                width > 0,
                1 <= pending <= i,
                current == cells@[i - 1],
                runs(cells@.take(i as int), width as nat, policy) == ops@.push(
                    DrawOp { color: current, glyphs: pending, line_break: false },
                ),
            decreases count - i,
        {
            let color = cells[i];
            let forced = policy == WrapPolicy::LineBreak && i % width == 0;
            proof {
                let seen = cells@.take(i as int);
                let next = cells@.take(i + 1);
                assert(next.drop_last() =~= seen);
                assert(next[i as int] == cells@[i as int]);
                assert(next[i - 1] == cells@[i - 1]);
                assert(forced == forces_break(policy, width as nat, i as int));
            }
            if color == current && !forced {
                pending += 1;
                proof {
                    let open = DrawOp { color: current, glyphs: (pending - 1) as usize, line_break: false };
                    assert(extend_run(ops@.push(open)) =~= ops@.push(
                        DrawOp { color: current, glyphs: pending, line_break: false },
                    ));
                }
            } else {
                proof {
                    let open = DrawOp { color: current, glyphs: pending, line_break: false };
                    assert(close_run(ops@.push(open), forced) =~= ops@.push(
                        DrawOp { color: current, glyphs: pending, line_break: forced },
                    ));
                }
                ops.push(DrawOp { color: current, glyphs: pending, line_break: forced });
                current = color;
                pending = 1;
            }
            i += 1;
        }
        ops.push(DrawOp { color: current, glyphs: pending, line_break: false });
        assert(cells@.take(count as int) =~= cells@);
    }
    proof {
        let w = grid@.width;
        lemma_runs_count(cells@, w, policy);
        lemma_runs_total(cells@, w, policy);
        lemma_runs_replay(cells@, w, policy);
        lemma_runs_paint(cells@, w, policy);
        assert forall|other: Seq<DrawOp>| #[trigger]
            paints(other, cells@, w, policy) implies other.len() >= runs(
            cells@,
            w,
            policy,
        ).len() by {
            lemma_runs_minimal(other, cells@, w, policy);
        }
        if cells@.len() > 0 && is_uniform(cells@) && (policy == WrapPolicy::AutoWrap || grid@.height
            == 1) {
            assert(grid@.height == 1 ==> cells@.len() == w) by (nonlinear_arith)
                requires
                    cells@.len() == w * grid@.height,
            ;
            assert forall|i: int| 0 < i < cells@.len() implies !forces_break(policy, w, i) by {
                if policy == WrapPolicy::LineBreak {
                    lemma_small_mod(i as nat, w);
                }
            }
            lemma_uniform_runs(cells@, w, policy);
        }
        if is_alternating(cells@) {
            lemma_alternating_runs(cells@, w, policy);
        }
    }
    ops
}

} // verus!
