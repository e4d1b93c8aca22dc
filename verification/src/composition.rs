//! What holds of every composition: it paints the frame cell for cell, its
//! ops are exactly the maximal runs of the frame, and no faithful painting
//! is shorter.

use crate::color::Color;
use crate::compositor::{
    block, close_run, extend_run, forces_break, is_alternating, is_run_start, is_uniform, offset,
    paints, replay, run_count, run_starts, runs, total_glyphs, DrawOp, WrapPolicy,
};
use vstd::prelude::*;
use vstd::set_lib::lemma_len_subset;

verus! {

/// The last op of a list changes neither what the ops before it paint nor
/// how many glyphs they write.
proof fn lemma_last_op(ops: Seq<DrawOp>, op: DrawOp)
    ensures
        replay(ops.push(op)) == replay(ops) + block(op),
        total_glyphs(ops.push(op)) == total_glyphs(ops) + op.glyphs,
        ops.len() > 0 ==> replay(ops.update(ops.len() - 1, op)) == replay(ops.drop_last()) + block(
            op,
        ),
        ops.len() > 0 ==> total_glyphs(ops.update(ops.len() - 1, op)) == total_glyphs(
            ops.drop_last(),
        ) + op.glyphs,
{
    assert(ops.push(op).drop_last() =~= ops);
    if ops.len() > 0 {
        assert(ops.update(ops.len() - 1, op).drop_last() =~= ops.drop_last());
    }
}

/// The shape of the last run: it has the color of the last cell, at least
/// one glyph and at most as many as there are cells, and no line break.
pub proof fn lemma_runs_last(cells: Seq<Color>, width: nat, policy: WrapPolicy)
    requires
        0 < cells.len() <= usize::MAX,
    ensures
        runs(cells, width, policy).len() > 0,
        runs(cells, width, policy).last().color == cells.last(),
        1 <= runs(cells, width, policy).last().glyphs <= cells.len(),
        !runs(cells, width, policy).last().line_break,
    decreases cells.len(),
{
    if cells.len() > 1 {
        lemma_runs_last(cells.drop_last(), width, policy);
    }
}

/// Replaying the runs of a grid gives back its cells, color for color.
pub proof fn lemma_runs_replay(cells: Seq<Color>, width: nat, policy: WrapPolicy)
    requires
        cells.len() <= usize::MAX,
    ensures
        replay(runs(cells, width, policy)) == cells,
    decreases cells.len(),
{
    if cells.len() > 0 {
        let last = cells.len() - 1;
        let head = cells.drop_last();
        let before = runs(head, width, policy);
        lemma_runs_replay(head, width, policy);
        if is_run_start(cells, width, policy, last) {
            let closed = close_run(before, forces_break(policy, width, last));
            let op = DrawOp { color: cells[last], glyphs: 1, line_break: false };
            if closed != before {
                lemma_last_op(before.drop_last(), before.last());
                lemma_last_op(before, closed.last());
                assert(before.drop_last().push(before.last()) =~= before);
                assert(block(closed.last()) =~= block(before.last()));
            }
            lemma_last_op(closed, op);
            assert(block(op) =~= seq![cells[last]]);
            assert(head + seq![cells[last]] =~= cells);
        } else {
            lemma_runs_last(head, width, policy);
            let longer = extend_run(before).last();
            lemma_last_op(before.drop_last(), before.last());
            lemma_last_op(before, longer);
            assert(before.drop_last().push(before.last()) =~= before);
            assert(block(longer) =~= block(before.last()) + seq![cells[last]]);
            assert(head + seq![cells[last]] =~= cells);
        }
    }
}

/// A list of ops paints as many cells as it writes glyphs.
pub proof fn lemma_replay_len(ops: Seq<DrawOp>)
    ensures
        replay(ops).len() == total_glyphs(ops),
    decreases ops.len(),
{
    if ops.len() > 0 {
        lemma_replay_len(ops.drop_last());
    }
}

/// The runs of a grid write one glyph for each of its cells.
pub proof fn lemma_runs_total(cells: Seq<Color>, width: nat, policy: WrapPolicy)
    requires
        cells.len() <= usize::MAX,
    ensures
        total_glyphs(runs(cells, width, policy)) == cells.len(),
    decreases cells.len(),
{
    if cells.len() > 0 {
        let last = cells.len() - 1;
        let head = cells.drop_last();
        let before = runs(head, width, policy);
        lemma_runs_total(head, width, policy);
        if is_run_start(cells, width, policy, last) {
            let closed = close_run(before, forces_break(policy, width, last));
            let op = DrawOp { color: cells[last], glyphs: 1, line_break: false };
            if closed != before {
                lemma_last_op(before.drop_last(), before.last());
                lemma_last_op(before, closed.last());
                assert(before.drop_last().push(before.last()) =~= before);
            }
            lemma_last_op(closed, op);
        } else {
            lemma_runs_last(head, width, policy);
            lemma_last_op(before.drop_last(), before.last());
            lemma_last_op(before, extend_run(before).last());
            assert(before.drop_last().push(before.last()) =~= before);
        }
    }
}

/// The run starts of a grid are those of the grid without its last cell,
/// and the last cell if a run starts there.
proof fn lemma_run_starts_step(cells: Seq<Color>, width: nat, policy: WrapPolicy)
    requires
        cells.len() > 0,
    ensures
        run_starts(cells, width, policy) == if is_run_start(
            cells,
            width,
            policy,
            cells.len() - 1,
        ) {
            run_starts(cells.drop_last(), width, policy).insert(cells.len() - 1)
        } else {
            run_starts(cells.drop_last(), width, policy)
        },
        !run_starts(cells.drop_last(), width, policy).contains(cells.len() - 1),
{
    let head = cells.drop_last();
    assert forall|i: int| 0 <= i < head.len() implies is_run_start(cells, width, policy, i)
        == is_run_start(head, width, policy, i) by {
        if i > 0 {
            assert(head[i - 1] == cells[i - 1]);
        }
        assert(head[i] == cells[i]);
    }
    if is_run_start(cells, width, policy, cells.len() - 1) {
        assert(run_starts(cells, width, policy) =~= run_starts(head, width, policy).insert(
            cells.len() - 1,
        ));
    } else {
        assert(run_starts(cells, width, policy) =~= run_starts(head, width, policy));
    }
}

/// There are finitely many run starts, no more than there are cells.
pub proof fn lemma_run_starts_finite(cells: Seq<Color>, width: nat, policy: WrapPolicy)
    ensures
        run_starts(cells, width, policy).finite(),
        run_count(cells, width, policy) <= cells.len(),
    decreases cells.len(),
{
    if cells.len() == 0 {
        assert(run_starts(cells, width, policy) =~= Set::<int>::empty());
    } else {
        lemma_run_starts_finite(cells.drop_last(), width, policy);
        lemma_run_starts_step(cells, width, policy);
    }
}

/// A grid with `k` maximal runs is composed into exactly `k` ops.
pub proof fn lemma_runs_count(cells: Seq<Color>, width: nat, policy: WrapPolicy)
    ensures
        runs(cells, width, policy).len() == run_count(cells, width, policy),
    decreases cells.len(),
{
    if cells.len() == 0 {
        assert(run_starts(cells, width, policy) =~= Set::<int>::empty());
    } else {
        lemma_runs_count(cells.drop_last(), width, policy);
        lemma_run_starts_finite(cells.drop_last(), width, policy);
        lemma_run_starts_step(cells, width, policy);
        if !is_run_start(cells, width, policy, cells.len() - 1) {
            // a cell that starts no run has a cell before it, so a run to extend
            assert(cells.drop_last().len() > 0);
            assert(is_run_start(cells.drop_last(), width, policy, 0));
            assert(run_starts(cells.drop_last(), width, policy).contains(0));
            assert(run_count(cells.drop_last(), width, policy) > 0) by {
                if run_starts(cells.drop_last(), width, policy).len() == 0 {
                    assert(run_starts(cells.drop_last(), width, policy) =~= Set::<int>::empty());
                }
            }
        }
    }
}

/// A non-empty grid of one color, within which the policy forces no break,
/// is composed into a single op that covers every cell.
pub proof fn lemma_uniform_runs(cells: Seq<Color>, width: nat, policy: WrapPolicy)
    requires
        0 < cells.len() <= usize::MAX,
        is_uniform(cells),
        forall|i: int| 0 < i < cells.len() ==> !forces_break(policy, width, i),
    ensures
        runs(cells, width, policy) == seq![
            DrawOp { color: cells[0], glyphs: cells.len() as usize, line_break: false },
        ],
    decreases cells.len(),
{
    let op = DrawOp { color: cells[0], glyphs: cells.len() as usize, line_break: false };
    if cells.len() == 1 {
        assert(runs(cells.drop_last(), width, policy) =~= Seq::<DrawOp>::empty());
        assert(runs(cells, width, policy) =~= seq![op]);
    } else {
        let head = cells.drop_last();
        assert(is_uniform(head)) by {
            assert forall|i: int, j: int| 0 <= i < head.len() && 0 <= j < head.len() implies head[i]
                == head[j] by {
                assert(head[i] == cells[i] && head[j] == cells[j]);
            }
        }
        lemma_uniform_runs(head, width, policy);
        assert(cells[cells.len() - 1] == cells[cells.len() - 2]);
        assert(!is_run_start(cells, width, policy, cells.len() - 1));
        assert(runs(cells, width, policy) =~= seq![op]);
    }
}

/// A grid in which every cell differs in color from the cell before it is
/// composed into one op of one glyph for each cell.
pub proof fn lemma_alternating_runs(cells: Seq<Color>, width: nat, policy: WrapPolicy)
    requires
        is_alternating(cells),
    ensures
        runs(cells, width, policy).len() == cells.len(),
        forall|k: int|
            0 <= k < cells.len() ==> {
                &&& (#[trigger] runs(cells, width, policy)[k]).glyphs == 1
                &&& runs(cells, width, policy)[k].color == cells[k]
            },
    decreases cells.len(),
{
    if cells.len() > 0 {
        let last = cells.len() - 1;
        let head = cells.drop_last();
        assert(is_alternating(head)) by {
            assert forall|i: int| 0 <= i && i + 1 < head.len() implies #[trigger] head[i] != head[i
                + 1] by {
                assert(head[i] == cells[i] && head[i + 1] == cells[i + 1]);
            }
        }
        lemma_alternating_runs(head, width, policy);
        if last > 0 {
            assert(cells[last - 1] != cells[last - 1 + 1]);
        }
        assert(is_run_start(cells, width, policy, last));
    }
}

/// The cell at which an op starts depends only on the lengths of the ops
/// before it.
proof fn lemma_offset_same(a: Seq<DrawOp>, b: Seq<DrawOp>, k: int)
    requires
        0 <= k <= a.len(),
        k <= b.len(),
        forall|j: int| 0 <= j < k ==> (#[trigger] a[j]).glyphs == b[j].glyphs,
    ensures
        offset(a, k) == offset(b, k),
    decreases k,
{
    if k > 0 {
        lemma_offset_same(a, b, k - 1);
        assert(a.take(k).drop_last() =~= a.take(k - 1));
        assert(b.take(k).drop_last() =~= b.take(k - 1));
        assert(a.take(k).last() == a[k - 1]);
        assert(b.take(k).last() == b[k - 1]);
    }
}

/// Ops start one after the other, and none starts beyond the glyphs of
/// them all.
pub proof fn lemma_offset_bounds(ops: Seq<DrawOp>, k: int)
    requires
        0 <= k <= ops.len(),
    ensures
        offset(ops, k) <= total_glyphs(ops),
        offset(ops, 0) == 0,
        offset(ops, ops.len() as int) == total_glyphs(ops),
        k < ops.len() ==> offset(ops, k + 1) == offset(ops, k) + ops[k].glyphs,
    decreases ops.len() - k,
{
    assert(ops.take(ops.len() as int) =~= ops);
    assert(ops.take(0) =~= Seq::<DrawOp>::empty());
    if k < ops.len() {
        lemma_offset_bounds(ops, k + 1);
        assert(ops.take(k + 1).drop_last() =~= ops.take(k));
        assert(ops.take(k + 1).last() == ops[k]);
    }
}

/// Whether a cell starts a run does not depend on the cells after it.
proof fn lemma_run_start_prefix(cells: Seq<Color>, width: nat, policy: WrapPolicy, i: int)
    requires
        0 <= i < cells.len() - 1,
    ensures
        is_run_start(cells, width, policy, i) == is_run_start(cells.drop_last(), width, policy, i),
{
    let head = cells.drop_last();
    assert(head[i] == cells[i]);
    if i > 0 {
        assert(head[i - 1] == cells[i - 1]);
    }
}

/// How the last cell changes a composition: it starts a run of its own
/// after the ops of the cells before it, the last of which then ends in a
/// line break if one is forced there; or it makes the last of those ops one
/// glyph longer.
proof fn lemma_runs_step(cells: Seq<Color>, width: nat, policy: WrapPolicy)
    requires
        0 < cells.len() <= usize::MAX,
    ensures
        ({
            let n = cells.len() as int;
            let before = runs(cells.drop_last(), width, policy);
            let ops = runs(cells, width, policy);
            if is_run_start(cells, width, policy, n - 1) {
                &&& ops.len() == before.len() + 1
                &&& ops.last() == DrawOp { color: cells[n - 1], glyphs: 1, line_break: false }
                &&& forall|k: int|
                    0 <= k < before.len() ==> (#[trigger] ops[k]).glyphs == before[k].glyphs
                &&& forall|k: int| 0 <= k < before.len() - 1 ==> #[trigger] ops[k] == before[k]
                &&& before.len() > 0 ==> ops[before.len() - 1].line_break == forces_break(
                    policy,
                    width,
                    n - 1,
                )
            } else {
                &&& ops.len() == before.len()
                &&& ops.len() > 0
                &&& ops.last().glyphs == before.last().glyphs + 1
                &&& !ops.last().line_break
                &&& forall|k: int| 0 <= k < before.len() - 1 ==> #[trigger] ops[k] == before[k]
            }
        }),
{
    let head = cells.drop_last();
    if head.len() > 0 {
        lemma_runs_last(head, width, policy);
    }
}

/// Where the ops of a composition start, against the composition of the
/// cells without the last: the ops that both have start at the same cells.
proof fn lemma_runs_step_offsets(cells: Seq<Color>, width: nat, policy: WrapPolicy, k: int)
    requires
        0 < cells.len() <= usize::MAX,
        0 <= k <= runs(cells, width, policy).len(),
    ensures
        ({
            let n = cells.len() as int;
            let before = runs(cells.drop_last(), width, policy);
            let ops = runs(cells, width, policy);
            if k == ops.len() {
                offset(ops, k) == n
            } else {
                &&& k <= before.len()
                &&& offset(ops, k) == offset(before, k)
                &&& offset(ops, k) <= n - 1
                &&& k == before.len() ==> offset(ops, k) == n - 1
            }
        }),
{
    let before = runs(cells.drop_last(), width, policy);
    let ops = runs(cells, width, policy);
    lemma_runs_step(cells, width, policy);
    lemma_runs_total(cells, width, policy);
    lemma_runs_total(cells.drop_last(), width, policy);
    lemma_offset_bounds(ops, k);
    if k < ops.len() {
        assert forall|j: int| 0 <= j < k implies (#[trigger] ops[j]).glyphs == before[j].glyphs by {
            if j < before.len() - 1 {
                assert(ops[j] == before[j]);
            }
        }
        lemma_offset_same(ops, before, k);
        lemma_offset_bounds(before, k);
    }
}

/// Every op of a composition has at least one glyph.
pub proof fn lemma_runs_glyphs(cells: Seq<Color>, width: nat, policy: WrapPolicy, k: int)
    requires
        cells.len() <= usize::MAX,
        0 <= k < runs(cells, width, policy).len(),
    ensures
        runs(cells, width, policy)[k].glyphs >= 1,
    decreases cells.len(),
{
    let before = runs(cells.drop_last(), width, policy);
    let ops = runs(cells, width, policy);
    lemma_runs_step(cells, width, policy);
    if k == ops.len() - 1 {
        lemma_runs_last(cells, width, policy);
    } else {
        lemma_runs_glyphs(cells.drop_last(), width, policy, k);
        if k < before.len() - 1 {
            assert(ops[k] == before[k]);
        } else {
            assert(ops[k].glyphs == before[k].glyphs);
        }
    }
}

/// Every op of a composition starts where a maximal run starts.
pub proof fn lemma_runs_start(cells: Seq<Color>, width: nat, policy: WrapPolicy, k: int)
    requires
        cells.len() <= usize::MAX,
        0 <= k < runs(cells, width, policy).len(),
    ensures
        is_run_start(cells, width, policy, offset(runs(cells, width, policy), k) as int),
    decreases cells.len(),
{
    let n = cells.len() as int;
    let before = runs(cells.drop_last(), width, policy);
    lemma_runs_step(cells, width, policy);
    lemma_runs_step_offsets(cells, width, policy, k);
    if k < before.len() {
        lemma_runs_start(cells.drop_last(), width, policy, k);
        lemma_run_start_prefix(cells, width, policy, offset(before, k) as int);
    }
}

/// No maximal run starts within an op of a composition.
pub proof fn lemma_runs_inside(cells: Seq<Color>, width: nat, policy: WrapPolicy, k: int, i: int)
    requires
        cells.len() <= usize::MAX,
        0 <= k < runs(cells, width, policy).len(),
        offset(runs(cells, width, policy), k) < i < offset(runs(cells, width, policy), k + 1),
    ensures
        !is_run_start(cells, width, policy, i),
    decreases cells.len(),
{
    let n = cells.len() as int;
    let before = runs(cells.drop_last(), width, policy);
    let ops = runs(cells, width, policy);
    lemma_runs_step(cells, width, policy);
    lemma_runs_step_offsets(cells, width, policy, k);
    lemma_runs_step_offsets(cells, width, policy, k + 1);
    if i < n - 1 {
        lemma_run_start_prefix(cells, width, policy, i);
        // an op that reaches beyond cell `i + 1` was there without the last cell
        assert(k < before.len());
        lemma_offset_bounds(before, k + 1);
        lemma_runs_total(cells.drop_last(), width, policy);
        if k + 1 < ops.len() {
            assert(offset(before, k + 1) == offset(ops, k + 1));
        } else {
            assert(before.len() == ops.len());
            assert(offset(before, k + 1) == n - 1);
        }
        lemma_runs_inside(cells.drop_last(), width, policy, k, i);
    } else {
        // the last cell lies within an op only if it starts no run
        assert(i == n - 1);
        assert(k + 1 == ops.len());
        if is_run_start(cells, width, policy, n - 1) {
            assert(k == before.len());
            assert(offset(ops, k) == n - 1);
        }
    }
}

/// An op of a composition ends in a line break exactly when another op
/// follows it across a break that the policy forces.
pub proof fn lemma_runs_line_break(cells: Seq<Color>, width: nat, policy: WrapPolicy, k: int)
    requires
        cells.len() <= usize::MAX,
        0 <= k < runs(cells, width, policy).len(),
    ensures
        runs(cells, width, policy)[k].line_break == (k + 1 < runs(cells, width, policy).len()
            && forces_break(policy, width, offset(runs(cells, width, policy), k + 1) as int)),
    decreases cells.len(),
{
    let n = cells.len() as int;
    let before = runs(cells.drop_last(), width, policy);
    let ops = runs(cells, width, policy);
    lemma_runs_step(cells, width, policy);
    lemma_runs_step_offsets(cells, width, policy, k + 1);
    if k == ops.len() - 1 {
        lemma_runs_last(cells, width, policy);
    } else if k < before.len() - 1 {
        assert(ops[k] == before[k]);
        lemma_runs_line_break(cells.drop_last(), width, policy, k);
    } else {
        // the op that was the last before the last cell started a run
        assert(k == before.len() - 1);
        assert(is_run_start(cells, width, policy, n - 1));
        assert(offset(ops, k + 1) == n - 1);
    }
}

/// The ops of a composition are exactly the maximal runs of the grid:
/// each has at least one glyph and starts where a run starts, no run starts
/// within one, and an op ends in a line break exactly when another op
/// follows it across a break that the policy forces.
pub proof fn lemma_runs_shape(cells: Seq<Color>, width: nat, policy: WrapPolicy)
    requires
        cells.len() <= usize::MAX,
    ensures
        forall|k: int|
            0 <= k < runs(cells, width, policy).len() ==> {
                &&& (#[trigger] runs(cells, width, policy)[k]).glyphs >= 1
                &&& is_run_start(cells, width, policy, offset(runs(cells, width, policy), k) as int)
                &&& runs(cells, width, policy)[k].line_break == (k + 1 < runs(
                    cells,
                    width,
                    policy,
                ).len() && forces_break(
                    policy,
                    width,
                    offset(runs(cells, width, policy), k + 1) as int,
                ))
            },
        forall|k: int, i: int|
            #![trigger offset(runs(cells, width, policy), k), is_run_start(cells, width, policy, i)]
            0 <= k < runs(cells, width, policy).len() && offset(runs(cells, width, policy), k) < i
                < offset(runs(cells, width, policy), k + 1) ==> !is_run_start(
                cells,
                width,
                policy,
                i,
            ),
{
    let ops = runs(cells, width, policy);
    assert forall|k: int| 0 <= k < ops.len() implies {
        &&& (#[trigger] ops[k]).glyphs >= 1
        &&& is_run_start(cells, width, policy, offset(ops, k) as int)
        &&& ops[k].line_break == (k + 1 < ops.len() && forces_break(
            policy,
            width,
            offset(ops, k + 1) as int,
        ))
    } by {
        lemma_runs_glyphs(cells, width, policy, k);
        lemma_runs_start(cells, width, policy, k);
        lemma_runs_line_break(cells, width, policy, k);
    }
    assert forall|k: int, i: int|
        #![trigger offset(ops, k), is_run_start(cells, width, policy, i)]
        0 <= k < ops.len() && offset(ops, k) < i < offset(ops, k + 1) implies !is_run_start(
        cells,
        width,
        policy,
        i,
    ) by {
        lemma_runs_inside(cells, width, policy, k, i);
    }
}

/// The composition of a grid paints it faithfully. With
/// `lemma_runs_minimal`: it is a shortest list of ops that does.
pub proof fn lemma_runs_paint(cells: Seq<Color>, width: nat, policy: WrapPolicy)
    requires
        cells.len() <= usize::MAX,
    ensures
        paints(runs(cells, width, policy), cells, width, policy),
{
    let ops = runs(cells, width, policy);
    lemma_runs_replay(cells, width, policy);
    lemma_runs_total(cells, width, policy);
    lemma_runs_shape(cells, width, policy);
    assert forall|k: int, i: int|
        #![trigger offset(ops, k), forces_break(policy, width, i)]
        0 <= k < ops.len() && offset(ops, k) < i < offset(ops, k + 1) implies !forces_break(
        policy,
        width,
        i,
    ) by {
        lemma_offset_bounds(ops, k + 1);
        assert(!is_run_start(cells, width, policy, i));
    }
}

/// No faithful painting of a grid is shorter than its composition: every
/// list of ops that paints the cells has at least as many ops as the cells
/// have maximal runs.
pub proof fn lemma_runs_minimal(
    ops: Seq<DrawOp>,
    cells: Seq<Color>,
    width: nat,
    policy: WrapPolicy,
)
    requires
        paints(ops, cells, width, policy),
    ensures
        ops.len() >= run_count(cells, width, policy),
        ops.len() >= runs(cells, width, policy).len(),
    decreases ops.len(),
{
    lemma_runs_count(cells, width, policy);
    if ops.len() == 0 {
        assert(run_starts(cells, width, policy) =~= Set::<int>::empty());
    } else {
        let front = ops.drop_last();
        let op = ops.last();
        let head = replay(front);
        lemma_replay_len(front);
        lemma_replay_len(ops);
        assert(ops.take(ops.len() as int) =~= ops);
        assert(ops.take(ops.len() - 1) =~= front);
        assert(paints(front, head, width, policy)) by {
            assert forall|k: int, i: int|
                #![trigger offset(front, k), forces_break(policy, width, i)]
                0 <= k < front.len() && offset(front, k) < i < offset(
                    front,
                    k + 1,
                ) implies !forces_break(policy, width, i) by {
                assert(front.take(k) =~= ops.take(k));
                assert(front.take(k + 1) =~= ops.take(k + 1));
                assert(offset(ops, k) < i < offset(ops, k + 1));
            }
        }
        lemma_runs_minimal(front, head, width, policy);
        lemma_run_starts_finite(head, width, policy);
        let wider = run_starts(head, width, policy).insert(head.len() as int);
        assert(run_starts(cells, width, policy).subset_of(wider)) by {
            assert forall|i: int| run_starts(cells, width, policy).contains(i) implies wider.contains(
                i,
            ) by {
                if i < head.len() {
                    assert(cells[i] == head[i]);
                    if i > 0 {
                        assert(cells[i - 1] == head[i - 1]);
                    }
                    assert(is_run_start(head, width, policy, i));
                } else if i > head.len() {
                    assert(cells[i] == block(op)[i - head.len()]);
                    assert(cells[i - 1] == block(op)[i - 1 - head.len()]);
                    assert(offset(ops, ops.len() - 1) < i < offset(ops, ops.len() - 1 + 1));
                    assert(!forces_break(policy, width, i));
                }
            }
        }
        lemma_len_subset(run_starts(cells, width, policy), wider);
    }
}

} // verus!
