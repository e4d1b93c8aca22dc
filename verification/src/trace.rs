//! What holds of every run of the player: the order of its calls, what a
//! failed call leads to, and how the calls of a frame are laid out.

use crate::composition::lemma_runs_count;
use crate::compositor::{run_count, runs, DrawOp};
use crate::frame::GridView;
use crate::glyph::run_text;
use crate::player::{
    begin, draw_calls, draw_calls_from, first_fit, frame_script, next, pass_script,
    pass_script_from, passes, play_script, PlayerError, PlayerState, Settings, StepView,
};
use crate::sink::{Call, DisplayMode, Reply, SinkFailure};
use vstd::prelude::*;

verus! {

/// Where a player stands after a sequence of reports, and the steps that it
/// handed out for them, one for each.
pub open spec fn drive(state: PlayerState, replies: Seq<Reply>) -> (PlayerState, Seq<StepView>)
    decreases replies.len(),
{
    if replies.len() == 0 {
        (state, Seq::empty())
    } else {
        let (mid, steps) = drive(state, replies.drop_last());
        let (end, step) = next(mid, replies.last());
        (end, steps.push(step))
    }
}

/// Every reply reports a call that returned.
pub open spec fn all_done(replies: Seq<Reply>) -> bool {
    forall|j: int| 0 <= j < replies.len() ==> #[trigger] replies[j] == Reply::Done
}

/// While every call returns, the player hands out the calls of its script
/// one by one in order, each once, and after the last of them reports the
/// end, again and again.
pub proof fn lemma_drive_done(pending: Seq<Call>, replies: Seq<Reply>)
    requires
        all_done(replies),
    ensures
        drive(PlayerState::Running(pending), replies).1.len() == replies.len(),
        forall|j: int|
            0 <= j < replies.len() ==> #[trigger] drive(
                PlayerState::Running(pending),
                replies,
            ).1[j] == if j < pending.len() {
                StepView::Call(pending[j])
            } else {
                StepView::Finished
            },
        drive(PlayerState::Running(pending), replies).0 == if replies.len() <= pending.len() {
            PlayerState::Running(pending.skip(replies.len() as int))
        } else {
            PlayerState::Finished
        },
    decreases replies.len(),
{
    if replies.len() == 0 {
        assert(pending.skip(0) =~= pending);
    } else {
        let shorter = replies.drop_last();
        assert(all_done(shorter)) by {
            assert forall|j: int| 0 <= j < shorter.len() implies #[trigger] shorter[j]
                == Reply::Done by {
                assert(shorter[j] == replies[j]);
            }
        }
        lemma_drive_done(pending, shorter);
        assert(replies.last() == replies[replies.len() - 1]);
        if shorter.len() < pending.len() {
            assert(pending.skip(shorter.len() as int).drop_first() =~= pending.skip(
                replies.len() as int,
            ));
        }
    }
}

/// A player that has given up makes no further call: whatever is reported,
/// it hands out the reason it gave up for.
pub proof fn lemma_drive_aborted(error: PlayerError, replies: Seq<Reply>)
    ensures
        drive(PlayerState::Aborted(error), replies).0 == PlayerState::Aborted(error),
        drive(PlayerState::Aborted(error), replies).1.len() == replies.len(),
        forall|j: int|
            0 <= j < replies.len() ==> #[trigger] drive(PlayerState::Aborted(error), replies).1[j]
                == StepView::Aborted(error),
    decreases replies.len(),
{
    if replies.len() > 0 {
        lemma_drive_aborted(error, replies.drop_last());
    }
}

/// The first call that fails ends the animation at once. Up to it the
/// player hands out the calls of its script in order; for the failure it
/// hands out that failure, unchanged, and it goes on doing so whatever is
/// reported later: no call follows a failed one.
pub proof fn lemma_drive_failure(
    pending: Seq<Call>,
    replies: Seq<Reply>,
    k: int,
    failure: SinkFailure,
)
    requires
        0 <= k < replies.len(),
        k <= pending.len(),
        forall|j: int| 0 <= j < k ==> #[trigger] replies[j] == Reply::Done,
        replies[k] == Reply::Failed(failure),
    ensures
        drive(PlayerState::Running(pending), replies).0 == PlayerState::Aborted(
            PlayerError::SinkFailure(failure),
        ),
        drive(PlayerState::Running(pending), replies).1.len() == replies.len(),
        forall|j: int|
            0 <= j < replies.len() ==> #[trigger] drive(
                PlayerState::Running(pending),
                replies,
            ).1[j] == if j < k {
                StepView::Call(pending[j])
            } else {
                StepView::Aborted(PlayerError::SinkFailure(failure))
            },
    decreases replies.len(),
{
    let shorter = replies.drop_last();
    if k == replies.len() - 1 {
        assert(all_done(shorter)) by {
            assert forall|j: int| 0 <= j < shorter.len() implies #[trigger] shorter[j]
                == Reply::Done by {
                assert(shorter[j] == replies[j]);
            }
        }
        lemma_drive_done(pending, shorter);
    } else {
        assert(shorter[k] == replies[k]);
        assert forall|j: int| 0 <= j < k implies #[trigger] shorter[j] == Reply::Done by {
            assert(shorter[j] == replies[j]);
        }
        lemma_drive_failure(pending, shorter, k, failure);
    }
}

/// A whole run on a console that never fails and has a mode for the
/// frames: the first step selects the first mode that fits, the steps after
/// it are the calls of the animation in order, and after the last call the
/// end.
pub proof fn lemma_play_run(
    frames: Seq<GridView>,
    s: Settings,
    modes: Seq<DisplayMode>,
    replies: Seq<Reply>,
)
    requires
        first_fit(modes, frames[0].width, frames[0].height) is Some,
        all_done(replies),
    ensures
        begin(frames, s, modes).1 == StepView::Call(
            Call::SelectMode(first_fit(modes, frames[0].width, frames[0].height)->0),
        ),
        forall|j: int|
            0 <= j < replies.len() ==> #[trigger] drive(begin(frames, s, modes).0, replies).1[j]
                == if j < play_script(frames, s).len() {
                StepView::Call(play_script(frames, s)[j])
            } else {
                StepView::Finished
            },
{
    lemma_drive_done(play_script(frames, s), replies);
}

/// A whole run on a console without a mode for the frames: no call is
/// made, neither at the start nor later.
pub proof fn lemma_play_without_mode(
    frames: Seq<GridView>,
    s: Settings,
    modes: Seq<DisplayMode>,
    replies: Seq<Reply>,
)
    requires
        first_fit(modes, frames[0].width, frames[0].height) is None,
    ensures
        begin(frames, s, modes).1 == StepView::Aborted(PlayerError::NoMatchingMode),
        forall|j: int|
            0 <= j < replies.len() ==> #[trigger] drive(begin(frames, s, modes).0, replies).1[j]
                == StepView::Aborted(PlayerError::NoMatchingMode),
{
    lemma_drive_aborted(PlayerError::NoMatchingMode, replies);
}

/// How many of the calls clear the surface.
pub open spec fn count_clears(calls: Seq<Call>) -> nat
    decreases calls.len(),
{
    if calls.len() == 0 {
        0
    } else {
        count_clears(calls.drop_last()) + if calls.last() is Clear {
            1nat
        } else {
            0nat
        }
    }
}

/// How many of the calls write text.
pub open spec fn count_writes(calls: Seq<Call>) -> nat
    decreases calls.len(),
{
    if calls.len() == 0 {
        0
    } else {
        count_writes(calls.drop_last()) + if calls.last() is Write {
            1nat
        } else {
            0nat
        }
    }
}

/// Calls are counted part by part.
pub proof fn lemma_count_concat(a: Seq<Call>, b: Seq<Call>)
    ensures
        count_clears(a + b) == count_clears(a) + count_clears(b),
        count_writes(a + b) == count_writes(a) + count_writes(b),
    decreases b.len(),
{
    if b.len() == 0 {
        assert(a + b =~= a);
    } else {
        lemma_count_concat(a, b.drop_last());
        assert((a + b).drop_last() =~= a + b.drop_last());
    }
}

/// A single call counts as what it is.
proof fn lemma_count_single(call: Call)
    ensures
        count_clears(seq![call]) == if call is Clear {
            1nat
        } else {
            0nat
        },
        count_writes(seq![call]) == if call is Write {
            1nat
        } else {
            0nat
        },
{
    assert(seq![call].drop_last() =~= Seq::<Call>::empty());
    assert(seq![call].last() == call);
    assert(count_clears(Seq::<Call>::empty()) == 0);
    assert(count_writes(Seq::<Call>::empty()) == 0);
}

/// The calls that flush a list of ops are two for each op, in the order of
/// the ops: the colors of the op, then its text.
pub proof fn lemma_draw_calls(ops: Seq<DrawOp>, k: int, s: Settings)
    requires
        0 <= k <= ops.len(),
    ensures
        draw_calls_from(ops, k, s).len() == 2 * (ops.len() - k),
        forall|j: int|
            k <= j < ops.len() ==> {
                &&& #[trigger] draw_calls_from(ops, k, s)[2 * (j - k)] == Call::SetColors {
                    foreground: ops[j].color,
                    background: s.background,
                }
                &&& draw_calls_from(ops, k, s)[2 * (j - k) + 1] == Call::Write(
                    run_text(s.glyph, ops[j].glyphs as nat, ops[j].line_break),
                )
            },
        count_clears(draw_calls_from(ops, k, s)) == 0,
        count_writes(draw_calls_from(ops, k, s)) == ops.len() - k,
    decreases ops.len() - k,
{
    if k < ops.len() {
        lemma_draw_calls(ops, k + 1, s);
        let head = seq![
            Call::SetColors { foreground: ops[k].color, background: s.background },
            Call::Write(run_text(s.glyph, ops[k].glyphs as nat, ops[k].line_break)),
        ];
        let rest = draw_calls_from(ops, k + 1, s);
        assert(draw_calls_from(ops, k, s) == head + rest);
        lemma_count_concat(head, rest);
        lemma_count_single(head[0]);
        lemma_count_single(head[1]);
        lemma_count_concat(seq![head[0]], seq![head[1]]);
        assert(head =~= seq![head[0]] + seq![head[1]]);
        assert forall|j: int| k <= j < ops.len() implies {
            &&& #[trigger] draw_calls_from(ops, k, s)[2 * (j - k)] == Call::SetColors {
                foreground: ops[j].color,
                background: s.background,
            }
            &&& draw_calls_from(ops, k, s)[2 * (j - k) + 1] == Call::Write(
                run_text(s.glyph, ops[j].glyphs as nat, ops[j].line_break),
            )
        } by {
            if j > k {
                assert(rest[2 * (j - (k + 1))] == (head + rest)[2 * (j - k)]);
                assert(rest[2 * (j - (k + 1)) + 1] == (head + rest)[2 * (j - k) + 1]);
            }
        }
    }
}

/// The calls of one frame are laid out as follows: first the one call that
/// clears the surface; then for each maximal run of the frame, in order,
/// its colors and its text; last the one hold. No op of another frame
/// comes between them.
pub proof fn lemma_frame_script(grid: GridView, s: Settings)
    ensures
        frame_script(grid, s).len() == 2 * run_count(grid.cells, grid.width, s.wrap) + 2,
        frame_script(grid, s).first() == Call::Clear,
        frame_script(grid, s).last() == Call::Delay(s.frame_delay),
        forall|k: int|
            0 <= k < runs(grid.cells, grid.width, s.wrap).len() ==> {
                &&& #[trigger] frame_script(grid, s)[1 + 2 * k] == Call::SetColors {
                    foreground: runs(grid.cells, grid.width, s.wrap)[k].color,
                    background: s.background,
                }
                &&& frame_script(grid, s)[2 + 2 * k] == Call::Write(
                    run_text(
                        s.glyph,
                        runs(grid.cells, grid.width, s.wrap)[k].glyphs as nat,
                        runs(grid.cells, grid.width, s.wrap)[k].line_break,
                    ),
                )
            },
        count_clears(frame_script(grid, s)) == 1,
        count_writes(frame_script(grid, s)) == run_count(grid.cells, grid.width, s.wrap),
{
    let ops = runs(grid.cells, grid.width, s.wrap);
    let draw = draw_calls(ops, s);
    lemma_runs_count(grid.cells, grid.width, s.wrap);
    lemma_draw_calls(ops, 0, s);
    let script = frame_script(grid, s);
    assert forall|k: int| 0 <= k < ops.len() implies {
        &&& #[trigger] script[1 + 2 * k] == Call::SetColors {
            foreground: ops[k].color,
            background: s.background,
        }
        &&& script[2 + 2 * k] == Call::Write(
            run_text(s.glyph, ops[k].glyphs as nat, ops[k].line_break),
        )
    } by {
        assert(script[1 + 2 * k] == draw[2 * (k - 0)]);
        assert(script[2 + 2 * k] == draw[2 * (k - 0) + 1]);
    }
    lemma_count_concat(seq![Call::Clear], draw);
    lemma_count_concat(seq![Call::Clear] + draw, seq![Call::Delay(s.frame_delay)]);
    lemma_count_single(Call::Clear);
    lemma_count_single(Call::Delay(s.frame_delay));
}

/// The surface is cleared once for each frame of a play-through.
pub proof fn lemma_pass_clears(frames: Seq<GridView>, f: int, s: Settings)
    requires
        0 <= f <= frames.len(),
    ensures
        count_clears(pass_script_from(frames, f, s)) == frames.len() - f,
    decreases frames.len() - f,
{
    if f < frames.len() {
        lemma_pass_clears(frames, f + 1, s);
        lemma_frame_script(frames[f], s);
        lemma_count_concat(frame_script(frames[f], s), pass_script_from(frames, f + 1, s));
    }
}

/// Over any number of play-throughs the surface is cleared once for each
/// frame of each of them.
pub proof fn lemma_passes_clears(frames: Seq<GridView>, s: Settings, n: nat)
    ensures
        count_clears(passes(frames, s, n)) == n * frames.len(),
    decreases n,
{
    if n > 0 {
        lemma_passes_clears(frames, s, (n - 1) as nat);
        lemma_pass_clears(frames, 0, s);
        lemma_count_concat(pass_script(frames, s), passes(frames, s, (n - 1) as nat));
        assert(n * frames.len() == (n - 1) * frames.len() + frames.len()) by (nonlinear_arith);
    } else {
        assert(n * frames.len() == 0) by (nonlinear_arith)
            requires
                n == 0,
        ;
    }
}

/// Over a whole animation the surface is cleared once for each frame of
/// each play-through, and no more.
pub proof fn lemma_play_clears(frames: Seq<GridView>, s: Settings)
    ensures
        count_clears(play_script(frames, s)) == s.repeat_count * frames.len(),
{
    lemma_passes_clears(frames, s, s.repeat_count as nat);
}

} // verus!
