//! The animation player: it decides which console call comes next, and the
//! driver around it makes the calls and reports how each one went.

use crate::color::Color;
use crate::compositor::{compose, runs, DrawOp, WrapPolicy};
use crate::frame::{is_frame_set, FrameSet, GridView};
use crate::glyph::{run_text, Glyph};
use crate::sink::{Call, DisplayMode, Reply, SinkCall, SinkFailure};
use vstd::prelude::*;

verus! {

/// Why an animation stopped before its end.
#[derive(Clone, Copy, Debug, PartialEq, Eq, Structural)]
pub enum PlayerError {
    /// The console has no mode with the geometry of the frames.
    NoMatchingMode,
    /// A console call failed; the failure is handed on as it came.
    SinkFailure(SinkFailure),
}

/// How an animation is played, as plain values.
pub struct Settings {
    pub background: Color,
    pub glyph: u16,
    pub wrap: WrapPolicy,
    pub frame_delay: usize,
    pub repeat_count: usize,
}

/// How an animation is played: the background behind the glyphs, the glyph
/// that fills a cell, what happens at the end of a row, the hold after each
/// frame, and how many times the whole frame set is played.
#[derive(Clone, Copy, Debug)]
pub struct PlaySettings {
    pub background: Color,
    pub glyph: Glyph,
    pub wrap: WrapPolicy,
    pub frame_delay: usize,
    pub repeat_count: usize,
}

impl View for PlaySettings {
    type V = Settings;

    open spec fn view(&self) -> Settings {
        Settings {
            background: self.background,
            glyph: self.glyph@,
            wrap: self.wrap,
            frame_delay: self.frame_delay,
            repeat_count: self.repeat_count,
        }
    }
}

/// Whether a mode has the given geometry.
pub open spec fn fits(mode: DisplayMode, width: nat, height: nat) -> bool {
    mode.columns == width && mode.rows == height
}

/// The first of the modes, in the order of their enumeration, that has the
/// given geometry.
pub open spec fn first_fit(modes: Seq<DisplayMode>, width: nat, height: nat) -> Option<
    DisplayMode,
>
    decreases modes.len(),
{
    if modes.len() == 0 {
        None
    } else if fits(modes[0], width, height) {
        Some(modes[0])
    } else {
        first_fit(modes.drop_first(), width, height)
    }
}

/// The two calls that flush one op: set its color over the background, then
/// write its text.
pub open spec fn op_calls(op: DrawOp, s: Settings) -> Seq<Call> {
    seq![
        Call::SetColors { foreground: op.color, background: s.background },
        Call::Write(run_text(s.glyph, op.glyphs as nat, op.line_break)),
    ]
}

/// The calls that flush the ops from position `k` on, in order.
pub open spec fn draw_calls_from(ops: Seq<DrawOp>, k: int, s: Settings) -> Seq<Call>
    decreases ops.len() - k,
{
    if 0 <= k < ops.len() {
        op_calls(ops[k], s) + draw_calls_from(ops, k + 1, s)
    } else {
        Seq::empty()
    }
}

/// The calls that flush a list of ops in order.
pub open spec fn draw_calls(ops: Seq<DrawOp>, s: Settings) -> Seq<Call> {
    draw_calls_from(ops, 0, s)
}

/// The calls that show one frame: clear the surface, flush the composition
/// of the frame, hold.
pub open spec fn frame_script(grid: GridView, s: Settings) -> Seq<Call> {
    seq![Call::Clear] + draw_calls(runs(grid.cells, grid.width, s.wrap), s) + seq![
        Call::Delay(s.frame_delay),
    ]
}

/// The calls that show the frames from position `f` on, in order.
pub open spec fn pass_script_from(frames: Seq<GridView>, f: int, s: Settings) -> Seq<Call>
    decreases frames.len() - f,
{
    if 0 <= f < frames.len() {
        frame_script(frames[f], s) + pass_script_from(frames, f + 1, s)
    } else {
        Seq::empty()
    }
}

/// The calls of one play-through of the frame set.
pub open spec fn pass_script(frames: Seq<GridView>, s: Settings) -> Seq<Call> {
    pass_script_from(frames, 0, s)
}

/// The calls of `n` play-throughs, each from the first frame.
pub open spec fn passes(frames: Seq<GridView>, s: Settings, n: nat) -> Seq<Call>
    decreases n,
{
    if n == 0 {
        Seq::empty()
    } else {
        pass_script(frames, s) + passes(frames, s, (n - 1) as nat)
    }
}

/// All calls that play the animation, once a mode is selected.
pub open spec fn play_script(frames: Seq<GridView>, s: Settings) -> Seq<Call> {
    passes(frames, s, s.repeat_count as nat)
}

/// Where a player stands.
pub enum PlayerState {
    /// A call is with the driver; these are the calls that follow it.
    Running(Seq<Call>),
    /// Every call was made and returned.
    Finished,
    /// The animation was given up.
    Aborted(PlayerError),
}

/// What a player tells its driver, as plain values.
pub enum StepView {
    Call(Call),
    Finished,
    Aborted(PlayerError),
}

/// What a player tells its driver to do next.
#[derive(Debug, PartialEq, Eq)]
pub enum Step {
    /// Make this call on the console and report how it went.
    Call(SinkCall),
    /// The animation has played to its end.
    Finished,
    /// Stop: the animation was given up for this reason.
    Aborted(PlayerError),
}

impl View for Step {
    type V = StepView;

    open spec fn view(&self) -> StepView {
        match *self {
            Step::Call(call) => StepView::Call(call@),
            Step::Finished => StepView::Finished,
            Step::Aborted(error) => StepView::Aborted(error),
        }
    }
}

/// The first move: select the first mode that fits the frames and go on to
/// play, or give up where no mode fits.
pub open spec fn begin(frames: Seq<GridView>, s: Settings, modes: Seq<DisplayMode>) -> (
    PlayerState,
    StepView,
) {
    match first_fit(modes, frames[0].width, frames[0].height) {
        Some(mode) => (
            PlayerState::Running(play_script(frames, s)),
            StepView::Call(Call::SelectMode(mode)),
        ),
        None => (
            PlayerState::Aborted(PlayerError::NoMatchingMode),
            StepView::Aborted(PlayerError::NoMatchingMode),
        ),
    }
}

/// Every later move. While the player runs, a failed call ends the
/// animation with that failure, and a call that returned is followed by the
/// next call of the script, or by the end where none is left. A player that
/// has finished or given up stays as it is.
pub open spec fn next(state: PlayerState, reply: Reply) -> (PlayerState, StepView) {
    match state {
        PlayerState::Running(pending) => match reply {
            Reply::Failed(failure) => (
                PlayerState::Aborted(PlayerError::SinkFailure(failure)),
                StepView::Aborted(PlayerError::SinkFailure(failure)),
            ),
            Reply::Done => if pending.len() == 0 {
                (PlayerState::Finished, StepView::Finished)
            } else {
                (PlayerState::Running(pending.drop_first()), StepView::Call(pending[0]))
            },
        },
        PlayerState::Finished => (PlayerState::Finished, StepView::Finished),
        PlayerState::Aborted(error) => (PlayerState::Aborted(error), StepView::Aborted(error)),
    }
}

/// What the first mode that fits is, stated without recursion: it fits, no
/// mode before it does, and there is none exactly when no mode fits.
pub proof fn lemma_first_fit(modes: Seq<DisplayMode>, width: nat, height: nat)
    ensures
        match first_fit(modes, width, height) {
            Some(mode) => exists|i: int|
                0 <= i < modes.len() && #[trigger] modes[i] == mode && fits(mode, width, height)
                    && forall|j: int| 0 <= j < i ==> !fits(#[trigger] modes[j], width, height),
            None => forall|i: int| 0 <= i < modes.len() ==> !fits(#[trigger] modes[i], width, height),
        },
    decreases modes.len(),
{
    if modes.len() > 0 {
        let rest = modes.drop_first();
        lemma_first_fit(rest, width, height);
        if fits(modes[0], width, height) {
            assert(modes[0] == modes[0]);
        } else {
            assert forall|i: int| 0 <= i < rest.len() implies rest[i] == modes[i + 1] by {}
            match first_fit(rest, width, height) {
                Some(mode) => {
                    let i = choose|i: int|
                        0 <= i < rest.len() && #[trigger] rest[i] == mode && fits(
                            mode,
                            width,
                            height,
                        ) && forall|j: int| 0 <= j < i ==> !fits(#[trigger] rest[j], width, height);
                    assert(modes[i + 1] == mode);
                    assert forall|j: int| 0 <= j < i + 1 implies !fits(
                        #[trigger] modes[j],
                        width,
                        height,
                    ) by {
                        if j > 0 {
                            assert(rest[j - 1] == modes[j]);
                        }
                    }
                },
                None => {
                    assert forall|i: int| 0 <= i < modes.len() implies !fits(
                        #[trigger] modes[i],
                        width,
                        height,
                    ) by {
                        if i > 0 {
                            assert(rest[i - 1] == modes[i]);
                        }
                    }
                },
            }
        }
    }
}

/// Negotiates the mode: the first enumerated mode whose columns and rows
/// are the width and height of the frames. Without such a mode there is
/// nothing to fall back on.
pub fn negotiate(modes: &Vec<DisplayMode>, width: usize, height: usize) -> (r: Result<
    DisplayMode,
    PlayerError,
>)
    ensures
        match first_fit(modes@, width as nat, height as nat) {
            Some(mode) => r == Ok::<DisplayMode, PlayerError>(mode),
            None => r == Err::<DisplayMode, PlayerError>(PlayerError::NoMatchingMode),
        },
        r matches Ok(mode) ==> exists|i: int|
            0 <= i < modes@.len() && #[trigger] modes@[i] == mode && fits(
                mode,
                width as nat,
                height as nat,
            ) && forall|j: int|
                0 <= j < i ==> !fits(#[trigger] modes@[j], width as nat, height as nat),
        r is Err <==> forall|i: int|
            0 <= i < modes@.len() ==> !fits(#[trigger] modes@[i], width as nat, height as nat),
{
    proof {
        lemma_first_fit(modes@, width as nat, height as nat);
        assert(modes@.skip(0) =~= modes@);
    }
    let mut i: usize = 0;
    while i < modes.len()
        invariant
            0 <= i <= modes@.len(),
            first_fit(modes@, width as nat, height as nat) == first_fit(
                modes@.skip(i as int),
                width as nat,
                height as nat,
            ),
        decreases modes@.len() - i,
    {
        let mode = modes[i];
        proof {
            assert(modes@.skip(i as int)[0] == modes@[i as int]);
            assert(modes@.skip(i as int).drop_first() =~= modes@.skip(i + 1));
        }
        if mode.columns == width && mode.rows == height {
            proof {
                lemma_first_fit(modes@, width as nat, height as nat);
            }
            return Ok(mode);
        }
        i += 1;
    }
    assert(modes@.skip(i as int).len() == 0);
    Err(PlayerError::NoMatchingMode)
}

/// The console calls that flush a list of ops in order, two for each op:
/// its color over the background, then its text.
pub fn flush_calls(ops: &Vec<DrawOp>, settings: &PlaySettings) -> (calls: Vec<SinkCall>)
    ensures
        calls@.map_values(|call: SinkCall| call@) == draw_calls(ops@, settings@),
{
    let mut calls: Vec<SinkCall> = Vec::new();
    let mut k: usize = 0;
    while k < ops.len()
        invariant
            0 <= k <= ops@.len(),
            calls@.map_values(|call: SinkCall| call@) + draw_calls_from(ops@, k as int, settings@)
                == draw_calls(ops@, settings@),
        decreases ops@.len() - k,
    {
        let op = ops[k];
        let ghost so_far = calls@.map_values(|call: SinkCall| call@);
        calls.push(
            SinkCall::SetColors { foreground: op.color, background: settings.background },
        );
        calls.push(SinkCall::Write(settings.glyph.repeated(op.glyphs, op.line_break)));
        k += 1;
        assert(calls@.map_values(|call: SinkCall| call@) =~= so_far + op_calls(op, settings@));
        assert(so_far + op_calls(op, settings@) + draw_calls_from(ops@, k as int, settings@)
            =~= so_far + (op_calls(op, settings@) + draw_calls_from(ops@, k as int, settings@)));
    }
    assert(calls@.map_values(|call: SinkCall| call@) + Seq::<Call>::empty()
        =~= calls@.map_values(|call: SinkCall| call@));
    calls
}

/// Which call of the frame at hand comes next, or how playing ended.
#[derive(Clone, Copy, Debug)]
enum Stage {
    Clear,
    Colors,
    Text,
    Delay,
    Finished,
    Aborted(PlayerError),
}

/// The player of one animation. It makes no console call itself: `start`
/// and `advance` name the next call, and the driver makes it and reports
/// how it went. The frames are only borrowed.
#[derive(Debug)]
pub struct AnimationPlayer<'a> {
    frames: &'a FrameSet,
    settings: PlaySettings,
    stage: Stage,
    pass: usize,
    frame: usize,
    ops: Vec<DrawOp>,
    op: usize,
}

impl<'a> View for AnimationPlayer<'a> {
    type V = PlayerState;

    closed spec fn view(&self) -> PlayerState {
        match self.stage {
            Stage::Clear => PlayerState::Running(
                if self.pass < self.settings.repeat_count {
                    pass_script_from(self.frames@, self.frame as int, self.settings@)
                        + self.later_passes()
                } else {
                    Seq::empty()
                },
            ),
            Stage::Colors => PlayerState::Running(
                draw_calls_from(self.ops@, self.op as int, self.settings@) + self.after_draw(),
            ),
            Stage::Text => PlayerState::Running(
                seq![
                    Call::Write(
                        run_text(
                            self.settings.glyph@,
                            self.ops@[self.op as int].glyphs as nat,
                            self.ops@[self.op as int].line_break,
                        ),
                    ),
                ] + draw_calls_from(self.ops@, self.op + 1, self.settings@) + self.after_draw(),
            ),
            Stage::Delay => PlayerState::Running(self.after_draw()),
            Stage::Finished => PlayerState::Finished,
            Stage::Aborted(error) => PlayerState::Aborted(error),
        }
    }
}

impl<'a> AnimationPlayer<'a> {
    /// The calls of the play-throughs after the one at hand.
    spec fn later_passes(&self) -> Seq<Call> {
        passes(
            self.frames@,
            self.settings@,
            (self.settings.repeat_count - self.pass - 1) as nat,
        )
    }

    /// The calls that follow the ops of the frame at hand.
    spec fn after_draw(&self) -> Seq<Call> {
        seq![Call::Delay(self.settings.frame_delay)] + pass_script_from(
            self.frames@,
            self.frame + 1,
            self.settings@,
        ) + self.later_passes()
    }

    /// The cursor points into the frames, and while a frame is drawn the
    /// ops at hand are its composition.
    #[verifier::type_invariant]
    spec fn inv(&self) -> bool {
        &&& is_frame_set(self.frames@)
        &&& self.pass <= self.settings.repeat_count
        &&& match self.stage {
            Stage::Clear => self.pass < self.settings.repeat_count ==> self.frame
                < self.frames@.len(),
            Stage::Colors | Stage::Text => {
                &&& self.pass < self.settings.repeat_count
                &&& self.frame < self.frames@.len()
                &&& self.op < self.ops@.len()
                &&& self.ops@ == runs(
                    self.frames@[self.frame as int].cells,
                    self.frames@[self.frame as int].width,
                    self.settings.wrap,
                )
            },
            Stage::Delay => self.pass < self.settings.repeat_count && self.frame
                < self.frames@.len(),
            Stage::Finished | Stage::Aborted(_) => true,
        }
    }

    /// Negotiates the mode and hands out the first step: the call that
    /// selects the mode, or the reason why nothing can be played.
    pub fn start(frames: &'a FrameSet, settings: PlaySettings, modes: &Vec<DisplayMode>) -> (r: (
        AnimationPlayer<'a>,
        Step,
    ))
        ensures
            (r.0@, r.1@) == begin(frames@, settings@, modes@),
    {
        proof {
            use_type_invariant(frames);
        }
        let (stage, step) = match negotiate(modes, frames.width(), frames.height()) {
            Ok(mode) => (Stage::Clear, Step::Call(SinkCall::SelectMode(mode))),
            Err(error) => (Stage::Aborted(error), Step::Aborted(error)),
        };
        let player = AnimationPlayer {
            frames,
            settings,
            stage,
            pass: 0,
            frame: 0,
            ops: Vec::new(),
            op: 0,
        };
        proof {
            if settings.repeat_count > 0 {
                assert(player.later_passes() == passes(
                    frames@,
                    settings@,
                    (settings.repeat_count - 1) as nat,
                ));
            }
        }
        (player, step)
    }

    /// The step at the start of a frame: clear the surface. The frame is
    /// composed here, so that its ops are at hand for the steps that follow.
    fn clear_step(&mut self) -> (step: Step)
        requires
            old(self).stage is Clear,
        ensures
            (final(self)@, step@) == next(old(self)@, Reply::Done),
    {
        proof {
            use_type_invariant(&*self);
        }
        let ghost pending = self@->Running_0;
        if self.pass >= self.settings.repeat_count {
            self.stage = Stage::Finished;
            return Step::Finished;
        }
        if let Some(grid) = self.frames.frame(self.frame) {
            self.ops = compose(grid, self.settings.wrap);
        }
        self.op = 0;
        if self.ops.len() > 0 {
            self.stage = Stage::Colors;
        } else {
            self.stage = Stage::Delay;
        }
        proof {
            let script = frame_script(self.frames@[self.frame as int], self.settings@);
            assert(script[0] == Call::Clear);
            assert(pending =~= script + pass_script_from(
                self.frames@,
                self.frame + 1,
                self.settings@,
            ) + self.later_passes());
            assert(self@->Running_0 =~= pending.drop_first());
        }
        Step::Call(SinkCall::Clear)
    }

    /// The first step of an op: set its color over the background.
    fn colors_step(&mut self) -> (step: Step)
        requires
            old(self).stage is Colors,
        ensures
            (final(self)@, step@) == next(old(self)@, Reply::Done),
    {
        proof {
            use_type_invariant(&*self);
        }
        let ghost pending = self@->Running_0;
        let op = self.ops[self.op];
        self.stage = Stage::Text;
        proof {
            assert(self@->Running_0 =~= pending.drop_first());
        }
        Step::Call(
            SinkCall::SetColors { foreground: op.color, background: self.settings.background },
        )
    }

    /// The second step of an op: write its text.
    fn text_step(&mut self) -> (step: Step)
        requires
            old(self).stage is Text,
        ensures
            (final(self)@, step@) == next(old(self)@, Reply::Done),
    {
        proof {
            use_type_invariant(&*self);
        }
        let ghost pending = self@->Running_0;
        let op = self.ops[self.op];
        let text = self.settings.glyph.repeated(op.glyphs, op.line_break);
        let count = self.ops.len();
        if self.op + 1 < count {
            self.op = self.op + 1;
            self.stage = Stage::Colors;
        } else {
            self.stage = Stage::Delay;
        }
        proof {
            assert(self@->Running_0 =~= pending.drop_first());
        }
        Step::Call(SinkCall::Write(text))
    }

    /// The step at the end of a frame: hold. The frame that follows is the
    /// next of the set, or the first of the next play-through.
    fn delay_step(&mut self) -> (step: Step)
        requires
            old(self).stage is Delay,
        ensures
            (final(self)@, step@) == next(old(self)@, Reply::Done),
    {
        proof {
            use_type_invariant(&*self);
        }
        let ghost before = *self;
        let ghost pending = self@->Running_0;
        let count = self.frames.len();
        self.stage = Stage::Clear;
        if self.frame + 1 < count {
            self.frame = self.frame + 1;
        } else {
            self.frame = 0;
            self.pass = self.pass + 1;
        }
        proof {
            if before.frame + 1 >= before.frames@.len() {
                assert(pass_script_from(before.frames@, before.frame + 1, before.settings@)
                    =~= Seq::<Call>::empty());
            }
            assert(self@->Running_0 =~= pending.drop_first());
        }
        Step::Call(SinkCall::Delay(self.settings.frame_delay))
    }

    /// Takes the report on the call that was handed out last and hands out
    /// the next step.
    pub fn advance(&mut self, reply: Reply) -> (step: Step)
        ensures
            (final(self)@, step@) == next(old(self)@, reply),
    {
        proof {
            use_type_invariant(&*self);
        }
        match self.stage {
            Stage::Finished => {
                return Step::Finished;
            },
            Stage::Aborted(error) => {
                return Step::Aborted(error);
            },
            _ => {},
        }
        if let Reply::Failed(failure) = reply {
            self.stage = Stage::Aborted(PlayerError::SinkFailure(failure));
            return Step::Aborted(PlayerError::SinkFailure(failure));
        }
        match self.stage {
            Stage::Clear => self.clear_step(),
            Stage::Colors => self.colors_step(),
            Stage::Text => self.text_step(),
            Stage::Delay => self.delay_step(),
            Stage::Finished => Step::Finished,
            Stage::Aborted(error) => Step::Aborted(error),
        }
    }
}

} // verus!
