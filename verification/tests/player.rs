use nyan::color::Color;
use nyan::compositor::WrapPolicy;
use nyan::frame::{FrameGrid, FrameSet};
use nyan::glyph::{Glyph, FULL_BLOCK};
use nyan::player::{negotiate, AnimationPlayer, PlaySettings, PlayerError, Step};
use nyan::sink::{DisplayMode, Reply, SinkCall, SinkFailure};

/// A console call with its text as code units, for comparing.
#[derive(Debug, PartialEq, Eq, Clone)]
enum Seen {
    SelectMode(usize),
    Clear,
    SetColors(Color, Color),
    Write(Vec<u16>),
    Delay(usize),
}

fn seen(call: &SinkCall) -> Seen {
    match call {
        SinkCall::SelectMode(mode) => Seen::SelectMode(mode.index),
        SinkCall::Clear => Seen::Clear,
        SinkCall::SetColors { foreground, background } => {
            Seen::SetColors(*foreground, *background)
        }
        SinkCall::Write(text) => Seen::Write(text.to_u16_slice().to_vec()),
        SinkCall::Delay(time) => Seen::Delay(*time),
    }
}

fn blocks(count: usize) -> Seen {
    Seen::Write(vec![0x2588; count])
}

fn settings(wrap: WrapPolicy, frame_delay: usize, repeat_count: usize) -> PlaySettings {
    PlaySettings {
        background: Color::Blue,
        glyph: Glyph::new(FULL_BLOCK).unwrap(),
        wrap,
        frame_delay,
        repeat_count,
    }
}

fn mode(index: usize, columns: usize, rows: usize) -> DisplayMode {
    DisplayMode { index, columns, rows }
}

fn two_frames() -> FrameSet {
    let a = FrameGrid::new(4, 2, vec![Color::Black; 8]).unwrap();
    let mut cells = vec![Color::Blue; 4];
    cells.extend_from_slice(&[Color::Red; 4]);
    let b = FrameGrid::new(4, 2, cells).unwrap();
    FrameSet::new(vec![a, b]).unwrap()
}

/// Plays against a console whose call number `fail_at` (from 0) fails with
/// `failure`; returns the calls that were made and how playing ended.
fn play(
    frames: &FrameSet,
    settings: PlaySettings,
    modes: &Vec<DisplayMode>,
    fail_at: Option<(usize, SinkFailure)>,
) -> (Vec<Seen>, Result<(), PlayerError>) {
    let mut calls = Vec::new();
    let (mut player, mut step) = AnimationPlayer::start(frames, settings, modes);
    loop {
        match step {
            Step::Call(call) => {
                let reply = match fail_at {
                    Some((at, failure)) if at == calls.len() => Reply::Failed(failure),
                    _ => Reply::Done,
                };
                calls.push(seen(&call));
                step = player.advance(reply);
            }
            Step::Finished => return (calls, Ok(())),
            Step::Aborted(error) => return (calls, Err(error)),
        }
        assert!(calls.len() < 10_000);
    }
}

#[test]
fn two_frames_play_in_order_with_one_clear_each() {
    let frames = two_frames();
    let modes = vec![mode(0, 4, 2)];
    let (calls, end) = play(&frames, settings(WrapPolicy::AutoWrap, 1, 1), &modes, None);
    assert_eq!(end, Ok(()));
    assert_eq!(
        calls,
        vec![
            Seen::SelectMode(0),
            Seen::Clear,
            Seen::SetColors(Color::Black, Color::Blue),
            blocks(8),
            Seen::Delay(1),
            Seen::Clear,
            Seen::SetColors(Color::Blue, Color::Blue),
            blocks(4),
            Seen::SetColors(Color::Red, Color::Blue),
            blocks(4),
            Seen::Delay(1),
        ]
    );
}

#[test]
fn surface_is_cleared_once_before_each_frame() {
    let frames = two_frames();
    let modes = vec![mode(0, 4, 2)];
    let (calls, end) = play(&frames, settings(WrapPolicy::AutoWrap, 1, 3), &modes, None);
    assert_eq!(end, Ok(()));
    let clears = calls.iter().filter(|call| **call == Seen::Clear).count();
    let delays = calls.iter().filter(|call| **call == Seen::Delay(1)).count();
    assert_eq!(clears, 6);
    assert_eq!(delays, 6);
    // between two clears lies exactly one frame: its writes, then one delay
    let mut frame_calls: Vec<Vec<Seen>> = Vec::new();
    for call in &calls[1..] {
        if *call == Seen::Clear {
            frame_calls.push(Vec::new());
        } else {
            frame_calls.last_mut().unwrap().push(call.clone());
        }
    }
    let first = vec![Seen::SetColors(Color::Black, Color::Blue), blocks(8), Seen::Delay(1)];
    let second = vec![
        Seen::SetColors(Color::Blue, Color::Blue),
        blocks(4),
        Seen::SetColors(Color::Red, Color::Blue),
        blocks(4),
        Seen::Delay(1),
    ];
    assert_eq!(
        frame_calls,
        vec![first.clone(), second.clone(), first.clone(), second.clone(), first, second]
    );
}

#[test]
fn runs_of_two_frames_are_never_merged() {
    let a = FrameGrid::new(2, 1, vec![Color::White, Color::Black]).unwrap();
    let b = FrameGrid::new(2, 1, vec![Color::Black, Color::Black]).unwrap();
    let frames = FrameSet::new(vec![a, b]).unwrap();
    let modes = vec![mode(0, 2, 1)];
    let (calls, _) = play(&frames, settings(WrapPolicy::AutoWrap, 5, 1), &modes, None);
    assert_eq!(
        calls,
        vec![
            Seen::SelectMode(0),
            Seen::Clear,
            Seen::SetColors(Color::White, Color::Blue),
            blocks(1),
            Seen::SetColors(Color::Black, Color::Blue),
            blocks(1),
            Seen::Delay(5),
            Seen::Clear,
            Seen::SetColors(Color::Black, Color::Blue),
            blocks(2),
            Seen::Delay(5),
        ]
    );
}

#[test]
fn failed_write_aborts_at_once() {
    let frames = two_frames();
    let modes = vec![mode(0, 4, 2)];
    let failure = SinkFailure { status: 0x8000_0000_0000_0007 };
    // calls 0..=4 are the first frame; the second frame's second op is
    // written by call 9
    let (calls, end) = play(&frames, settings(WrapPolicy::AutoWrap, 1, 2), &modes, Some((9, failure)));
    assert_eq!(end, Err(PlayerError::SinkFailure(failure)));
    assert_eq!(calls.len(), 10);
    assert_eq!(calls[8], Seen::SetColors(Color::Red, Color::Blue));
    assert_eq!(calls[9], blocks(4));
    assert_eq!(calls.iter().filter(|call| **call == Seen::Clear).count(), 2);
}

#[test]
fn failure_is_handed_on_unchanged_and_for_good() {
    let frames = two_frames();
    let modes = vec![mode(0, 4, 2)];
    let failure = SinkFailure { status: 42 };
    let (mut player, first) =
        AnimationPlayer::start(&frames, settings(WrapPolicy::AutoWrap, 1, 1), &modes);
    assert_eq!(first, Step::Call(SinkCall::SelectMode(mode(0, 4, 2))));
    assert_eq!(player.advance(Reply::Done), Step::Call(SinkCall::Clear));
    let error = PlayerError::SinkFailure(failure);
    assert_eq!(player.advance(Reply::Failed(failure)), Step::Aborted(error));
    assert_eq!(player.advance(Reply::Done), Step::Aborted(error));
    assert_eq!(player.advance(Reply::Failed(SinkFailure { status: 7 })), Step::Aborted(error));
    assert_eq!(player.advance(Reply::Done), Step::Aborted(error));
}

#[test]
fn every_kind_of_call_can_fail() {
    let frames = two_frames();
    let modes = vec![mode(0, 4, 2)];
    for at in 0..11 {
        let failure = SinkFailure { status: 100 + at };
        let (calls, end) =
            play(&frames, settings(WrapPolicy::AutoWrap, 1, 1), &modes, Some((at, failure)));
        assert_eq!(end, Err(PlayerError::SinkFailure(failure)));
        assert_eq!(calls.len(), at + 1);
    }
}

#[test]
fn failed_mode_selection_draws_nothing() {
    let frames = two_frames();
    let modes = vec![mode(0, 4, 2)];
    let failure = SinkFailure { status: 3 };
    let (calls, end) =
        play(&frames, settings(WrapPolicy::AutoWrap, 1, 1), &modes, Some((0, failure)));
    assert_eq!(calls, vec![Seen::SelectMode(0)]);
    assert_eq!(end, Err(PlayerError::SinkFailure(failure)));
}

#[test]
fn no_matching_mode_makes_no_call() {
    let frames = two_frames();
    let modes = vec![mode(0, 80, 25), mode(1, 80, 50), mode(2, 2, 4)];
    let (calls, end) = play(&frames, settings(WrapPolicy::AutoWrap, 1, 1), &modes, None);
    assert_eq!(calls, vec![]);
    assert_eq!(end, Err(PlayerError::NoMatchingMode));
}

#[test]
fn no_modes_at_all_is_no_matching_mode() {
    let frames = two_frames();
    let (mut player, first) =
        AnimationPlayer::start(&frames, settings(WrapPolicy::AutoWrap, 1, 1), &vec![]);
    assert_eq!(first, Step::Aborted(PlayerError::NoMatchingMode));
    assert_eq!(player.advance(Reply::Done), Step::Aborted(PlayerError::NoMatchingMode));
}

#[test]
fn first_mode_that_fits_is_selected() {
    let modes = vec![mode(0, 80, 25), mode(1, 4, 2), mode(2, 4, 2), mode(3, 2, 4)];
    assert_eq!(negotiate(&modes, 4, 2), Ok(mode(1, 4, 2)));
    assert_eq!(negotiate(&modes, 80, 25), Ok(mode(0, 80, 25)));
    assert_eq!(negotiate(&modes, 2, 4), Ok(mode(3, 2, 4)));
    assert_eq!(negotiate(&modes, 25, 80), Err(PlayerError::NoMatchingMode));
    assert_eq!(negotiate(&vec![], 80, 25), Err(PlayerError::NoMatchingMode));
    let frames = two_frames();
    let (calls, _) = play(&frames, settings(WrapPolicy::AutoWrap, 1, 0), &modes, None);
    assert_eq!(calls, vec![Seen::SelectMode(1)]);
}

#[test]
fn zero_repeats_only_select_the_mode() {
    let frames = two_frames();
    let modes = vec![mode(0, 4, 2)];
    let (calls, end) = play(&frames, settings(WrapPolicy::AutoWrap, 1, 0), &modes, None);
    assert_eq!(calls, vec![Seen::SelectMode(0)]);
    assert_eq!(end, Ok(()));
}

#[test]
fn repeats_replay_the_set_from_its_first_frame() {
    let frames = two_frames();
    let modes = vec![mode(0, 4, 2)];
    let (once, _) = play(&frames, settings(WrapPolicy::AutoWrap, 9, 1), &modes, None);
    let (thrice, end) = play(&frames, settings(WrapPolicy::AutoWrap, 9, 3), &modes, None);
    assert_eq!(end, Ok(()));
    let pass = &once[1..];
    let mut expected = vec![Seen::SelectMode(0)];
    for _ in 0..3 {
        expected.extend_from_slice(pass);
    }
    assert_eq!(thrice, expected);
}

#[test]
fn finished_player_stays_finished() {
    let frames = two_frames();
    let modes = vec![mode(0, 4, 2)];
    let (mut player, mut step) =
        AnimationPlayer::start(&frames, settings(WrapPolicy::AutoWrap, 1, 1), &modes);
    let mut calls = 0;
    while let Step::Call(_) = step {
        calls += 1;
        step = player.advance(Reply::Done);
    }
    assert_eq!(calls, 11);
    assert_eq!(step, Step::Finished);
    assert_eq!(player.advance(Reply::Done), Step::Finished);
    assert_eq!(player.advance(Reply::Failed(SinkFailure { status: 1 })), Step::Finished);
}

#[test]
fn line_break_policy_writes_line_breaks_between_rows() {
    let frames = two_frames();
    let modes = vec![mode(0, 4, 2)];
    let (calls, end) = play(&frames, settings(WrapPolicy::LineBreak, 2, 1), &modes, None);
    assert_eq!(end, Ok(()));
    let row = vec![0x2588, 0x2588, 0x2588, 0x2588];
    let mut row_with_break = row.clone();
    row_with_break.extend_from_slice(&[0x0D, 0x0A]);
    assert_eq!(
        calls,
        vec![
            Seen::SelectMode(0),
            Seen::Clear,
            Seen::SetColors(Color::Black, Color::Blue),
            Seen::Write(row_with_break.clone()),
            Seen::SetColors(Color::Black, Color::Blue),
            Seen::Write(row.clone()),
            Seen::Delay(2),
            Seen::Clear,
            Seen::SetColors(Color::Blue, Color::Blue),
            Seen::Write(row_with_break),
            Seen::SetColors(Color::Red, Color::Blue),
            Seen::Write(row),
            Seen::Delay(2),
        ]
    );
}

#[test]
fn empty_frames_are_cleared_and_held() {
    let a = FrameGrid::new(0, 0, vec![]).unwrap();
    let frames = FrameSet::new(vec![a]).unwrap();
    let modes = vec![mode(4, 0, 0)];
    let (calls, end) = play(&frames, settings(WrapPolicy::AutoWrap, 3, 2), &modes, None);
    assert_eq!(end, Ok(()));
    assert_eq!(
        calls,
        vec![Seen::SelectMode(4), Seen::Clear, Seen::Delay(3), Seen::Clear, Seen::Delay(3)]
    );
}

#[test]
fn settings_choose_glyph_and_background() {
    let a = FrameGrid::new(2, 1, vec![Color::White, Color::White]).unwrap();
    let frames = FrameSet::new(vec![a]).unwrap();
    let modes = vec![mode(0, 2, 1)];
    let custom = PlaySettings {
        background: Color::Green,
        glyph: Glyph::new(0x2592).unwrap(),
        wrap: WrapPolicy::AutoWrap,
        frame_delay: 70_000,
        repeat_count: 1,
    };
    let (calls, _) = play(&frames, custom, &modes, None);
    assert_eq!(
        calls,
        vec![
            Seen::SelectMode(0),
            Seen::Clear,
            Seen::SetColors(Color::White, Color::Green),
            Seen::Write(vec![0x2592, 0x2592]),
            Seen::Delay(70_000),
        ]
    );
}
