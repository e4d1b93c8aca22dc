use nyan::color::{palette, Color, PALETTE_SIZE};
use nyan::frame::{FrameGrid, FrameSet};

#[test]
fn grid_keeps_its_geometry_and_cells() {
    let cells = vec![Color::Black, Color::Blue, Color::Red, Color::White, Color::Brown, Color::Cyan];
    let grid = FrameGrid::new(3, 2, cells.clone()).unwrap();
    assert_eq!(grid.width(), 3);
    assert_eq!(grid.height(), 2);
    assert_eq!(grid.cells(), &cells);
}

#[test]
fn grid_rejects_a_wrong_cell_count() {
    assert!(FrameGrid::new(3, 2, vec![Color::Black; 5]).is_none());
    assert!(FrameGrid::new(3, 2, vec![Color::Black; 7]).is_none());
    assert!(FrameGrid::new(0, 2, vec![Color::Black; 1]).is_none());
}

#[test]
fn grid_rejects_a_geometry_beyond_counting() {
    assert!(FrameGrid::new(usize::MAX, 2, vec![Color::Black; 4]).is_none());
    assert!(FrameGrid::new(usize::MAX, usize::MAX, vec![]).is_none());
}

#[test]
fn grid_may_be_empty() {
    let grid = FrameGrid::new(0, 7, vec![]).unwrap();
    assert_eq!(grid.width(), 0);
    assert_eq!(grid.height(), 7);
    assert!(grid.cells().is_empty());
}

#[test]
fn frame_set_keeps_its_frames_in_order() {
    let a = FrameGrid::new(2, 1, vec![Color::Black, Color::Black]).unwrap();
    let b = FrameGrid::new(2, 1, vec![Color::Blue, Color::Red]).unwrap();
    let set = FrameSet::new(vec![a, b]).unwrap();
    assert_eq!(set.len(), 2);
    assert_eq!(set.width(), 2);
    assert_eq!(set.height(), 1);
    assert_eq!(set.frame(0).unwrap().cells(), &vec![Color::Black, Color::Black]);
    assert_eq!(set.frame(1).unwrap().cells(), &vec![Color::Blue, Color::Red]);
    assert!(set.frame(2).is_none());
    assert!(set.frame(usize::MAX).is_none());
}

#[test]
fn frame_set_rejects_no_frames() {
    assert!(FrameSet::new(vec![]).is_none());
}

#[test]
fn frame_set_rejects_mixed_geometry() {
    let a = FrameGrid::new(2, 1, vec![Color::Black; 2]).unwrap();
    let b = FrameGrid::new(1, 2, vec![Color::Black; 2]).unwrap();
    assert!(FrameSet::new(vec![a, b]).is_none());
    let c = FrameGrid::new(2, 1, vec![Color::Black; 2]).unwrap();
    let d = FrameGrid::new(2, 1, vec![Color::Black; 2]).unwrap();
    let e = FrameGrid::new(2, 2, vec![Color::Black; 4]).unwrap();
    assert!(FrameSet::new(vec![c, d, e]).is_none());
}

#[test]
fn palette_has_sixteen_distinct_colors_in_order() {
    let colors = palette();
    assert_eq!(colors.len(), 16);
    assert_eq!(PALETTE_SIZE, 16);
    assert_eq!(
        colors,
        vec![
            Color::Black,
            Color::Blue,
            Color::Green,
            Color::Cyan,
            Color::Red,
            Color::Magenta,
            Color::Brown,
            Color::LightGray,
            Color::DarkGray,
            Color::LightBlue,
            Color::LightGreen,
            Color::LightCyan,
            Color::LightRed,
            Color::LightMagenta,
            Color::Yellow,
            Color::White,
        ]
    );
    for i in 0..colors.len() {
        for j in 0..i {
            assert_ne!(colors[i], colors[j]);
        }
    }
}
