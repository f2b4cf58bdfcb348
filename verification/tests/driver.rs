use game_of_life::driver::{InputEvent, Mode, Overlay, Scheduler};
use game_of_life::grid::Grid;

#[test]
fn fresh_scheduler_is_paused_with_overlay_hidden() {
    let s = Scheduler::new(5);
    assert_eq!(s.mode(), Mode::Paused);
    assert_eq!(s.overlay(), Overlay::Hidden);
}

#[test]
fn reset_forces_paused_from_playing() {
    let mut s = Scheduler::new(5);
    let mut g = Grid::new(3, 3);
    s.handle_event(&mut g, InputEvent::TogglePlay);
    assert_eq!(s.mode(), Mode::Playing);
    s.handle_event(&mut g, InputEvent::Reset);
    assert_eq!(s.mode(), Mode::Paused);
}

#[test]
fn reset_forces_paused_from_paused() {
    let mut s = Scheduler::new(5);
    let mut g = Grid::new(3, 3);
    assert_eq!(s.mode(), Mode::Paused);
    s.handle_event(&mut g, InputEvent::Reset);
    assert_eq!(s.mode(), Mode::Paused);
}

#[test]
fn reset_keeps_grid_dimensions() {
    let mut s = Scheduler::new(5);
    let mut g = Grid::new(4, 7);
    s.handle_event(&mut g, InputEvent::Reset);
    assert_eq!(g.rows(), 4);
    assert_eq!(g.cols(), 7);
}

#[test]
fn toggle_play_flips_the_mode_both_ways() {
    let mut s = Scheduler::new(5);
    let mut g = Grid::new(3, 3);
    s.handle_event(&mut g, InputEvent::TogglePlay);
    assert_eq!(s.mode(), Mode::Playing);
    s.handle_event(&mut g, InputEvent::TogglePlay);
    assert_eq!(s.mode(), Mode::Paused);
}

#[test]
fn toggle_overlay_is_independent_of_mode() {
    let mut s = Scheduler::new(5);
    let mut g = Grid::new(3, 3);
    s.handle_event(&mut g, InputEvent::ToggleOverlay);
    assert_eq!(s.overlay(), Overlay::Shown);
    assert_eq!(s.mode(), Mode::Paused);
    s.handle_event(&mut g, InputEvent::TogglePlay);
    assert_eq!(s.overlay(), Overlay::Shown);
    s.handle_event(&mut g, InputEvent::ToggleOverlay);
    assert_eq!(s.overlay(), Overlay::Hidden);
}

#[test]
fn quit_and_escape_end_the_loop_and_nothing_else_does() {
    let mut s = Scheduler::new(5);
    let mut g = Grid::new(3, 3);
    assert!(s.handle_event(&mut g, InputEvent::Quit));
    assert!(s.handle_event(&mut g, InputEvent::Escape));
    assert!(!s.handle_event(&mut g, InputEvent::TogglePlay));
    assert!(!s.handle_event(&mut g, InputEvent::Reset));
    assert!(!s.handle_event(&mut g, InputEvent::ToggleOverlay));
    assert!(!s.handle_event(&mut g, InputEvent::Other));
}

#[test]
fn unrecognized_events_are_no_ops() {
    let mut s = Scheduler::new(5);
    let mut g = Grid::new(3, 3);
    g.set_cell(1, 1, true);
    s.handle_event(&mut g, InputEvent::Other);
    assert_eq!(s.mode(), Mode::Paused);
    assert_eq!(s.overlay(), Overlay::Hidden);
    assert_eq!(g.live_cells(), vec![(1, 1)]);
}

#[test]
fn paused_scheduler_never_steps() {
    let mut s = Scheduler::new(5);
    let mut g = Grid::new(3, 3);
    g.set_cell(1, 0, true);
    g.set_cell(1, 1, true);
    g.set_cell(1, 2, true);
    let before = g.live_cells();
    let count = s.run_frames(&mut g, &vec![100, 100, 100, 100]);
    assert_eq!(count, 0);
    assert_eq!(g.live_cells(), before);
}

#[test]
fn playing_steps_once_when_the_interval_accumulates() {
    let mut s = Scheduler::new(5);
    let mut g = Grid::new(3, 3);
    s.handle_event(&mut g, InputEvent::TogglePlay);
    // Five samples of 1 add up to exactly one tick interval.
    let count = s.run_frames(&mut g, &vec![1, 1, 1, 1, 1]);
    assert_eq!(count, 1);
}

#[test]
fn playing_does_not_step_before_the_interval_accumulates() {
    let mut s = Scheduler::new(5);
    let mut g = Grid::new(3, 3);
    s.handle_event(&mut g, InputEvent::TogglePlay);
    let count = s.run_frames(&mut g, &vec![2, 2]);
    assert_eq!(count, 0);
    // The third sample pushes the accumulated time past the interval.
    let count = s.run_frames(&mut g, &vec![2]);
    assert_eq!(count, 1);
}

#[test]
fn a_huge_delta_fires_only_one_step_per_frame() {
    // No catch-up loop: a stall triggers a single step per iteration,
    // however many intervals' worth of time went by.
    let mut s = Scheduler::new(5);
    let mut g = Grid::new(3, 3);
    s.handle_event(&mut g, InputEvent::TogglePlay);
    let count = s.run_frames(&mut g, &vec![1000]);
    assert_eq!(count, 1);
    let count = s.run_frames(&mut g, &vec![1000, 1000]);
    assert_eq!(count, 2);
}

#[test]
fn frame_reports_each_step_exactly() {
    let mut s = Scheduler::new(3);
    let mut g = Grid::new(3, 3);
    s.handle_event(&mut g, InputEvent::TogglePlay);
    assert!(!s.frame(&mut g, 2));
    assert!(s.frame(&mut g, 1));
    assert!(!s.frame(&mut g, 2));
    assert!(!s.frame(&mut g, 0));
    assert!(s.frame(&mut g, 7));
}

#[test]
fn stepping_while_playing_advances_the_grid() {
    let mut s = Scheduler::new(1);
    let mut g = Grid::new(3, 3);
    g.set_cell(1, 0, true);
    g.set_cell(1, 1, true);
    g.set_cell(1, 2, true);
    s.handle_event(&mut g, InputEvent::TogglePlay);
    let count = s.run_frames(&mut g, &vec![1]);
    assert_eq!(count, 1);
    assert_eq!(g.live_cells(), vec![(0, 1), (1, 1), (2, 1)]);
}
