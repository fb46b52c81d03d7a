use bit_music::playback::{any_preview_playing, is_preview_playing, play_preview, PlayState, Preview};

fn playing(len: usize) -> PlayState {
    let mut s = PlayState::new(len);
    s.play();
    s
}

#[test]
fn a_paused_transport_sounds_nothing_and_does_not_move() {
    let mut s = PlayState::new(8);
    assert_eq!(s.fill(4), vec![None, None, None, None]);
    assert_eq!(s.current_position(), 0);
}

#[test]
fn playing_moves_one_frame_per_output_frame() {
    let mut s = playing(8);
    assert_eq!(s.fill(2), vec![Some(0), Some(1)]);
    assert_eq!(s.current_position(), 2);
}

#[test]
fn reaching_the_end_stops_and_marks_finished_in_frames() {
    let mut s = playing(2);
    assert_eq!(s.fill(4), vec![Some(0), Some(1), None, None]);
    assert!(!s.playing);
    assert!(s.finished);
}

#[test]
fn looping_wraps_around_instead_of_finishing_in_frames() {
    let mut s = playing(2);
    s.set_looping(true);
    assert_eq!(s.fill(5), vec![Some(0), Some(1), Some(0), Some(1), Some(0)]);
    assert!(s.playing);
    assert!(!s.finished);
}

#[test]
fn a_seek_takes_effect_on_the_next_block() {
    let mut s = playing(4);
    s.seek_frame(2);
    assert_eq!(s.current_position(), 2);
    assert_eq!(s.fill(2), vec![Some(2), Some(3)]);
}

#[test]
fn a_seek_past_the_end_goes_to_the_end() {
    let mut s = playing(4);
    s.seek_frame(99);
    assert_eq!(s.current_position(), 4);
    assert_eq!(s.fill(1), vec![None]);
    assert!(s.finished);
}

#[test]
fn playing_after_the_end_starts_over_and_stop_rewinds() {
    let mut s = playing(2);
    s.fill(3);
    assert!(s.finished);
    s.play();
    assert!(!s.finished);
    assert_eq!(s.current_position(), 0);
    assert_eq!(s.fill(1), vec![Some(0)]);
    s.pause();
    assert_eq!(s.fill(1), vec![None]);
    assert_eq!(s.current_position(), 1);
    s.stop();
    assert_eq!(s.current_position(), 0);
    assert!(!s.playing);
}

#[test]
fn an_empty_transport_finishes_at_once_even_when_looping() {
    let mut s = playing(0);
    s.set_looping(true);
    assert_eq!(s.fill(2), vec![None, None]);
    assert!(s.finished);
}

#[test]
fn a_preview_sounds_once() {
    let mut p = Preview::new(2);
    assert_eq!(p.fill(2), vec![None, None]);
    p.start();
    assert!(p.is_active());
    assert_eq!(p.fill(1), vec![Some(0)]);
    assert!(p.is_active());
    assert_eq!(p.fill(3), vec![Some(1), None, None]);
    assert!(!p.is_active());
}

#[test]
fn previews_are_started_by_index() {
    let mut previews = vec![Preview::new(3), Preview::new(1)];
    assert!(!any_preview_playing(&previews));
    play_preview(&mut previews, 1);
    assert!(is_preview_playing(&previews, 1));
    assert!(!is_preview_playing(&previews, 0));
    assert!(!is_preview_playing(&previews, 7));
    assert!(any_preview_playing(&previews));
    play_preview(&mut previews, 7);
    assert_eq!(previews.len(), 2);
}
