use parasync::engine::{status_at, Engine, PlayState, SinkOp};
use parasync::fixed::GAIN_UNIT;

fn loaded_engine() -> Engine {
    let mut eng = Engine::new(48000, 2, 1024);
    let op = eng
        .prepare_streaming(vec!["a.wav".to_string(), "b.wav".to_string()])
        .unwrap();
    assert_eq!(op, SinkOp::Kill);
    eng
}

#[test]
fn load_rejects_empty_track_list() {
    let mut eng = Engine::new(48000, 2, 1024);
    let r = eng.prepare_streaming(Vec::new());
    assert_eq!(r.unwrap_err(), "At least one audio path is required");
}

#[test]
fn load_resets_position_and_gains() {
    let eng = loaded_engine();
    assert_eq!(eng.pos_frames, 0);
    assert_eq!(eng.total_frames, 0);
    assert_eq!(eng.state, PlayState::Stopped);
    assert_eq!(eng.gains.len(), 2);
    assert_eq!(eng.gains[0].target_milli, GAIN_UNIT);
    assert_eq!(eng.gains[0].ramp_frames, 0);
    assert_eq!(eng.gains[0].generation, 0);
}

#[test]
fn play_without_load_fails() {
    let mut eng = Engine::new(48000, 2, 1024);
    assert_eq!(eng.play(0).unwrap_err(), "No audio loaded");
}

#[test]
fn play_spawns_from_current_position() {
    let mut eng = loaded_engine();
    let op = eng.play(1_000_000).unwrap();
    assert_eq!(op, SinkOp::Spawn { start_frames: 0 });
    assert_eq!(eng.state, PlayState::Playing);
    assert_eq!(eng.play_started_at, Some(1_000_000));
}

#[test]
fn play_twice_is_a_no_op() {
    let mut eng = loaded_engine();
    eng.play(1_000_000).unwrap();
    let pos_before = eng.pos_frames;
    let op = eng.play(2_000_000).unwrap();
    assert_eq!(op, SinkOp::Keep);
    assert_eq!(eng.pos_frames, pos_before);
    assert_eq!(eng.play_started_at, Some(1_000_000));
    assert_eq!(eng.state, PlayState::Playing);
}

#[test]
fn pause_folds_elapsed_wall_clock_into_position() {
    let mut eng = loaded_engine();
    eng.play(1_000_000).unwrap();
    // exactly one second of playback at 48 kHz
    let op = eng.pause(2_000_000).unwrap();
    assert_eq!(op, SinkOp::Pause);
    assert_eq!(eng.pos_frames, 48000);
    assert_eq!(eng.state, PlayState::Paused);
    assert_eq!(eng.play_started_at, None);
}

#[test]
fn pause_rounds_to_nearest_frame() {
    let mut eng = loaded_engine();
    eng.play(0).unwrap();
    // 10.4 microseconds of playback: 0.4992 frames, rounds to 0
    eng.pause(10).unwrap();
    assert_eq!(eng.pos_frames, 0);
    eng.play(0).unwrap();
    // 11 microseconds: 0.528 frames, rounds to 1
    eng.pause(11).unwrap();
    assert_eq!(eng.pos_frames, 1);
}

#[test]
fn pause_while_not_playing_changes_nothing() {
    let mut eng = loaded_engine();
    let op = eng.pause(5_000_000).unwrap();
    assert_eq!(op, SinkOp::Keep);
    assert_eq!(eng.pos_frames, 0);
    assert_eq!(eng.state, PlayState::Stopped);
}

#[test]
fn seek_while_stopped_reports_target_in_status() {
    let mut eng = loaded_engine();
    let op = eng.seek(5 * 48000, 0).unwrap();
    assert_eq!(op, SinkOp::Keep);
    let sh = eng.push_shared();
    let st = status_at(&sh, 99_000_000);
    assert_eq!(st.position_frames, 5 * 48000);
    assert!(!st.is_playing);
}

#[test]
fn seek_clamps_to_known_duration() {
    let mut eng = loaded_engine();
    eng.total_frames = 1000;
    eng.seek(5000, 0).unwrap();
    assert_eq!(eng.pos_frames, 1000);
    eng.seek(400, 0).unwrap();
    assert_eq!(eng.pos_frames, 400);
}

#[test]
fn seek_while_playing_respawns_at_target() {
    let mut eng = loaded_engine();
    eng.play(1_000_000).unwrap();
    let op = eng.seek(9600, 3_000_000).unwrap();
    assert_eq!(op, SinkOp::Spawn { start_frames: 9600 });
    assert_eq!(eng.state, PlayState::Playing);
    assert_eq!(eng.play_started_at, Some(3_000_000));
}

#[test]
fn stop_resets_position_and_tears_sink_down() {
    let mut eng = loaded_engine();
    eng.play(1_000_000).unwrap();
    let op = eng.stop().unwrap();
    assert_eq!(op, SinkOp::Kill);
    assert_eq!(eng.pos_frames, 0);
    assert_eq!(eng.state, PlayState::Stopped);
    assert!(!eng.has_sink);
}

#[test]
fn status_advances_with_wall_clock_while_playing() {
    let mut eng = loaded_engine();
    eng.play(1_000_000).unwrap();
    let sh = eng.push_shared();
    let st0 = status_at(&sh, 1_000_000);
    let st1 = status_at(&sh, 1_500_000);
    let st2 = status_at(&sh, 2_000_000);
    assert_eq!(st0.position_frames, 0);
    assert_eq!(st1.position_frames, 24000);
    assert_eq!(st2.position_frames, 48000);
    assert!(st2.is_playing);
}

#[test]
fn dispose_resets_everything_and_blocks_play() {
    let mut eng = loaded_engine();
    eng.play(1_000_000).unwrap();
    let op = eng.dispose().unwrap();
    assert_eq!(op, SinkOp::Kill);
    let sh = eng.push_shared();
    let st = status_at(&sh, 9_000_000);
    assert_eq!(st.position_frames, 0);
    assert!(!st.is_playing);
    assert_eq!(eng.play(9_000_000).unwrap_err(), "No audio loaded");
}

#[test]
fn set_gain_bumps_only_named_tracks() {
    let mut eng = loaded_engine();
    eng.set_tracks_gain_by_path(vec!["b.wav".to_string()], 500, Some(0))
        .unwrap();
    assert_eq!(eng.gains[0].target_milli, GAIN_UNIT);
    assert_eq!(eng.gains[0].generation, 0);
    assert_eq!(eng.gains[1].target_milli, 500);
    assert_eq!(eng.gains[1].ramp_frames, 0);
    assert_eq!(eng.gains[1].generation, 1);
}

#[test]
fn set_gain_converts_ramp_milliseconds_to_frames() {
    let mut eng = loaded_engine();
    // 50 ms at 48 kHz is 2400 frames
    eng.set_tracks_gain_by_path(vec!["a.wav".to_string()], 0, Some(50))
        .unwrap();
    assert_eq!(eng.gains[0].ramp_frames, 2400);
    // the default ramp is 10 ms
    eng.set_tracks_gain_by_path(vec!["b.wav".to_string()], 0, None)
        .unwrap();
    assert_eq!(eng.gains[1].ramp_frames, 480);
}

#[test]
fn set_gain_ignores_unknown_paths() {
    let mut eng = loaded_engine();
    eng.set_tracks_gain_by_path(vec!["missing.wav".to_string()], 0, Some(0))
        .unwrap();
    assert_eq!(eng.gains[0].target_milli, GAIN_UNIT);
    assert_eq!(eng.gains[1].target_milli, GAIN_UNIT);
    assert_eq!(eng.gains[0].generation, 0);
    assert_eq!(eng.gains[1].generation, 0);
}

#[test]
fn set_gain_without_load_fails() {
    let mut eng = Engine::new(48000, 2, 1024);
    let r = eng.set_tracks_gain_by_path(vec!["a.wav".to_string()], 500, None);
    assert_eq!(r.unwrap_err(), "No audio loaded");
}

#[test]
fn mute_targets_zero_and_unmute_targets_unity() {
    let mut eng = loaded_engine();
    eng.mute_tracks_by_path(vec!["a.wav".to_string()], true, Some(50))
        .unwrap();
    assert_eq!(eng.gains[0].target_milli, 0);
    assert_eq!(eng.gains[0].ramp_frames, 2400);
    eng.mute_tracks_by_path(vec!["a.wav".to_string()], false, Some(0))
        .unwrap();
    assert_eq!(eng.gains[0].target_milli, GAIN_UNIT);
}
