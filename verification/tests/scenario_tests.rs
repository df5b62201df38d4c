//! One whole session, driven the way a shell drives it: load, play, pull
//! mixed blocks, mute one track over a ramp, and watch the status.

use parasync::engine::{status_at, Engine, SinkOp};
use parasync::mixer::MixedSource;
use parasync::track::TrackStream;

#[test]
fn session_plays_mutes_and_reports_monotone_positions() {
    let out_sr = 48000u32;
    let mut eng = Engine::new(out_sr, 1, 64);
    eng.prepare_streaming(vec!["a.wav".to_string(), "b.wav".to_string()])
        .unwrap();

    // play: the engine asks for a sink from position zero; the shell
    // builds the mix from the decoded tracks
    let op = eng.play(1_000_000).unwrap();
    assert_eq!(op, SinkOp::Spawn { start_frames: 0 });
    let a = TrackStream::new(vec![100; 8000], 1, out_sr, 1, out_sr);
    let b = TrackStream::new(vec![50; 8000], 1, out_sr, 1, out_sr);
    let mut mix = MixedSource::new(vec![a, b], out_sr, 1, 64, 0);

    // a few blocks of both tracks at unity gain
    for _ in 0..4 {
        let table = eng.gains.clone();
        mix.fill_block(&table);
        assert_eq!(mix.buf[0], (100 + 50) * 4 / 5);
    }

    // the position grows monotonically with the wall clock while playing
    let sh = eng.push_shared();
    let mut last = 0;
    for t in [1_000_000u64, 1_250_000, 1_500_000, 2_000_000] {
        let st = status_at(&sh, t);
        assert!(st.is_playing);
        assert!(st.position_frames >= last);
        last = st.position_frames;
    }
    assert_eq!(last, 48000);

    // mute track a over 50 ms: 2400 frames of ramp at 48 kHz
    eng.mute_tracks_by_path(vec!["a.wav".to_string()], true, Some(50))
        .unwrap();
    assert_eq!(eng.gains[0].target_milli, 0);
    assert_eq!(eng.gains[0].ramp_frames, 2400);

    // the mixer adopts the command and descends without ever stepping by
    // more than one thousandth per sample (the quantized form of the
    // distance over the ramp length)
    let mut blocks = 0;
    let mut prev_gain = mix.curr_gain[0];
    while mix.curr_gain[0] > 0 {
        let table = eng.gains.clone();
        mix.fill_block(&table);
        let g = mix.curr_gain[0];
        assert!(g <= prev_gain);
        assert!(prev_gain - g <= 64);
        prev_gain = g;
        blocks += 1;
        assert!(blocks <= 40, "the ramp must finish within 2400 samples");
    }
    // 2400 ramp samples at 64 samples per block
    assert_eq!(blocks, 2400 / 64 + 1);

    // with track a silent, only track b remains
    let table = eng.gains.clone();
    mix.fill_block(&table);
    assert_eq!(mix.buf[0], 50 * 4 / 5);

    // pausing freezes the position at the elapsed wall clock
    eng.pause(2_000_000).unwrap();
    let sh2 = eng.push_shared();
    let st = status_at(&sh2, 9_000_000);
    assert_eq!(st.position_frames, 48000);
    assert!(!st.is_playing);
}
