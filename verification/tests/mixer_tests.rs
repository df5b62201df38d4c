use parasync::fixed::GAIN_UNIT;
use parasync::gain::{ramp_advance, GainCmd};
use parasync::mixer::MixedSource;
use parasync::track::TrackStream;

fn unity_cmds(n: usize) -> Vec<GainCmd> {
    (0..n)
        .map(|_| GainCmd {
            target_milli: GAIN_UNIT,
            ramp_frames: 0,
            generation: 0,
        })
        .collect()
}

#[test]
fn solo_unity_track_is_scaled_by_headroom_only() {
    let tr = TrackStream::new(vec![1000, -500], 1, 48000, 1, 48000);
    let mut mix = MixedSource::new(vec![tr], 48000, 1, 64, 0);
    let shared = unity_cmds(1);
    mix.fill_block(&shared);
    // input * (gain 1000/1000) * headroom 4/5, truncated toward zero
    assert_eq!(mix.buf[0], 800);
    assert_eq!(mix.buf[1], -400);
    assert_eq!(mix.buf[2], 0);
}

#[test]
fn gain_command_scales_every_sample_after_a_one_sample_ramp() {
    let tr = TrackStream::new(vec![1000, -500, 300], 1, 48000, 1, 48000);
    let mut mix = MixedSource::new(vec![tr], 48000, 1, 64, 0);
    let shared = vec![GainCmd {
        target_milli: 500,
        ramp_frames: 1,
        generation: 1,
    }];
    mix.fill_block(&shared);
    // the one-step ramp reaches gain 500 before the first sample is mixed
    assert_eq!(mix.buf[0], (1000 * 500 / 1000) * 4 / 5);
    assert_eq!(mix.buf[1], -((500 * 500 / 1000) * 4 / 5));
    assert_eq!(mix.buf[2], (300 * 500 / 1000) * 4 / 5);
}

#[test]
fn two_identical_unity_tracks_double_before_headroom() {
    let a = TrackStream::new(vec![1000, 250], 1, 48000, 1, 48000);
    let b = TrackStream::new(vec![1000, 250], 1, 48000, 1, 48000);
    let mut mix = MixedSource::new(vec![a, b], 48000, 1, 64, 0);
    let shared = unity_cmds(2);
    mix.fill_block(&shared);
    assert_eq!(mix.buf[0], 2 * 1000 * 4 / 5);
    assert_eq!(mix.buf[1], 2 * 250 * 4 / 5);
}

#[test]
fn mute_ramp_descends_linearly_to_silence() {
    let tr = TrackStream::new(vec![1000; 8], 1, 48000, 1, 48000);
    let mut mix = MixedSource::new(vec![tr], 48000, 1, 64, 0);
    // ramp from unity to mute over four samples: 750, 500, 250, 0
    let shared = vec![GainCmd {
        target_milli: 0,
        ramp_frames: 4,
        generation: 1,
    }];
    mix.fill_block(&shared);
    assert_eq!(mix.buf[0], (1000 * 750 / 1000) * 4 / 5);
    assert_eq!(mix.buf[1], (1000 * 500 / 1000) * 4 / 5);
    assert_eq!(mix.buf[2], (1000 * 250 / 1000) * 4 / 5);
    assert_eq!(mix.buf[3], 0);
    assert_eq!(mix.buf[4], 0);
}

#[test]
fn ramp_steps_never_exceed_the_distance_over_the_length() {
    // ramping 1000 down to 0 over 4 samples moves at most 250 per step
    let mut cg: u32 = 1000;
    let mut rem: u64 = 4;
    let mut seen = Vec::new();
    while rem > 0 {
        let (ncg, nrem) = ramp_advance(cg, 0, rem);
        assert!(cg.abs_diff(ncg) <= 250);
        cg = ncg;
        rem = nrem;
        seen.push(cg);
    }
    assert_eq!(seen, vec![750, 500, 250, 0]);
}

#[test]
fn stale_generation_does_not_restart_a_ramp() {
    let tr = TrackStream::new(vec![1000; 4], 1, 48000, 1, 48000);
    let mut mix = MixedSource::new(vec![tr], 48000, 1, 64, 0);
    // same generation and same target as the initial table: nothing adopted
    let shared = unity_cmds(1);
    mix.fill_block(&shared);
    assert_eq!(mix.target_gain[0], GAIN_UNIT);
    assert_eq!(mix.ramp_remaining[0], 0);
    assert_eq!(mix.last_gen[0], 0);
}

#[test]
fn next_streams_the_block_and_ends_after_silence() {
    let tr = TrackStream::new(vec![300, 200], 1, 48000, 1, 48000);
    let mut mix = MixedSource::new(vec![tr], 48000, 1, 64, 0);
    let shared = unity_cmds(1);
    let mut produced = Vec::new();
    while let Some(v) = mix.next(&shared) {
        produced.push(v);
    }
    // one 64-frame block with signal, then a silent block ends the source
    assert_eq!(produced.len(), 64);
    assert_eq!(produced[0], 300 * 4 / 5);
    assert_eq!(produced[1], 200 * 4 / 5);
    assert_eq!(produced[2], 0);
    assert!(mix.finished);
    assert_eq!(mix.next(&shared), None);
}

#[test]
fn spawn_position_skips_into_the_tracks() {
    let input: Vec<i32> = (0..20).map(|v| v * 10).collect();
    let tr = TrackStream::new(input, 1, 48000, 1, 48000);
    let mut mix = MixedSource::new(vec![tr], 48000, 1, 64, 4);
    let shared = unity_cmds(1);
    mix.fill_block(&shared);
    // the prefilled window sits two frames in; the seek discards four more
    assert_eq!(mix.buf[0], 60 * 4 / 5);
}

#[test]
fn block_frames_are_floored_at_sixty_four() {
    let tr = TrackStream::new(vec![1], 1, 48000, 1, 48000);
    let mix = MixedSource::new(vec![tr], 48000, 1, 7, 0);
    assert_eq!(mix.block_frames, 64);
}
