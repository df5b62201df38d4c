use parasync::track::TrackStream;

fn zeros(n: usize) -> Vec<i64> {
    vec![0i64; n]
}

#[test]
fn matched_rate_mono_passes_samples_through() {
    let mut tr = TrackStream::new(vec![100, -200, 300], 1, 10, 1, 10);
    let mut out = zeros(5);
    let active = tr.render_block(&mut out, 5);
    assert_eq!(out, vec![100, -200, 300, 0, 0]);
    assert!(active);
}

#[test]
fn matched_rate_stereo_passes_frames_through() {
    let mut tr = TrackStream::new(vec![1, 2, 3, 4], 2, 44100, 2, 44100);
    let mut out = zeros(6);
    tr.render_block(&mut out, 3);
    assert_eq!(out, vec![1, 2, 3, 4, 0, 0]);
}

#[test]
fn render_adds_onto_existing_buffer_contents() {
    let mut tr = TrackStream::new(vec![10, 20], 1, 8000, 1, 8000);
    let mut out = vec![5i64, 5, 5];
    tr.render_block(&mut out, 3);
    assert_eq!(out, vec![15, 25, 5]);
}

#[test]
fn downsampling_by_two_keeps_every_other_frame() {
    let mut tr = TrackStream::new(vec![10, 20, 30, 40, 50, 60], 1, 20, 1, 10);
    let mut out = zeros(3);
    tr.render_block(&mut out, 3);
    assert_eq!(out, vec![10, 30, 50]);
}

#[test]
fn upsampling_by_two_interpolates_midpoints() {
    let mut tr = TrackStream::new(vec![100, 200, 300], 1, 10, 1, 20);
    let mut out = zeros(6);
    tr.render_block(&mut out, 6);
    assert_eq!(out, vec![100, 150, 200, 250, 300, 150]);
}

#[test]
fn stereo_duplicates_onto_extra_channels() {
    let mut tr = TrackStream::new(vec![7, 9], 2, 10, 4, 10);
    let mut out = zeros(4);
    tr.render_block(&mut out, 1);
    assert_eq!(out, vec![7, 9, 7, 9]);
}

#[test]
fn stereo_downmixes_to_mono_by_averaging() {
    let mut tr = TrackStream::new(vec![10, 20, -30, -50], 2, 10, 1, 10);
    let mut out = zeros(2);
    tr.render_block(&mut out, 2);
    assert_eq!(out, vec![15, -40]);
}

#[test]
fn exhausted_track_reports_inactive_silence() {
    let mut tr = TrackStream::new(vec![5], 1, 10, 1, 10);
    let mut out = zeros(3);
    let active_first = tr.render_block(&mut out, 3);
    assert!(active_first);
    let mut out2 = zeros(3);
    let active_second = tr.render_block(&mut out2, 3);
    assert_eq!(out2, vec![0, 0, 0]);
    assert!(!active_second);
}

#[test]
fn skip_discards_whole_input_frames_from_the_cursor() {
    let input: Vec<i32> = (0..10).map(|v| v * 100).collect();
    let mut tr = TrackStream::new(input, 1, 10, 1, 10);
    // the window already consumed two frames; the skip discards three more
    tr.skip_to_frame(3);
    let mut out = zeros(3);
    tr.render_block(&mut out, 3);
    assert_eq!(out, vec![500, 600, 700]);
}

#[test]
fn skip_of_less_than_one_input_frame_is_a_no_op() {
    let mut tr = TrackStream::new(vec![100, 200], 1, 10, 20, 10);
    tr.skip_to_frame(0);
    let mut out = zeros(2 * 20);
    tr.render_block(&mut out, 2);
    assert_eq!(out[0], 100);
}

#[test]
fn skip_past_the_end_leaves_silence() {
    let mut tr = TrackStream::new(vec![100, 200], 1, 10, 1, 10);
    tr.skip_to_frame(50);
    let mut out = zeros(2);
    let active = tr.render_block(&mut out, 2);
    assert_eq!(out, vec![0, 0]);
    assert!(!active);
}
