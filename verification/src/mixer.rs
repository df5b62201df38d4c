//! The mixed source: pulls blocks from every track stream, applies each
//! track's (possibly ramping) gain, sums them, applies the fixed headroom
//! factor, and hands the result out one sample at a time.

use vstd::prelude::*;

use crate::fixed::{
    abs_of, scale_trunc, scale_trunc_i64, AMP_UNIT, GAIN_UNIT, HEADROOM_DEN, HEADROOM_NUM,
    MAX_TRACKS, SAMPLE_PEAK,
};
use crate::gain::{ramp_after, ramp_rem_after, GainCmd};
use crate::track::{block_has_signal, frame_at, track_sample, TrackStream, MAX_POSITION_FRAMES};

verus! {

/// Most frames one mixed block may hold.
pub const MAX_BLOCK_FRAMES: usize = 0x10_0000;

/// Largest magnitude one gained track contributes to one mixed sample:
/// the sample peak scaled by the largest representable gain.
pub const TERM_PEAK: i64 = 0x800_0000_0000;

/// What one track contributes to flat sample position `s` of a block, before
/// any gain: its resampler output for frame `s / out_ch`, channel `s % out_ch`.
pub open spec fn track_out(tr: TrackStream, och: int, s: int) -> int {
    track_sample(
        tr.input@,
        tr.in_ch as int,
        tr.in_sr as int,
        tr.out_sr as int,
        och,
        tr.vbase@,
        tr.phase_num as int,
        s / och,
        s % och,
    )
}

/// The gained contributions of the first `n` tracks to sample `s`, summed:
/// each track's resampler output scaled by its ramped gain at that sample.
pub open spec fn mix_sum(
    tracks: Seq<TrackStream>,
    cg: Seq<u32>,
    tg: Seq<u32>,
    rem: Seq<u64>,
    och: int,
    s: int,
    n: int,
) -> int
    decreases n,
{
    if n <= 0 {
        0
    } else {
        mix_sum(tracks, cg, tg, rem, och, s, n - 1) + scale_trunc(
            track_out(tracks[n - 1], och, s),
            ramp_after(cg[n - 1] as int, tg[n - 1] as int, rem[n - 1] as int, s + 1),
            GAIN_UNIT as int,
        )
    }
}

/// One fully mixed output sample: the gained sum of every track, scaled by
/// the headroom factor.
pub open spec fn mixed_sample(
    tracks: Seq<TrackStream>,
    cg: Seq<u32>,
    tg: Seq<u32>,
    rem: Seq<u64>,
    och: int,
    s: int,
) -> int {
    scale_trunc(
        mix_sum(tracks, cg, tg, rem, och, s, tracks.len() as int),
        HEADROOM_NUM as int,
        HEADROOM_DEN as int,
    )
}

/// How one track stream looks after rendering `frames` output frames: the
/// signal and formats are untouched and the window has moved by exactly the
/// resampling ratio.
pub open spec fn rendered_from(tr0: TrackStream, tr1: TrackStream, frames: int) -> bool {
    &&& tr1.wf()
    &&& tr1.input@ == tr0.input@
    &&& tr1.in_ch == tr0.in_ch
    &&& tr1.in_sr == tr0.in_sr
    &&& tr1.out_ch == tr0.out_ch
    &&& tr1.out_sr == tr0.out_sr
    &&& tr1.vbase@ == tr0.vbase@ + (tr0.phase_num as int + frames * tr0.in_sr as int)
        / (tr0.out_sr as int)
    &&& tr1.phase_num as int == (tr0.phase_num as int + frames * tr0.in_sr as int) % (
    tr0.out_sr as int)
}

/// Whether a track still matters after a block: it put a nonzero sample into
/// the block, or its input has not run out.
pub open spec fn track_live(tr0: TrackStream, tr1: TrackStream, frames: int, och: int) -> bool {
    block_has_signal(
        tr0.input@,
        tr0.in_ch as int,
        tr0.in_sr as int,
        tr0.out_sr as int,
        och,
        tr0.vbase@,
        tr0.phase_num as int,
        frames,
    ) || !tr1.at_end
}

/// The pull-based mix of all loaded tracks.
pub struct MixedSource {
    /// One stream per loaded track, all at the output format.
    pub tracks: Vec<TrackStream>,
    /// Output channel count.
    pub out_ch: u16,
    /// Output sample rate.
    pub out_sr: u32,
    /// Frames per mixed block.
    pub block_frames: usize,
    /// The most recently mixed block, interleaved.
    pub buf: Vec<i64>,
    /// Read cursor into `buf`.
    pub buf_pos: usize,
    /// Set once every track has gone quiet; the source then ends.
    pub finished: bool,
    /// Per track: the gain currently applied, in thousandths.
    pub curr_gain: Vec<u32>,
    /// Per track: the gain being ramped toward.
    pub target_gain: Vec<u32>,
    /// Per track: how many more samples the ramp may take.
    pub ramp_remaining: Vec<u64>,
    /// Per track: the generation of the last gain command adopted.
    pub last_gen: Vec<u64>,
}

impl MixedSource {
    /// The mixer's invariant: consistent formats, well-formed tracks at the
    /// output format, and one gain record per track.
    pub open spec fn wf(self) -> bool {
        &&& 1 <= self.out_ch <= 64
        &&& 1 <= self.out_sr <= crate::track::MAX_RATE
        &&& 64 <= self.block_frames <= MAX_BLOCK_FRAMES
        &&& self.tracks@.len() <= MAX_TRACKS
        &&& forall|i: int|
            0 <= i < self.tracks@.len() ==> (#[trigger] self.tracks@[i]).wf()
                && self.tracks@[i].out_ch == self.out_ch as usize && self.tracks@[i].out_sr
                == self.out_sr
        &&& self.curr_gain@.len() == self.tracks@.len()
        &&& self.target_gain@.len() == self.tracks@.len()
        &&& self.ramp_remaining@.len() == self.tracks@.len()
        &&& self.last_gen@.len() == self.tracks@.len()
        &&& self.buf_pos <= self.buf@.len()
        &&& self.buf@.len() <= self.block_frames * self.out_ch as int
    }

    /// Whether the gain table entry `i` carries a command the mixer has not
    /// adopted yet.
    pub open spec fn adopts(self, shared: Seq<GainCmd>, i: int) -> bool {
        i < shared.len() && (shared[i].generation != self.last_gen@[i] || self.target_gain@[i]
            != shared[i].target_milli)
    }

    /// The target gain entry `i` holds after consuming the shared table.
    pub open spec fn new_target(self, shared: Seq<GainCmd>, i: int) -> u32 {
        if self.adopts(shared, i) {
            shared[i].target_milli
        } else {
            self.target_gain@[i]
        }
    }

    /// The ramp budget entry `i` holds after consuming the shared table.
    pub open spec fn new_rem(self, shared: Seq<GainCmd>, i: int) -> u64 {
        if self.adopts(shared, i) {
            shared[i].ramp_frames
        } else {
            self.ramp_remaining@[i]
        }
    }

    /// The generation entry `i` holds after consuming the shared table.
    pub open spec fn new_gen(self, shared: Seq<GainCmd>, i: int) -> u64 {
        if self.adopts(shared, i) {
            shared[i].generation
        } else {
            self.last_gen@[i]
        }
    }
}

/// How a mixer looks after filling one block from gain table `shared`:
/// fresh gain commands adopted, every track advanced by one block, the gain
/// ramps stepped once per sample, and the buffer holding exactly the gained,
/// headroom-scaled sum of every track — or emptied, with the source marked
/// finished, once no track is live.
pub open spec fn fills(pre: MixedSource, post: MixedSource, shared: Seq<GainCmd>) -> bool {
    let n = pre.tracks@.len() as int;
    let needed = pre.block_frames as int * pre.out_ch as int;
    &&& post.out_ch == pre.out_ch
    &&& post.out_sr == pre.out_sr
    &&& post.block_frames == pre.block_frames
    &&& post.tracks@.len() == n
    &&& post.curr_gain@.len() == n
    &&& post.target_gain@.len() == n
    &&& post.ramp_remaining@.len() == n
    &&& post.last_gen@.len() == n
    &&& forall|i: int|
        0 <= i < n ==> rendered_from(
            pre.tracks@[i],
            #[trigger] post.tracks@[i],
            pre.block_frames as int,
        )
    &&& forall|i: int|
        0 <= i < n ==> #[trigger] post.target_gain@[i] == pre.new_target(shared, i)
    &&& forall|i: int| 0 <= i < n ==> #[trigger] post.last_gen@[i] == pre.new_gen(shared, i)
    &&& forall|i: int|
        0 <= i < n ==> #[trigger] post.curr_gain@[i] as int == ramp_after(
            pre.curr_gain@[i] as int,
            pre.new_target(shared, i) as int,
            pre.new_rem(shared, i) as int,
            needed,
        )
    &&& forall|i: int|
        0 <= i < n ==> #[trigger] post.ramp_remaining@[i] as int == ramp_rem_after(
            pre.new_rem(shared, i) as int,
            needed,
        )
    &&& post.finished == !(exists|i: int|
        0 <= i < n && track_live(
            pre.tracks@[i],
            #[trigger] post.tracks@[i],
            pre.block_frames as int,
            pre.out_ch as int,
        ))
    &&& (post.finished ==> post.buf@.len() == 0)
    &&& (!post.finished ==> post.buf@.len() == needed)
    &&& (!post.finished ==> forall|s: int|
        0 <= s < needed ==> #[trigger] post.buf@[s] == mixed_sample(
            pre.tracks@,
            pre.curr_gain@,
            Seq::new(n as nat, |i: int| pre.new_target(shared, i)),
            Seq::new(n as nat, |i: int| pre.new_rem(shared, i)),
            pre.out_ch as int,
            s,
        ))
}

/// How one track stream looks after being sought to position `pos`: either
/// untouched (a target of less than one input frame) or moved by the skipped
/// frames plus the refilled window.
pub open spec fn skipped_to(tr0: TrackStream, tr1: TrackStream, pos: int) -> bool {
    let d = pos * tr0.in_sr as int / (tr0.out_sr as int);
    &&& tr1.wf()
    &&& tr1.input@ == tr0.input@
    &&& tr1.in_ch == tr0.in_ch
    &&& tr1.in_sr == tr0.in_sr
    &&& tr1.out_ch == tr0.out_ch
    &&& tr1.out_sr == tr0.out_sr
    &&& (d == 0 ==> tr1 == tr0)
    &&& (d > 0 ==> tr1.vbase@ == tr0.vbase@ + d + 2)
}

/// A flattened sample of an interleaved input signal: the raw value while
/// the signal lasts, silence beyond it.
pub open spec fn raw_sample(input: Seq<i32>, s: int) -> int {
    if 0 <= s < input.len() {
        input[s] as int
    } else {
        0
    }
}

/// A solo track at matched rate and channel layout, with no ramp running,
/// mixes to exactly the raw input sample scaled by its gain (in thousandths)
/// and then by the headroom factor — for every gain and every sample.
pub proof fn lemma_solo_track_gain(
    tracks: Seq<TrackStream>,
    cg: Seq<u32>,
    tg: Seq<u32>,
    rem: Seq<u64>,
    s: int,
)
    requires
        tracks.len() == 1,
        cg.len() == 1,
        tg.len() == 1,
        rem.len() == 1,
        rem[0] == 0u64,
        tracks[0].in_ch == 1 || tracks[0].in_ch == 2,
        tracks[0].out_ch == tracks[0].in_ch,
        tracks[0].in_sr == tracks[0].out_sr,
        tracks[0].in_sr >= 1,
        tracks[0].vbase@ == 2,
        tracks[0].phase_num == 0,
        0 <= s,
    ensures
        mixed_sample(tracks, cg, tg, rem, tracks[0].out_ch as int, s) == scale_trunc(
            scale_trunc(raw_sample(tracks[0].input@, s), cg[0] as int, GAIN_UNIT as int),
            HEADROOM_NUM as int,
            HEADROOM_DEN as int,
        ),
{
    let och = tracks[0].out_ch as int;
    vstd::arithmetic::div_mod::lemma_fundamental_div_mod(s, och);
    vstd::arithmetic::div_mod::lemma_mod_bound(s, och);
    let ff = s / och;
    let cc = s % och;
    assert(ff >= 0) by (nonlinear_arith)
        requires
            s == och * ff + cc,
            0 <= cc < och,
            s >= 0,
            och >= 1,
    ;
    crate::track::lemma_resample_identity(
        tracks[0].input@,
        och,
        tracks[0].in_sr as int,
        ff,
        cc,
    );
    assert(track_out(tracks[0], och, s) == frame_at(tracks[0].input@, och, ff)[cc]);
    assert(ff * och + cc == s);
    assert(frame_at(tracks[0].input@, och, ff)[cc] == raw_sample(tracks[0].input@, s));
    assert(ramp_after(cg[0] as int, tg[0] as int, 0, s + 1) == cg[0] as int);
    assert(mix_sum(tracks, cg, tg, rem, och, s, 0) == 0);
    assert(mix_sum(tracks, cg, tg, rem, och, s, 1) == 0 + scale_trunc(
        raw_sample(tracks[0].input@, s),
        cg[0] as int,
        GAIN_UNIT as int,
    ));
}

/// Two identical unity-gain mono tracks, at matched rate and with no ramp
/// running, mix to exactly twice the raw input sample scaled by the headroom
/// factor — for every sample.
pub proof fn lemma_two_mono_tracks(
    tracks: Seq<TrackStream>,
    cg: Seq<u32>,
    tg: Seq<u32>,
    rem: Seq<u64>,
    s: int,
)
    requires
        tracks.len() == 2,
        cg.len() == 2,
        tg.len() == 2,
        rem.len() == 2,
        tracks[1] == tracks[0],
        cg[0] == GAIN_UNIT,
        cg[1] == GAIN_UNIT,
        rem[0] == 0u64,
        rem[1] == 0u64,
        tracks[0].in_ch == 1,
        tracks[0].out_ch == 1,
        tracks[0].in_sr == tracks[0].out_sr,
        tracks[0].in_sr >= 1,
        tracks[0].vbase@ == 2,
        tracks[0].phase_num == 0,
        0 <= s,
    ensures
        mixed_sample(tracks, cg, tg, rem, 1, s) == scale_trunc(
            2 * raw_sample(tracks[0].input@, s),
            HEADROOM_NUM as int,
            HEADROOM_DEN as int,
        ),
{
    vstd::arithmetic::div_mod::lemma_fundamental_div_mod(s, 1);
    vstd::arithmetic::div_mod::lemma_mod_bound(s, 1);
    crate::track::lemma_resample_identity(tracks[0].input@, 1, tracks[0].in_sr as int, s, 0);
    let x = raw_sample(tracks[0].input@, s);
    assert(s / 1 == s && s % 1 == 0);
    assert(track_out(tracks[0], 1, s) == frame_at(tracks[0].input@, 1, s)[0]);
    assert(frame_at(tracks[0].input@, 1, s)[0] == x);
    assert(ramp_after(GAIN_UNIT as int, tg[0] as int, 0, s + 1) == GAIN_UNIT as int);
    assert(ramp_after(GAIN_UNIT as int, tg[1] as int, 0, s + 1) == GAIN_UNIT as int);
    crate::fixed::lemma_scale_trunc_unity(x, GAIN_UNIT as int);
    assert(mix_sum(tracks, cg, tg, rem, 1, s, 0) == 0);
    assert(mix_sum(tracks, cg, tg, rem, 1, s, 1) == 0 + x);
    assert(mix_sum(tracks, cg, tg, rem, 1, s, 2) == x + x);
}

/// A track whose ramp has reached the mute target adds nothing to the
/// mix: with gain zero its term in the gained sum is zero, whatever the
/// resampler produced.
pub proof fn lemma_muted_track_adds_silence(x: int)
    ensures
        scale_trunc(x, 0, GAIN_UNIT as int) == 0,
{
    crate::fixed::lemma_scale_trunc_zero_num(x, GAIN_UNIT as int);
}

/// With a headroom factor of one half or less, the mix of two full-scale
/// signals never leaves the full-scale range.
pub proof fn lemma_pair_headroom_bound(x: int, num: int, den: int)
    requires
        0 < den,
        0 <= num,
        2 * num <= den,
        -AMP_UNIT <= x <= AMP_UNIT,
    ensures
        -AMP_UNIT <= scale_trunc(2 * x, num, den) <= AMP_UNIT,
{
    crate::fixed::lemma_scale_trunc_bound(2 * x, num, den, 2 * (AMP_UNIT as int));
    assert(2 * (AMP_UNIT as int) * num <= AMP_UNIT * den) by (nonlinear_arith)
        requires
            2 * num <= den,
            AMP_UNIT as int > 0,
    ;
    vstd::arithmetic::div_mod::lemma_div_is_ordered(
        2 * (AMP_UNIT as int) * num,
        AMP_UNIT * den,
        den,
    );
    vstd::arithmetic::div_mod::lemma_div_multiples_vanish(AMP_UNIT as int, den);
    assert(AMP_UNIT * den == den * (AMP_UNIT as int)) by (nonlinear_arith);
    assert(scale_trunc(2 * (AMP_UNIT as int), num, den) <= AMP_UNIT);
}

/// A zeroed interleaved buffer.
fn zero_buf(n: usize) -> (r: Vec<i64>)
    ensures
        r@.len() == n,
        forall|i: int| 0 <= i < n ==> r@[i] == 0i64,
{
    let mut v: Vec<i64> = Vec::new();
    let mut i: usize = 0;
    while i < n
        invariant
            i <= n,
            v@.len() == i,
            forall|j: int| 0 <= j < i ==> v@[j] == 0i64,
        decreases n - i,
    {
        v.push(0);
        i = i + 1;
    }
    v
}

/// Adds one track's rendered block into the mix buffer, stepping its gain
/// ramp once per sample, and returns the gain state the ramp reaches.
fn mix_track_into(buf: &mut Vec<i64>, scratch: &Vec<i64>, cg0: u32, tg: u32, rem0: u64) -> (r: (
    u32,
    u64,
))
    requires
        old(buf)@.len() == scratch@.len(),
        forall|s: int|
            0 <= s < scratch@.len() ==> -SAMPLE_PEAK <= #[trigger] scratch@[s] <= SAMPLE_PEAK,
        forall|s: int|
            0 <= s < old(buf)@.len() ==> -0x4000_0000_0000_0000 <= #[trigger] old(buf)@[s]
                <= 0x4000_0000_0000_0000,
    ensures
        final(buf)@.len() == old(buf)@.len(),
        r.0 as int == ramp_after(cg0 as int, tg as int, rem0 as int, old(buf)@.len() as int),
        r.1 as int == ramp_rem_after(rem0 as int, old(buf)@.len() as int),
        forall|s: int|
            0 <= s < old(buf)@.len() ==> #[trigger] final(buf)@[s] == old(buf)@[s] + scale_trunc(
                scratch@[s] as int,
                ramp_after(cg0 as int, tg as int, rem0 as int, s + 1),
                GAIN_UNIT as int,
            ),
        forall|s: int|
            0 <= s < old(buf)@.len() ==> old(buf)@[s] - TERM_PEAK <= #[trigger] final(buf)@[s]
                <= old(buf)@[s] + TERM_PEAK,
{
    let n = buf.len();
    let mut cg: u32 = cg0;
    let mut rem: u64 = rem0;
    let mut s: usize = 0;
    while s < n
        invariant
            n == scratch@.len(),
            n == buf@.len(),
            s <= n,
            cg as int == ramp_after(cg0 as int, tg as int, rem0 as int, s as int),
            rem as int == ramp_rem_after(rem0 as int, s as int),
            forall|j: int|
                0 <= j < s ==> #[trigger] buf@[j] == old(buf)@[j] + scale_trunc(
                    scratch@[j] as int,
                    ramp_after(cg0 as int, tg as int, rem0 as int, j + 1),
                    GAIN_UNIT as int,
                ),
            forall|j: int| s <= j < n ==> buf@[j] == old(buf)@[j],
            forall|j: int|
                0 <= j < n ==> old(buf)@[j] - TERM_PEAK <= #[trigger] buf@[j] <= old(buf)@[j]
                    + TERM_PEAK,
            forall|j: int|
                0 <= j < n ==> -SAMPLE_PEAK <= #[trigger] scratch@[j] <= SAMPLE_PEAK,
            forall|j: int|
                0 <= j < n ==> -0x4000_0000_0000_0000 <= #[trigger] old(buf)@[j]
                    <= 0x4000_0000_0000_0000,
        decreases n - s,
    {
        proof {
            crate::gain::lemma_ramp_after_snoc(cg0 as int, tg as int, rem0 as int, s as int);
        }
        let stepped = crate::gain::ramp_advance(cg, tg, rem);
        let cg1 = stepped.0;
        let rem1 = stepped.1;
        cg = cg1;
        rem = rem1;
        let x = scratch[s];
        proof {
            assert(abs_of(x as int) * (cg as int) <= 0x4000_0000_0000_0000) by (nonlinear_arith)
                requires
                    abs_of(x as int) <= SAMPLE_PEAK as int,
                    0 <= cg as int,
                    cg as int <= 0xffff_ffff,
            ;
        }
        let term = scale_trunc_i64(x, cg, GAIN_UNIT);
        proof {
            crate::fixed::lemma_scale_trunc_bound(
                x as int,
                cg as int,
                GAIN_UNIT as int,
                SAMPLE_PEAK as int,
            );
            assert(scale_trunc(SAMPLE_PEAK as int, cg as int, GAIN_UNIT as int) < TERM_PEAK)
                by (nonlinear_arith)
                requires
                    0 <= cg as int <= 0xffff_ffff,
                    scale_trunc(SAMPLE_PEAK as int, cg as int, GAIN_UNIT as int) == (
                    SAMPLE_PEAK as int * cg as int) / (GAIN_UNIT as int),
            ;
        }
        let prev = buf[s];
        buf[s] = prev + term;
        s = s + 1;
    }
    (cg, rem)
}

/// A vector holding `n` copies of one value.
fn filled_u32(n: usize, x: u32) -> (r: Vec<u32>)
    ensures
        r@.len() == n,
        forall|i: int| 0 <= i < n ==> r@[i] == x,
{
    let mut v: Vec<u32> = Vec::new();
    let mut i: usize = 0;
    while i < n
        invariant
            i <= n,
            v@.len() == i,
            forall|j: int| 0 <= j < i ==> v@[j] == x,
        decreases n - i,
    {
        v.push(x);
        i = i + 1;
    }
    v
}

/// A vector holding `n` zero counters.
fn filled_u64(n: usize, x: u64) -> (r: Vec<u64>)
    ensures
        r@.len() == n,
        forall|i: int| 0 <= i < n ==> r@[i] == x,
{
    let mut v: Vec<u64> = Vec::new();
    let mut i: usize = 0;
    while i < n
        invariant
            i <= n,
            v@.len() == i,
            forall|j: int| 0 <= j < i ==> v@[j] == x,
        decreases n - i,
    {
        v.push(x);
        i = i + 1;
    }
    v
}

impl MixedSource {
    /// Builds the mix over already-opened track streams, all sought to the
    /// starting position, with every gain at unity and no ramp running.
    pub fn new(
        tracks: Vec<TrackStream>,
        out_sr: u32,
        out_ch: u16,
        block_frames: usize,
        start_frames: u64,
    ) -> (r: MixedSource)
        requires
            tracks@.len() <= MAX_TRACKS,
            forall|i: int|
                0 <= i < tracks@.len() ==> (#[trigger] tracks@[i]).wf() && tracks@[i].out_ch
                    == out_ch as usize && tracks@[i].out_sr == out_sr,
            1 <= out_ch <= 64,
            1 <= out_sr <= crate::track::MAX_RATE,
            block_frames <= MAX_BLOCK_FRAMES,
            start_frames <= MAX_POSITION_FRAMES,
        ensures
            r.wf(),
            r.out_ch == out_ch,
            r.out_sr == out_sr,
            r.block_frames == if block_frames >= 64 {
                block_frames
            } else {
                64
            },
            r.tracks@.len() == tracks@.len(),
            forall|i: int|
                0 <= i < tracks@.len() ==> skipped_to(
                    tracks@[i],
                    #[trigger] r.tracks@[i],
                    start_frames as int,
                ),
            r.finished == false,
            r.buf@.len() == 0,
            r.buf_pos == 0,
            forall|i: int| 0 <= i < tracks@.len() ==> #[trigger] r.curr_gain@[i] == GAIN_UNIT,
            forall|i: int| 0 <= i < tracks@.len() ==> #[trigger] r.target_gain@[i] == GAIN_UNIT,
            forall|i: int| 0 <= i < tracks@.len() ==> #[trigger] r.ramp_remaining@[i] == 0u64,
            forall|i: int| 0 <= i < tracks@.len() ==> #[trigger] r.last_gen@[i] == 0u64,
    {
        let ghost tracks0 = tracks@;
        let mut tracks = tracks;
        let n = tracks.len();
        let mut i: usize = 0;
        while i < n
            invariant
                i <= n,
                n == tracks@.len(),
                n == tracks0.len(),
                start_frames <= MAX_POSITION_FRAMES,
                forall|j: int|
                    0 <= j < n ==> (#[trigger] tracks0[j]).wf() && tracks0[j].out_ch
                        == out_ch as usize && tracks0[j].out_sr == out_sr,
                forall|j: int| i <= j < n ==> tracks@[j] == tracks0[j],
                forall|j: int|
                    0 <= j < i ==> skipped_to(tracks0[j], #[trigger] tracks@[j], start_frames as int),
            decreases n - i,
        {
            let ghost before = tracks@;
            let mut tr = tracks.remove(i);
            proof {
                assert(tr == tracks0[i as int]);
                assert(tracks0[i as int].wf());
            }
            tr.skip_to_frame(start_frames);
            tracks.insert(i, tr);
            proof {
                assert(tracks@ =~= before.update(i as int, tracks@[i as int]));
            }
            i = i + 1;
        }
        let bf = if block_frames >= 64 {
            block_frames
        } else {
            64
        };
        MixedSource {
            tracks,
            out_ch,
            out_sr,
            block_frames: bf,
            buf: Vec::new(),
            buf_pos: 0,
            finished: false,
            curr_gain: filled_u32(n, GAIN_UNIT),
            target_gain: filled_u32(n, GAIN_UNIT),
            ramp_remaining: filled_u64(n, 0),
            last_gen: filled_u64(n, 0),
        }
    }

    /// Adopts fresh gain commands from the shared table: an entry whose
    /// generation or target differs from what the mixer last saw starts a
    /// new ramp toward the published target.
    fn update_gains_from_shared(&mut self, shared: &Vec<GainCmd>)
        requires
            old(self).wf(),
        ensures
            final(self).wf(),
            final(self).tracks == old(self).tracks,
            final(self).out_ch == old(self).out_ch,
            final(self).out_sr == old(self).out_sr,
            final(self).block_frames == old(self).block_frames,
            final(self).buf == old(self).buf,
            final(self).buf_pos == old(self).buf_pos,
            final(self).finished == old(self).finished,
            final(self).curr_gain == old(self).curr_gain,
            final(self).target_gain@.len() == old(self).target_gain@.len(),
            final(self).ramp_remaining@.len() == old(self).ramp_remaining@.len(),
            final(self).last_gen@.len() == old(self).last_gen@.len(),
            forall|i: int|
                0 <= i < old(self).tracks@.len() ==> #[trigger] final(self).target_gain@[i] == old(
                    self,
                ).new_target(shared@, i),
            forall|i: int|
                0 <= i < old(self).tracks@.len() ==> #[trigger] final(self).ramp_remaining@[i]
                    == old(self).new_rem(shared@, i),
            forall|i: int|
                0 <= i < old(self).tracks@.len() ==> #[trigger] final(self).last_gen@[i] == old(
                    self,
                ).new_gen(shared@, i),
    {
        let n = if self.tracks.len() < shared.len() {
            self.tracks.len()
        } else {
            shared.len()
        };
        let mut i: usize = 0;
        while i < n
            invariant
                i <= n,
                n <= shared@.len(),
                n <= old(self).tracks@.len(),
                n == if old(self).tracks@.len() < shared@.len() {
                    old(self).tracks@.len() as int
                } else {
                    shared@.len() as int
                },
                self.tracks == old(self).tracks,
                self.out_ch == old(self).out_ch,
                self.out_sr == old(self).out_sr,
                self.block_frames == old(self).block_frames,
                self.buf == old(self).buf,
                self.buf_pos == old(self).buf_pos,
                self.finished == old(self).finished,
                self.curr_gain == old(self).curr_gain,
                self.target_gain@.len() == old(self).target_gain@.len(),
                self.ramp_remaining@.len() == old(self).ramp_remaining@.len(),
                self.last_gen@.len() == old(self).last_gen@.len(),
                old(self).wf(),
                forall|j: int|
                    0 <= j < i ==> #[trigger] self.target_gain@[j] == old(self).new_target(
                        shared@,
                        j,
                    ),
                forall|j: int|
                    0 <= j < i ==> #[trigger] self.ramp_remaining@[j] == old(self).new_rem(
                        shared@,
                        j,
                    ),
                forall|j: int|
                    0 <= j < i ==> #[trigger] self.last_gen@[j] == old(self).new_gen(shared@, j),
                forall|j: int|
                    i <= j < old(self).tracks@.len() ==> #[trigger] self.target_gain@[j] == old(
                        self,
                    ).target_gain@[j],
                forall|j: int|
                    i <= j < old(self).tracks@.len() ==> #[trigger] self.ramp_remaining@[j] == old(
                        self,
                    ).ramp_remaining@[j],
                forall|j: int|
                    i <= j < old(self).tracks@.len() ==> #[trigger] self.last_gen@[j] == old(
                        self,
                    ).last_gen@[j],
            decreases n - i,
        {
            let gc = shared[i];
            if gc.generation != self.last_gen[i] || self.target_gain[i] != gc.target_milli {
                self.target_gain[i] = gc.target_milli;
                self.ramp_remaining[i] = gc.ramp_frames;
                self.last_gen[i] = gc.generation;
            }
            i = i + 1;
        }
    }
}

impl MixedSource {
    /// Mixes one block: adopts pending gain commands, renders every track,
    /// applies its ramped gain sample by sample, sums, applies the headroom
    /// factor, and rewinds the read cursor. Once every track has gone quiet
    /// the source is finished and the buffer is emptied.
    pub fn fill_block(&mut self, shared: &Vec<GainCmd>)
        requires
            old(self).wf(),
        ensures
            final(self).wf(),
            fills(*old(self), *final(self), shared@),
            final(self).buf_pos == 0,
    {
        let ghost pre = *old(self);
        self.update_gains_from_shared(shared);
        proof {
            assert(self.block_frames as int * self.out_ch as int <= 0x10_0000 * 64)
                by (nonlinear_arith)
                requires
                    self.block_frames as int <= 0x10_0000,
                    0 <= self.out_ch as int <= 64,
            ;
        }
        let needed: usize = self.block_frames * (self.out_ch as usize);
        let ghost n_g = pre.tracks@.len() as int;
        let ghost tracks0 = pre.tracks@;
        let ghost och = pre.out_ch as int;
        let ghost bf = pre.block_frames as int;
        let ghost tg_new = Seq::new(n_g as nat, |j: int| pre.new_target(shared@, j));
        let ghost rem_new = Seq::new(n_g as nat, |j: int| pre.new_rem(shared@, j));
        let mut buf = zero_buf(needed);
        let mut any_live: bool = false;
        let n = self.tracks.len();
        let mut i: usize = 0;
        while i < n
            invariant
                i <= n,
                n == self.tracks@.len(),
                n == n_g,
                n <= MAX_TRACKS,
                self.wf(),
                self.out_ch == pre.out_ch,
                self.out_sr == pre.out_sr,
                self.block_frames == pre.block_frames,
                self.finished == pre.finished,
                och == pre.out_ch as int,
                bf == pre.block_frames as int,
                1 <= och <= 64,
                64 <= bf <= 0x10_0000,
                needed as int == bf * och,
                needed <= 0x400_0000,
                buf@.len() == needed,
                tracks0 == pre.tracks@,
                pre.wf(),
                tg_new.len() == n_g,
                rem_new.len() == n_g,
                forall|j: int| 0 <= j < n_g ==> tg_new[j] == pre.new_target(shared@, j),
                forall|j: int| 0 <= j < n_g ==> rem_new[j] == pre.new_rem(shared@, j),
                forall|j: int|
                    0 <= j < n_g ==> #[trigger] self.target_gain@[j] == pre.new_target(shared@, j),
                forall|j: int|
                    0 <= j < n_g ==> #[trigger] self.last_gen@[j] == pre.new_gen(shared@, j),
                forall|j: int|
                    i <= j < n_g ==> #[trigger] self.ramp_remaining@[j] == pre.new_rem(shared@, j),
                forall|j: int|
                    0 <= j < i ==> #[trigger] self.ramp_remaining@[j] as int == ramp_rem_after(
                        pre.new_rem(shared@, j) as int,
                        needed as int,
                    ),
                forall|j: int|
                    i <= j < n_g ==> #[trigger] self.curr_gain@[j] == pre.curr_gain@[j],
                forall|j: int|
                    0 <= j < i ==> #[trigger] self.curr_gain@[j] as int == ramp_after(
                        pre.curr_gain@[j] as int,
                        pre.new_target(shared@, j) as int,
                        pre.new_rem(shared@, j) as int,
                        needed as int,
                    ),
                forall|j: int| i <= j < n_g ==> self.tracks@[j] == tracks0[j],
                forall|j: int|
                    0 <= j < i ==> rendered_from(tracks0[j], #[trigger] self.tracks@[j], bf),
                forall|s: int|
                    0 <= s < needed ==> #[trigger] buf@[s] == mix_sum(
                        tracks0,
                        pre.curr_gain@,
                        tg_new,
                        rem_new,
                        och,
                        s,
                        i as int,
                    ),
                forall|s: int|
                    0 <= s < needed ==> -(i as int) * TERM_PEAK <= #[trigger] buf@[s] <= (i as int)
                        * TERM_PEAK,
                any_live == (exists|j: int|
                    0 <= j < i && track_live(tracks0[j], #[trigger] self.tracks@[j], bf, och)),
            decreases n - i,
        {
            let ghost before = self.tracks@;
            let mut tr = self.tracks.remove(i);
            proof {
                assert(tr == tracks0[i as int]);
                assert(tracks0[i as int].wf());
                assert(tr.out_ch as int == och);
            }
            let mut scratch = zero_buf(needed);
            let act = tr.render_block(&mut scratch, self.block_frames);
            proof {
                assert forall|s: int| 0 <= s < needed implies scratch@[s] == track_out(
                    tracks0[i as int],
                    och,
                    s,
                ) by {
                    vstd::arithmetic::div_mod::lemma_fundamental_div_mod(s, och);
                    vstd::arithmetic::div_mod::lemma_mod_bound(s, och);
                    let ff = s / och;
                    let cc = s % och;
                    assert(0 <= ff && ff < bf) by (nonlinear_arith)
                        requires
                            s == och * ff + cc,
                            0 <= cc < och,
                            0 <= s,
                            s < bf * och,
                            och >= 1,
                    ;
                    assert(scratch@[ff * och + cc] == 0 + track_sample(
                        tracks0[i as int].input@,
                        tracks0[i as int].in_ch as int,
                        tracks0[i as int].in_sr as int,
                        tracks0[i as int].out_sr as int,
                        och,
                        tracks0[i as int].vbase@,
                        tracks0[i as int].phase_num as int,
                        ff,
                        cc,
                    ));
                    assert(ff * och + cc == s);
                }
                assert forall|s: int| 0 <= s < needed implies -SAMPLE_PEAK <= #[trigger] scratch@[s]
                    <= SAMPLE_PEAK by {
                    assert(scratch@[s] <= 0 + SAMPLE_PEAK && scratch@[s] >= 0 - SAMPLE_PEAK);
                }
                assert forall|s: int| 0 <= s < needed implies -0x4000_0000_0000_0000
                    <= #[trigger] buf@[s] <= 0x4000_0000_0000_0000 by {
                    assert((i as int) * TERM_PEAK <= 4096 * TERM_PEAK) by (nonlinear_arith)
                        requires
                            0 <= i as int <= 4096,
                            TERM_PEAK > 0,
                    ;
                }
            }
            let cg_i = self.curr_gain[i];
            let tg_i = self.target_gain[i];
            let rem_i = self.ramp_remaining[i];
            let stepped = mix_track_into(&mut buf, &scratch, cg_i, tg_i, rem_i);
            self.curr_gain[i] = stepped.0;
            self.ramp_remaining[i] = stepped.1;
            self.tracks.insert(i, tr);
            proof {
                assert(self.tracks@ =~= before.update(i as int, tr));
                assert forall|s: int| 0 <= s < needed implies #[trigger] buf@[s] == mix_sum(
                    tracks0,
                    pre.curr_gain@,
                    tg_new,
                    rem_new,
                    och,
                    s,
                    i as int + 1,
                ) by {
                    assert(mix_sum(tracks0, pre.curr_gain@, tg_new, rem_new, och, s, i as int + 1)
                        == mix_sum(tracks0, pre.curr_gain@, tg_new, rem_new, och, s, i as int)
                        + scale_trunc(
                        track_out(tracks0[i as int], och, s),
                        ramp_after(
                            pre.curr_gain@[i as int] as int,
                            tg_new[i as int] as int,
                            rem_new[i as int] as int,
                            s + 1,
                        ),
                        GAIN_UNIT as int,
                    ));
                }
                assert forall|s: int| 0 <= s < needed implies -(i as int + 1) * TERM_PEAK
                    <= #[trigger] buf@[s] <= (i as int + 1) * TERM_PEAK by {
                    assert((i as int + 1) * TERM_PEAK == (i as int) * TERM_PEAK + TERM_PEAK)
                        by (nonlinear_arith);
                }
            }
            let ghost was_live = any_live;
            if act {
                any_live = true;
            }
            let ghost iprev = i as int;
            i = i + 1;
            proof {
                assert(any_live == (exists|j: int|
                    0 <= j < i as int && track_live(
                        tracks0[j],
                        #[trigger] self.tracks@[j],
                        bf,
                        och,
                    ))) by {
                    if any_live {
                        if was_live {
                            let wj: int = choose|wj: int|
                                0 <= wj < iprev && track_live(
                                    tracks0[wj],
                                    #[trigger] before[wj],
                                    bf,
                                    och,
                                );
                            assert(self.tracks@[wj] == before[wj]);
                            assert(track_live(tracks0[wj], self.tracks@[wj], bf, och));
                        } else {
                            assert(track_live(tracks0[iprev], self.tracks@[iprev], bf, och));
                        }
                    } else {
                        assert forall|j: int|
                            0 <= j < i as int implies !track_live(
                            tracks0[j],
                            #[trigger] self.tracks@[j],
                            bf,
                            och,
                        ) by {
                            if j < iprev {
                                assert(self.tracks@[j] == before[j]);
                            } else {
                                assert(!act);
                            }
                        }
                    }
                }
            }
        }
        proof {
            assert forall|s: int| 0 <= s < needed implies -0x80_0000_0000_0000 <= #[trigger] buf@[s]
                <= 0x80_0000_0000_0000 by {
                assert((n as int) * TERM_PEAK <= 4096 * TERM_PEAK) by (nonlinear_arith)
                    requires
                        0 <= n as int <= 4096,
                        TERM_PEAK > 0,
                ;
            }
        }
        apply_headroom(&mut buf);
        self.buf = buf;
        self.buf_pos = 0;
        if any_live {
            self.finished = false;
        } else {
            self.finished = true;
            self.buf = Vec::new();
        }
    }

    /// Hands out the next mixed sample, refilling the block buffer when it
    /// runs dry, or `None` once every track has gone quiet.
    pub fn next(&mut self, shared: &Vec<GainCmd>) -> (r: Option<i64>)
        requires
            old(self).wf(),
        ensures
            final(self).wf(),
            old(self).finished ==> (r is None && *final(self) == *old(self)),
            (!old(self).finished && old(self).buf_pos < old(self).buf@.len()) ==> (r == Some(
                old(self).buf@[old(self).buf_pos as int],
            ) && *final(self) == (MixedSource {
                buf_pos: (old(self).buf_pos + 1) as usize,
                ..*old(self)
            })),
            (!old(self).finished && old(self).buf_pos >= old(self).buf@.len()) ==> (fills(
                *old(self),
                *final(self),
                shared@,
            ) && (final(self).finished ==> r is None) && (!final(self).finished ==> (final(
                self).buf_pos == 1 && r == Some(final(self).buf@[0])))),
    {
        if self.finished {
            return None;
        }
        if self.buf_pos >= self.buf.len() {
            self.fill_block(shared);
            if self.finished {
                return None;
            }
            proof {
                assert(self.buf@.len() == self.block_frames as int * self.out_ch as int);
                assert(self.block_frames as int * self.out_ch as int >= 64) by (nonlinear_arith)
                    requires
                        self.block_frames as int >= 64,
                        self.out_ch as int >= 1,
                ;
            }
        }
        let v = self.buf[self.buf_pos];
        self.buf_pos = self.buf_pos + 1;
        Some(v)
    }
}

/// Scales every sample of the mixed block by the headroom factor.
fn apply_headroom(buf: &mut Vec<i64>)
    requires
        forall|s: int|
            0 <= s < old(buf)@.len() ==> -0x80_0000_0000_0000 <= #[trigger] old(buf)@[s]
                <= 0x80_0000_0000_0000,
    ensures
        final(buf)@.len() == old(buf)@.len(),
        forall|s: int|
            0 <= s < old(buf)@.len() ==> #[trigger] final(buf)@[s] == scale_trunc(
                old(buf)@[s] as int,
                HEADROOM_NUM as int,
                HEADROOM_DEN as int,
            ),
{
    let n = buf.len();
    let mut s: usize = 0;
    while s < n
        invariant
            n == buf@.len(),
            s <= n,
            forall|j: int|
                0 <= j < s ==> #[trigger] buf@[j] == scale_trunc(
                    old(buf)@[j] as int,
                    HEADROOM_NUM as int,
                    HEADROOM_DEN as int,
                ),
            forall|j: int| s <= j < n ==> buf@[j] == old(buf)@[j],
            forall|j: int|
                0 <= j < n ==> -0x80_0000_0000_0000 <= #[trigger] old(buf)@[j]
                    <= 0x80_0000_0000_0000,
        decreases n - s,
    {
        let x = buf[s];
        proof {
            assert(abs_of(x as int) * (HEADROOM_NUM as int) <= 4 * 0x80_0000_0000_0000)
                by (nonlinear_arith)
                requires
                    abs_of(x as int) <= 0x80_0000_0000_0000,
                    HEADROOM_NUM as int == 4,
            ;
        }
        let y = scale_trunc_i64(x, HEADROOM_NUM, HEADROOM_DEN);
        buf[s] = y;
        s = s + 1;
    }
}

} // verus!
