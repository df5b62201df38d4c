//! One track's streaming view: a decoded, interleaved input signal turned
//! into an endless output-rate, output-channel-count sample stream by an
//! incremental linear resampler.
//!
//! The resampler keeps an integer phase: `phase_num / out_sr` is the
//! fractional position between the two input frames of the interpolation
//! window, so every step of the resampler is exact integer arithmetic.

use vstd::prelude::*;

use crate::fixed::{abs_of, scale_trunc, scale_trunc_i64, SAMPLE_PEAK};

verus! {

/// Most channels a stream may carry.
pub const MAX_CHANNELS: usize = 64;

/// Highest sample rate a stream may carry.
pub const MAX_RATE: u32 = 400000;

/// Longest input signal a track may hold, in samples.
pub const MAX_INPUT_LEN: usize = 0x4000_0000;

/// Largest playback position, in output frames, a seek may name.
pub const MAX_POSITION_FRAMES: u64 = 0x800_0000_0000;

/// The sample values of a buffer, as mathematical integers.
pub open spec fn vals(s: Seq<i32>) -> Seq<int> {
    s.map_values(|v: i32| v as int)
}

/// Every sample of the buffer lies within the fixed-point peak.
pub open spec fn samples_bounded(s: Seq<i32>) -> bool {
    forall|i: int| 0 <= i < s.len() ==> -SAMPLE_PEAK <= #[trigger] s[i] <= SAMPLE_PEAK
}

/// The `k`-th input frame of an interleaved signal: one value per channel,
/// zero for anything before the signal or past its end.
pub open spec fn frame_at(input: Seq<i32>, ch: int, k: int) -> Seq<int> {
    Seq::new(
        ch as nat,
        |c: int|
            if k >= 0 && k * ch + c < input.len() {
                input[k * ch + c] as int
            } else {
                0
            },
    )
}

/// Linear interpolation between `a` and `b` at blend `alpha / den`, with the
/// scaled difference truncated toward zero.
pub open spec fn interp_val(a: int, b: int, alpha: int, den: int) -> int {
    a + scale_trunc(b - a, alpha, den)
}

/// Sum of the interpolated values of the first `k` channels.
pub open spec fn interp_sum(lastf: Seq<int>, nextf: Seq<int>, alpha: int, den: int, k: int) -> int
    decreases k,
{
    if k <= 0 {
        0
    } else {
        interp_sum(lastf, nextf, alpha, den, k - 1) + interp_val(
            lastf[k - 1],
            nextf[k - 1],
            alpha,
            den,
        )
    }
}

/// What one output channel receives from the interpolation window: stereo
/// input keeps left and right (duplicated in turn onto further channels);
/// anything else is averaged to mono and copied to every channel.
pub open spec fn chan_val(
    lastf: Seq<int>,
    nextf: Seq<int>,
    alpha: int,
    den: int,
    in_ch: int,
    out_ch: int,
    c: int,
) -> int {
    if in_ch == 2 && out_ch >= 2 {
        if c % 2 == 0 {
            interp_val(lastf[0], nextf[0], alpha, den)
        } else {
            interp_val(lastf[1], nextf[1], alpha, den)
        }
    } else {
        scale_trunc(interp_sum(lastf, nextf, alpha, den, in_ch), 1, in_ch)
    }
}

/// The sample a track contributes to output frame `f`, channel `c`, when its
/// window base is `vb0` and its phase numerator is `ph0`: the resampler's
/// closed form. Frame `f` looks at input position `vb0 - 2 + (ph0 + f*in_sr)
/// / out_sr` and blends with the remainder.
pub open spec fn track_sample(
    input: Seq<i32>,
    in_ch: int,
    in_sr: int,
    out_sr: int,
    out_ch: int,
    vb0: int,
    ph0: int,
    f: int,
    c: int,
) -> int {
    let t = ph0 + f * in_sr;
    let vb = vb0 + t / out_sr;
    chan_val(
        frame_at(input, in_ch, vb - 2),
        frame_at(input, in_ch, vb - 1),
        t % out_sr,
        out_sr,
        in_ch,
        out_ch,
        c,
    )
}

/// A decoded track being replayed at the device's rate and channel count.
pub struct TrackStream {
    /// The decoded interleaved input samples.
    pub input: Vec<i32>,
    /// Next input sample to hand out.
    pub read_pos: usize,
    /// How many input frames have been taken from the cursor; stops counting
    /// once the window can only ever hold silence.
    pub frames_read: u64,
    /// Input channel count.
    pub in_ch: usize,
    /// Input sample rate.
    pub in_sr: u32,
    /// Output channel count.
    pub out_ch: usize,
    /// Output sample rate.
    pub out_sr: u32,
    /// Phase numerator: the window sits `phase_num / out_sr` of an output
    /// frame past `last`.
    pub phase_num: u64,
    /// Earlier frame of the interpolation window.
    pub last: Vec<i32>,
    /// Later frame of the interpolation window.
    pub next: Vec<i32>,
    /// Whether the input signal has been read to its end.
    pub at_end: bool,
    /// The window's position in the (endless, zero-extended) input signal:
    /// `last` is frame `vbase - 2`, `next` is frame `vbase - 1`.
    pub vbase: Ghost<int>,
}

impl TrackStream {
    /// Past this count the cursor only ever yields silence, so the frame
    /// counter freezes there.
    pub open spec fn frozen_at(self, fr: int) -> bool {
        (fr - 2) * (self.in_ch as int) >= self.input@.len()
    }

    /// The cursor-side invariant: field ranges and how `read_pos`, `at_end`,
    /// `frames_read` and the window position relate to the input.
    pub open spec fn base_wf(self) -> bool {
        &&& 1 <= self.in_ch <= MAX_CHANNELS
        &&& 1 <= self.out_ch <= MAX_CHANNELS
        &&& 1 <= self.in_sr <= MAX_RATE
        &&& 1 <= self.out_sr <= MAX_RATE
        &&& self.input@.len() <= MAX_INPUT_LEN
        &&& samples_bounded(self.input@)
        &&& self.frames_read as int <= self.input@.len() + 3
        &&& self.read_pos as int == vstd::math::min(
            self.frames_read as int * self.in_ch as int,
            self.input@.len() as int,
        )
        &&& (self.at_end <==> self.frames_read as int * self.in_ch as int > self.input@.len())
        &&& self.vbase@ >= self.frames_read as int
        &&& (self.vbase@ == self.frames_read as int || self.frozen_at(self.frames_read as int))
    }

    /// The full invariant: the cursor side, a normalized phase, and the
    /// window holding the two frames bracketing the current position.
    pub open spec fn wf(self) -> bool {
        &&& self.base_wf()
        &&& self.vbase@ >= 2
        &&& (self.phase_num as int) < (self.out_sr as int)
        &&& self.last@.len() == self.in_ch
        &&& self.next@.len() == self.in_ch
        &&& vals(self.last@) =~= frame_at(self.input@, self.in_ch as int, self.vbase@ - 2)
        &&& vals(self.next@) =~= frame_at(self.input@, self.in_ch as int, self.vbase@ - 1)
    }
}

/// A frame of silence.
fn zero_frame(n: usize) -> (r: Vec<i32>)
    ensures
        r@.len() == n,
        forall|i: int| 0 <= i < n ==> r@[i] == 0i32,
{
    let mut v: Vec<i32> = Vec::new();
    let mut i: usize = 0;
    while i < n
        invariant
            i <= n,
            v@.len() == i,
            forall|j: int| 0 <= j < i ==> v@[j] == 0i32,
        decreases n - i,
    {
        v.push(0);
        i = i + 1;
    }
    v
}

/// Every channel of an input frame stays within the sample peak.
proof fn lemma_frame_at_bounded(input: Seq<i32>, ch: int, k: int)
    requires
        samples_bounded(input),
        ch >= 1,
    ensures
        forall|c: int|
            0 <= c < ch ==> -SAMPLE_PEAK <= #[trigger] frame_at(input, ch, k)[c] <= SAMPLE_PEAK,
{
}

impl TrackStream {
    /// Takes the next frame from the cursor: the real samples while they
    /// last, zero-filled past the end of the signal, and silence forever
    /// after. The window position advances by one either way.
    fn read_frame(&mut self) -> (frame: Vec<i32>)
        requires
            old(self).base_wf(),
        ensures
            final(self).base_wf(),
            final(self).input == old(self).input,
            final(self).in_ch == old(self).in_ch,
            final(self).in_sr == old(self).in_sr,
            final(self).out_ch == old(self).out_ch,
            final(self).out_sr == old(self).out_sr,
            final(self).phase_num == old(self).phase_num,
            final(self).last == old(self).last,
            final(self).next == old(self).next,
            final(self).vbase@ == old(self).vbase@ + 1,
            frame@.len() == final(self).in_ch,
            vals(frame@) =~= frame_at(final(self).input@, final(self).in_ch as int, old(self).vbase@),
    {
        let ghost vb0 = self.vbase@;
        let ghost fr0 = self.frames_read as int;
        let ghost chi = self.in_ch as int;
        let ghost len = self.input@.len() as int;
        let mut frame = zero_frame(self.in_ch);
        if !self.at_end {
            proof {
                // not at the end, so the counter still tracks the window
                assert((fr0 - 2) * chi < len) by (nonlinear_arith)
                    requires
                        fr0 * chi <= len,
                        chi >= 1,
                        fr0 >= 0,
                ;
                assert(!old(self).frozen_at(fr0));
                assert(vb0 == fr0);
                assert(self.read_pos as int == fr0 * chi);
            }
            let mut c: usize = 0;
            while c < self.in_ch && self.read_pos < self.input.len()
                invariant
                    0 <= c <= self.in_ch,
                    fr0 == self.frames_read as int,
                    chi == self.in_ch as int,
                    len == self.input@.len() as int,
                    fr0 >= 0,
                    self.in_ch == old(self).in_ch,
                    self.input == old(self).input,
                    self.in_sr == old(self).in_sr,
                    self.out_sr == old(self).out_sr,
                    self.out_ch == old(self).out_ch,
                    self.phase_num == old(self).phase_num,
                    self.last == old(self).last,
                    self.next == old(self).next,
                    self.at_end == old(self).at_end,
                    self.frames_read == old(self).frames_read,
                    self.vbase == old(self).vbase,
                    frame@.len() == self.in_ch,
                    self.read_pos as int == fr0 * chi + c,
                    self.read_pos <= self.input.len(),
                    forall|j: int| c <= j < frame@.len() ==> frame@[j] == 0i32,
                    forall|j: int|
                        0 <= j < c ==> frame@[j] as int == frame_at(self.input@, chi, fr0)[j],
                decreases self.in_ch - c,
            {
                proof {
                    assert(fr0 * chi + c < len);
                    assert(0 <= fr0 * chi + c) by (nonlinear_arith)
                        requires
                            fr0 >= 0,
                            chi >= 1,
                            c >= 0,
                    ;
                }
                let s = self.input[self.read_pos];
                frame[c] = s;
                self.read_pos = self.read_pos + 1;
                c = c + 1;
            }
            if c < self.in_ch {
                self.at_end = true;
                proof {
                    assert(self.read_pos as int == len);
                }
            }
            self.frames_read = self.frames_read + 1;
            proof {
                assert((fr0 + 1) * chi == fr0 * chi + chi) by (nonlinear_arith);
                assert(fr0 <= fr0 * chi) by (nonlinear_arith)
                    requires
                        chi >= 1,
                        fr0 >= 0,
                ;
                if c == self.in_ch {
                    assert(self.read_pos as int == fr0 * chi + chi);
                    assert(self.read_pos as int <= len);
                } else {
                    assert(self.read_pos as int == len);
                    assert(fr0 * chi + chi > len);
                }
                assert(forall|j: int|
                    0 <= j < chi ==> frame@[j] as int == frame_at(self.input@, chi, fr0)[j]);
            }
        } else {
            // silence; the counter advances only while the window could
            // still see real samples
            let frozen: bool = if self.frames_read >= 2 {
                let fr_m2: u64 = self.frames_read - 2;
                proof {
                    assert(fr_m2 as int * (self.in_ch as int) <= (len + 1) * 64)
                        by (nonlinear_arith)
                        requires
                            0 <= fr_m2 as int <= len + 1,
                            1 <= self.in_ch as int <= 64,
                    ;
                }
                (fr_m2 as u128) * (self.in_ch as u128) >= self.input.len() as u128
            } else {
                false
            };
            proof {
                if fr0 < 2 {
                    assert((fr0 - 2) * chi < 0) by (nonlinear_arith)
                        requires
                            fr0 - 2 < 0,
                            chi >= 1,
                    ;
                }
                assert(frozen == old(self).frozen_at(fr0));
            }
            if !frozen {
                proof {
                    if fr0 >= 2 {
                        assert((fr0 - 2) * chi < len);
                        assert(fr0 - 2 <= (fr0 - 2) * chi) by (nonlinear_arith)
                            requires
                                chi >= 1,
                                fr0 - 2 >= 0,
                        ;
                    }
                    assert((fr0 + 1) * chi >= fr0 * chi) by (nonlinear_arith)
                        requires
                            chi >= 1,
                            fr0 >= 0,
                    ;
                    assert(fr0 * chi > len);
                    assert(vstd::math::min((fr0 + 1) * chi, len) == len);
                }
                self.frames_read = self.frames_read + 1;
            }
            proof {
                // past the end every frame is silence
                assert(vb0 * chi >= fr0 * chi) by (nonlinear_arith)
                    requires
                        vb0 >= fr0,
                        chi >= 1,
                ;
                assert(vb0 * chi > len);
            }
        }
        self.vbase = Ghost(vb0 + 1);
        frame
    }

    /// The invariant between normalization steps, when the phase may still
    /// sit one output frame or more past the window.
    pub open spec fn window_wf(self) -> bool {
        &&& self.base_wf()
        &&& self.vbase@ >= 2
        &&& self.last@.len() == self.in_ch
        &&& self.next@.len() == self.in_ch
        &&& vals(self.last@) =~= frame_at(self.input@, self.in_ch as int, self.vbase@ - 2)
        &&& vals(self.next@) =~= frame_at(self.input@, self.in_ch as int, self.vbase@ - 1)
    }

    /// Slides the interpolation window one input frame forward and takes one
    /// output frame's worth off the phase.
    fn shift_window(&mut self)
        requires
            old(self).window_wf(),
            old(self).phase_num >= old(self).out_sr as u64,
        ensures
            final(self).window_wf(),
            final(self).input == old(self).input,
            final(self).in_ch == old(self).in_ch,
            final(self).in_sr == old(self).in_sr,
            final(self).out_ch == old(self).out_ch,
            final(self).out_sr == old(self).out_sr,
            final(self).vbase@ == old(self).vbase@ + 1,
            final(self).phase_num == old(self).phase_num - old(self).out_sr as u64,
    {
        let mut nf = self.read_frame();
        core::mem::swap(&mut self.next, &mut nf);
        self.last = nf;
        self.phase_num = self.phase_num - self.out_sr as u64;
    }

    /// Opens a stream over a decoded interleaved signal and fills the
    /// interpolation window with its first two frames.
    pub fn new(input: Vec<i32>, in_ch: usize, in_sr: u32, out_ch: usize, out_sr: u32) -> (r:
        TrackStream)
        requires
            1 <= in_ch <= MAX_CHANNELS,
            1 <= out_ch <= MAX_CHANNELS,
            1 <= in_sr <= MAX_RATE,
            1 <= out_sr <= MAX_RATE,
            input@.len() <= MAX_INPUT_LEN,
            samples_bounded(input@),
        ensures
            r.wf(),
            r.input@ == input@,
            r.in_ch == in_ch,
            r.in_sr == in_sr,
            r.out_ch == out_ch,
            r.out_sr == out_sr,
            r.phase_num == 0,
            r.vbase@ == 2,
    {
        let mut me = TrackStream {
            input,
            read_pos: 0,
            frames_read: 0,
            in_ch,
            in_sr,
            out_ch,
            out_sr,
            phase_num: 0,
            last: Vec::new(),
            next: Vec::new(),
            at_end: false,
            vbase: Ghost(0int),
        };
        proof {
            assert(0int * (in_ch as int) == 0) by (nonlinear_arith);
            assert(me.base_wf());
        }
        let f0 = me.read_frame();
        me.last = f0;
        let f1 = me.read_frame();
        me.next = f1;
        me
    }

    /// The interpolated value of one input channel at the current phase.
    fn interp_at(&self, c: usize) -> (r: i64)
        requires
            self.wf(),
            c < self.in_ch,
        ensures
            r == interp_val(
                frame_at(self.input@, self.in_ch as int, self.vbase@ - 2)[c as int],
                frame_at(self.input@, self.in_ch as int, self.vbase@ - 1)[c as int],
                self.phase_num as int,
                self.out_sr as int,
            ),
            -SAMPLE_PEAK <= r <= SAMPLE_PEAK,
    {
        let a: i64 = self.last[c] as i64;
        let b: i64 = self.next[c] as i64;
        proof {
            lemma_frame_at_bounded(self.input@, self.in_ch as int, self.vbase@ - 2);
            lemma_frame_at_bounded(self.input@, self.in_ch as int, self.vbase@ - 1);
            assert(a == vals(self.last@)[c as int]);
            assert(b == vals(self.next@)[c as int]);
        }
        proof {
            assert(abs_of(b - a) * (self.phase_num as int) <= 0x4000_0000_0000_0000)
                by (nonlinear_arith)
                requires
                    abs_of(b - a) <= 2 * SAMPLE_PEAK,
                    0 <= (self.phase_num as int) <= 400000,
            ;
        }
        let s = scale_trunc_i64(b - a, self.phase_num as u32, self.out_sr);
        proof {
            crate::fixed::lemma_scale_trunc_shrinks(
                b - a,
                self.phase_num as int,
                self.out_sr as int,
            );
        }
        a + s
    }

    /// The mono average all output channels receive when the input is not
    /// stereo-to-stereo.
    fn mono_at(&self) -> (r: i64)
        requires
            self.wf(),
            !(self.in_ch == 2 && self.out_ch >= 2),
        ensures
            r == chan_val(
                frame_at(self.input@, self.in_ch as int, self.vbase@ - 2),
                frame_at(self.input@, self.in_ch as int, self.vbase@ - 1),
                self.phase_num as int,
                self.out_sr as int,
                self.in_ch as int,
                self.out_ch as int,
                0,
            ),
            -SAMPLE_PEAK <= r <= SAMPLE_PEAK,
    {
        let ghost lastf = frame_at(self.input@, self.in_ch as int, self.vbase@ - 2);
        let ghost nextf = frame_at(self.input@, self.in_ch as int, self.vbase@ - 1);
        let ghost ph = self.phase_num as int;
        let ghost osr = self.out_sr as int;
        let mut sum: i64 = 0;
        let mut c: usize = 0;
        while c < self.in_ch
            invariant
                self.wf(),
                c <= self.in_ch,
                lastf == frame_at(self.input@, self.in_ch as int, self.vbase@ - 2),
                nextf == frame_at(self.input@, self.in_ch as int, self.vbase@ - 1),
                ph == self.phase_num as int,
                osr == self.out_sr as int,
                sum == interp_sum(lastf, nextf, ph, osr, c as int),
                -(c as int) * (SAMPLE_PEAK as int) <= sum as int <= (c as int) * (
                SAMPLE_PEAK as int),
            decreases self.in_ch - c,
        {
            let v = self.interp_at(c);
            proof {
                assert((c as int + 1) * (SAMPLE_PEAK as int) == (c as int) * (SAMPLE_PEAK as int)
                    + SAMPLE_PEAK) by (nonlinear_arith);
            }
            sum = sum + v;
            c = c + 1;
        }
        let r = scale_trunc_i64(sum, 1, self.in_ch as u32);
        proof {
            let ich = self.in_ch as int;
            let cap = ich * (SAMPLE_PEAK as int);
            crate::fixed::lemma_scale_trunc_bound(sum as int, 1, ich, cap);
            vstd::arithmetic::div_mod::lemma_div_multiples_vanish(SAMPLE_PEAK as int, ich);
            assert(cap * 1 == cap);
            assert(scale_trunc(cap, 1, ich) == SAMPLE_PEAK);
        }
        r
    }
}

/// Splitting an addition at a multiple of the divisor: adding `b` to a value
/// with remainder `a % m` carries exactly the quotients over.
proof fn lemma_div_mod_shift(a: int, b: int, m: int)
    requires
        a >= 0,
        b >= 0,
        m > 0,
    ensures
        (a % m + b) % m == (a + b) % m,
        a / m + (a % m + b) / m == (a + b) / m,
{
    vstd::arithmetic::div_mod::lemma_fundamental_div_mod(a, m);
    vstd::arithmetic::div_mod::lemma_mod_bound(a, m);
    let r = a % m;
    let q = a / m;
    vstd::arithmetic::div_mod::lemma_fundamental_div_mod(r + b, m);
    vstd::arithmetic::div_mod::lemma_mod_bound(r + b, m);
    let q2 = (r + b) / m;
    let r2 = (r + b) % m;
    assert(a + b == (q + q2) * m + r2) by (nonlinear_arith)
        requires
            a == m * q + r,
            r + b == m * q2 + r2,
    ;
    vstd::arithmetic::div_mod::lemma_fundamental_div_mod_converse(a + b, m, q + q2, r2);
}

impl TrackStream {
    /// Renders `frames` output frames, adding them onto `out` (interleaved),
    /// and advances the stream by exactly that much. Returns whether the
    /// track is still contributing: it produced a nonzero sample here, or
    /// its input has not yet run out.
    pub fn render_block(&mut self, out: &mut Vec<i64>, frames: usize) -> (active: bool)
        requires
            old(self).wf(),
            old(out)@.len() == frames * old(self).out_ch,
            frames <= 0x10_0000,
            forall|i: int|
                0 <= i < old(out)@.len() ==> -0x4000_0000_0000_0000 <= #[trigger] old(out)@[i]
                    <= 0x4000_0000_0000_0000,
        ensures
            final(self).wf(),
            final(self).input@ == old(self).input@,
            final(self).in_ch == old(self).in_ch,
            final(self).in_sr == old(self).in_sr,
            final(self).out_ch == old(self).out_ch,
            final(self).out_sr == old(self).out_sr,
            final(self).phase_num as int == (old(self).phase_num as int + frames * old(
                self,
            ).in_sr as int) % (old(self).out_sr as int),
            final(self).vbase@ == old(self).vbase@ + (old(self).phase_num as int + frames * old(
                self,
            ).in_sr as int) / (old(self).out_sr as int),
            final(out)@.len() == old(out)@.len(),
            forall|f: int, c: int|
                0 <= f < frames && 0 <= c < old(self).out_ch ==> final(out)@[f * old(self).out_ch as int + c] == old(out)@[f * old(self).out_ch as int + c]
                    + #[trigger] track_sample(
                    old(self).input@,
                    old(self).in_ch as int,
                    old(self).in_sr as int,
                    old(self).out_sr as int,
                    old(self).out_ch as int,
                    old(self).vbase@,
                    old(self).phase_num as int,
                    f,
                    c,
                ),
            forall|i: int|
                0 <= i < final(out)@.len() ==> old(out)@[i] - SAMPLE_PEAK <= #[trigger] final(out)@[i] <= old(out)@[i] + SAMPLE_PEAK,
            active == (block_has_signal(
                old(self).input@,
                old(self).in_ch as int,
                old(self).in_sr as int,
                old(self).out_sr as int,
                old(self).out_ch as int,
                old(self).vbase@,
                old(self).phase_num as int,
                frames as int,
            ) || !final(self).at_end),
    {
        let ghost inp = old(self).input@;
        let ghost ich = old(self).in_ch as int;
        let ghost isr = old(self).in_sr as int;
        let ghost osr = old(self).out_sr as int;
        let ghost och = old(self).out_ch as int;
        let ghost vb0 = old(self).vbase@;
        let ghost ph0 = old(self).phase_num as int;
        let mut any: bool = false;
        let mut f: usize = 0;
        let total_len: usize = out.len();
        proof {
            assert(out@.len() == total_len as int);
            vstd::arithmetic::div_mod::lemma_fundamental_div_mod_converse(ph0, osr, 0, ph0);
            assert(0int * isr == 0) by (nonlinear_arith);
        }
        while f < frames
            invariant
                self.wf(),
                self.input@ == inp,
                self.in_ch as int == ich,
                self.in_sr as int == isr,
                self.out_ch as int == och,
                self.out_sr as int == osr,
                0 <= f <= frames,
                frames <= 0x10_0000,
                ph0 >= 0,
                vb0 >= 2,
                self.vbase@ == vb0 + (ph0 + f as int * isr) / osr,
                self.phase_num as int == (ph0 + f as int * isr) % osr,
                out@.len() == frames * och,
                old(out)@.len() == frames * och,
                out@.len() <= usize::MAX as int,
                forall|ff: int, cc: int|
                    0 <= ff < f && 0 <= cc < och ==> out@[ff * och + cc] == old(out)@[ff * och
                        + cc] + #[trigger] track_sample(
                        inp,
                        ich,
                        isr,
                        osr,
                        och,
                        vb0,
                        ph0,
                        ff,
                        cc,
                    ),
                forall|i: int| f as int * och <= i < frames * och ==> out@[i] == old(out)@[i],
                forall|i: int|
                    0 <= i < out@.len() ==> old(out)@[i] - SAMPLE_PEAK <= #[trigger] out@[i] <= old(
                        out,
                    )@[i] + SAMPLE_PEAK,
                forall|i: int|
                    0 <= i < old(out)@.len() ==> -0x4000_0000_0000_0000 <= #[trigger] old(out)@[i]
                        <= 0x4000_0000_0000_0000,
                any == block_has_signal(inp, ich, isr, osr, och, vb0, ph0, f as int),
            decreases frames - f,
        {
            let ghost t = ph0 + f as int * isr;
            proof {
                assert((f as int + 1) * och == f as int * och + och) by (nonlinear_arith);
                assert((f as int + 1) * och <= frames as int * och) by (nonlinear_arith)
                    requires
                        f as int + 1 <= frames as int,
                        och >= 1,
                ;
                assert(f as int * och >= 0) by (nonlinear_arith)
                    requires
                        f as int >= 0,
                        och >= 0,
                ;
                vstd::arithmetic::div_mod::lemma_mod_bound(t, osr);
            }
            let idx0: usize = f * self.out_ch;
            proof {
                lemma_row_index_bound(f as int, och);
            }
            let ghost lastf = frame_at(inp, ich, self.vbase@ - 2);
            let ghost nextf = frame_at(inp, ich, self.vbase@ - 1);
            let ghost alpha = self.phase_num as int;
            proof {
                assert(forall|cc: int|
                    0 <= cc < och ==> #[trigger] track_sample(
                        inp,
                        ich,
                        isr,
                        osr,
                        och,
                        vb0,
                        ph0,
                        f as int,
                        cc,
                    ) == chan_val(lastf, nextf, alpha, osr, ich, och, cc));
            }
            if self.in_ch == 2 && self.out_ch >= 2 {
                let lv = self.interp_at(0);
                let rv = self.interp_at(1);
                let mut c: usize = 0;
                while c < self.out_ch
                    invariant
                        self.wf(),
                        self.input@ == inp,
                        self.in_ch as int == ich,
                        self.in_sr as int == isr,
                        self.out_ch as int == och,
                        self.out_sr as int == osr,
                        ich == 2,
                        och >= 2,
                        c <= self.out_ch,
                        0 <= f < frames,
                        idx0 as int == f as int * och,
                        idx0 as int + och <= frames as int * och,
                        forall|ff: int, cc: int|
                            0 <= ff < f as int && 0 <= cc < och ==> 0 <= #[trigger] (ff * och
                                + cc) < idx0 as int,
                        out@.len() == frames * och,
                        old(out)@.len() == frames * och,
                        out@.len() <= usize::MAX as int,
                        alpha == self.phase_num as int,
                        lastf == frame_at(inp, ich, self.vbase@ - 2),
                        nextf == frame_at(inp, ich, self.vbase@ - 1),
                        lv == interp_val(lastf[0], nextf[0], alpha, osr),
                        rv == interp_val(lastf[1], nextf[1], alpha, osr),
                        -SAMPLE_PEAK <= lv <= SAMPLE_PEAK,
                        -SAMPLE_PEAK <= rv <= SAMPLE_PEAK,
                        forall|ff: int, cc: int|
                            0 <= ff < f && 0 <= cc < och ==> out@[ff * och + cc] == old(out)@[ff
                                * och + cc] + #[trigger] track_sample(
                                inp,
                                ich,
                                isr,
                                osr,
                                och,
                                vb0,
                                ph0,
                                ff,
                                cc,
                            ),
                        forall|j: int|
                            0 <= j < c ==> out@[idx0 as int + j] == old(out)@[idx0 as int + j]
                                + #[trigger] chan_val(lastf, nextf, alpha, osr, ich, och, j),
                        forall|i: int|
                            idx0 as int + c <= i < frames * och ==> out@[i] == old(out)@[i],
                        forall|i: int|
                            0 <= i < out@.len() ==> old(out)@[i] - SAMPLE_PEAK
                                <= #[trigger] out@[i] <= old(out)@[i] + SAMPLE_PEAK,
                        forall|i: int|
                            0 <= i < old(out)@.len() ==> -0x4000_0000_0000_0000
                                <= #[trigger] old(out)@[i] <= 0x4000_0000_0000_0000,
                        any == (block_has_signal(inp, ich, isr, osr, och, vb0, ph0, f as int) || (
                        exists|j: int|
                            0 <= j < c && #[trigger] chan_val(
                                lastf,
                                nextf,
                                alpha,
                                osr,
                                ich,
                                och,
                                j,
                            ) != 0)),
                    decreases self.out_ch - c,
                {
                    let v: i64 = if c % 2 == 0 {
                        lv
                    } else {
                        rv
                    };
                    proof {
                        assert(v == chan_val(lastf, nextf, alpha, osr, ich, och, c as int));
                    }
                    let prev = out[idx0 + c];
                    proof {
                        assert(prev == out@[idx0 as int + c as int]);
                        assert(old(out)@[idx0 as int + c as int] - SAMPLE_PEAK <= prev <= old(
                            out,
                        )@[idx0 as int + c as int] + SAMPLE_PEAK);
                        assert(-0x4000_0000_0000_0000 <= old(out)@[idx0 as int + c as int]
                            <= 0x4000_0000_0000_0000);
                    }
                    out[idx0 + c] = prev + v;
                    if v != 0 {
                        any = true;
                        proof {
                            assert(chan_val(lastf, nextf, alpha, osr, ich, och, c as int) != 0);
                        }
                    }
                    c = c + 1;
                }
            } else {
                let mv = self.mono_at();
                proof {
                    assert(forall|cc: int|
                        0 <= cc < och ==> #[trigger] chan_val(
                            lastf,
                            nextf,
                            alpha,
                            osr,
                            ich,
                            och,
                            cc,
                        ) == mv);
                }
                let mut c: usize = 0;
                while c < self.out_ch
                    invariant
                        self.wf(),
                        self.input@ == inp,
                        self.in_ch as int == ich,
                        self.in_sr as int == isr,
                        self.out_ch as int == och,
                        self.out_sr as int == osr,
                        c <= self.out_ch,
                        0 <= f < frames,
                        idx0 as int == f as int * och,
                        idx0 as int + och <= frames as int * och,
                        forall|ff: int, cc: int|
                            0 <= ff < f as int && 0 <= cc < och ==> 0 <= #[trigger] (ff * och
                                + cc) < idx0 as int,
                        out@.len() == frames * och,
                        old(out)@.len() == frames * och,
                        out@.len() <= usize::MAX as int,
                        alpha == self.phase_num as int,
                        lastf == frame_at(inp, ich, self.vbase@ - 2),
                        nextf == frame_at(inp, ich, self.vbase@ - 1),
                        -SAMPLE_PEAK <= mv <= SAMPLE_PEAK,
                        forall|cc: int|
                            0 <= cc < och ==> #[trigger] chan_val(
                                lastf,
                                nextf,
                                alpha,
                                osr,
                                ich,
                                och,
                                cc,
                            ) == mv,
                        forall|ff: int, cc: int|
                            0 <= ff < f && 0 <= cc < och ==> out@[ff * och + cc] == old(out)@[ff
                                * och + cc] + #[trigger] track_sample(
                                inp,
                                ich,
                                isr,
                                osr,
                                och,
                                vb0,
                                ph0,
                                ff,
                                cc,
                            ),
                        forall|j: int|
                            0 <= j < c ==> out@[idx0 as int + j] == old(out)@[idx0 as int + j]
                                + #[trigger] chan_val(lastf, nextf, alpha, osr, ich, och, j),
                        forall|i: int|
                            idx0 as int + c <= i < frames * och ==> out@[i] == old(out)@[i],
                        forall|i: int|
                            0 <= i < out@.len() ==> old(out)@[i] - SAMPLE_PEAK
                                <= #[trigger] out@[i] <= old(out)@[i] + SAMPLE_PEAK,
                        forall|i: int|
                            0 <= i < old(out)@.len() ==> -0x4000_0000_0000_0000
                                <= #[trigger] old(out)@[i] <= 0x4000_0000_0000_0000,
                        any == (block_has_signal(inp, ich, isr, osr, och, vb0, ph0, f as int) || (
                        exists|j: int|
                            0 <= j < c && #[trigger] chan_val(
                                lastf,
                                nextf,
                                alpha,
                                osr,
                                ich,
                                och,
                                j,
                            ) != 0)),
                    decreases self.out_ch - c,
                {
                    let prev = out[idx0 + c];
                    proof {
                        assert(prev == out@[idx0 as int + c as int]);
                        assert(old(out)@[idx0 as int + c as int] - SAMPLE_PEAK <= prev <= old(
                            out,
                        )@[idx0 as int + c as int] + SAMPLE_PEAK);
                        assert(-0x4000_0000_0000_0000 <= old(out)@[idx0 as int + c as int]
                            <= 0x4000_0000_0000_0000);
                    }
                    out[idx0 + c] = prev + mv;
                    if mv != 0 {
                        any = true;
                        proof {
                            assert(chan_val(lastf, nextf, alpha, osr, ich, och, c as int) != 0);
                        }
                    }
                    c = c + 1;
                }
            }
            // take the phase one input step further and normalize it
            self.phase_num = self.phase_num + self.in_sr as u64;
            let ghost phx = self.phase_num as int;
            let ghost vbx = self.vbase@;
            while self.phase_num >= self.out_sr as u64
                invariant
                    self.window_wf(),
                    self.input@ == inp,
                    self.in_ch as int == ich,
                    self.in_sr as int == isr,
                    self.out_ch as int == och,
                    self.out_sr as int == osr,
                    self.phase_num as int + (self.vbase@ - vbx) * osr == phx,
                    self.vbase@ >= vbx,
                decreases self.phase_num,
            {
                proof {
                    assert((self.vbase@ + 1 - vbx) * osr == (self.vbase@ - vbx) * osr + osr)
                        by (nonlinear_arith);
                }
                self.shift_window();
            }
            proof {
                vstd::arithmetic::div_mod::lemma_fundamental_div_mod_converse(
                    phx,
                    osr,
                    self.vbase@ - vbx,
                    self.phase_num as int,
                );
                lemma_div_mod_shift(t, isr, osr);
                assert((self.vbase@ - vbx) * osr >= 0) by (nonlinear_arith)
                    requires
                        self.vbase@ >= vbx,
                        osr > 0,
                ;
                assert(t + isr == ph0 + (f as int + 1) * isr) by (nonlinear_arith)
                    requires
                        t == ph0 + f as int * isr,
                ;
            }
            let ghost fprev = f as int;
            f = f + 1;
            proof {
                assert(forall|cc: int|
                    0 <= cc < och ==> out@[fprev * och + cc] == old(out)@[fprev * och + cc]
                        + #[trigger] track_sample(inp, ich, isr, osr, och, vb0, ph0, fprev, cc));
                assert(any == block_has_signal(inp, ich, isr, osr, och, vb0, ph0, f as int)) by {
                    if any {
                        if block_has_signal(inp, ich, isr, osr, och, vb0, ph0, fprev) {
                            let (wf2, wc2): (int, int) = choose|wf2: int, wc2: int|
                                0 <= wf2 < fprev && 0 <= wc2 < och && track_sample(
                                    inp,
                                    ich,
                                    isr,
                                    osr,
                                    och,
                                    vb0,
                                    ph0,
                                    wf2,
                                    wc2,
                                ) != 0;
                            assert(0 <= wf2 < f as int && 0 <= wc2 < och && track_sample(
                                inp,
                                ich,
                                isr,
                                osr,
                                och,
                                vb0,
                                ph0,
                                wf2,
                                wc2,
                            ) != 0);
                        } else {
                            let wj: int = choose|wj: int|
                                0 <= wj < och && #[trigger] chan_val(
                                    lastf,
                                    nextf,
                                    alpha,
                                    osr,
                                    ich,
                                    och,
                                    wj,
                                ) != 0;
                            assert(track_sample(inp, ich, isr, osr, och, vb0, ph0, fprev, wj)
                                != 0);
                        }
                    } else {
                        assert(forall|wf2: int, wc2: int|
                            0 <= wf2 < f as int && 0 <= wc2 < och ==> #[trigger] track_sample(
                                inp,
                                ich,
                                isr,
                                osr,
                                och,
                                vb0,
                                ph0,
                                wf2,
                                wc2,
                            ) == 0) by {
                            assert(forall|wc2: int|
                                0 <= wc2 < och ==> #[trigger] chan_val(
                                    lastf,
                                    nextf,
                                    alpha,
                                    osr,
                                    ich,
                                    och,
                                    wc2,
                                ) == 0);
                        }
                    }
                }
            }
        }
        let active = any || !self.at_end;
        active
    }
}

impl TrackStream {
    /// Moves the stream to playback position `pos`, counted in output
    /// frames: drops `pos * in_sr / out_sr` whole input frames from the
    /// cursor, maps the fractional remainder onto the phase, and refills the
    /// interpolation window. A target of less than one input frame leaves
    /// the stream untouched; one past the input's end leaves it silent.
    pub fn skip_to_frame(&mut self, pos: u64)
        requires
            old(self).wf(),
            pos <= MAX_POSITION_FRAMES,
        ensures
            final(self).wf(),
            final(self).input@ == old(self).input@,
            final(self).in_ch == old(self).in_ch,
            final(self).in_sr == old(self).in_sr,
            final(self).out_ch == old(self).out_ch,
            final(self).out_sr == old(self).out_sr,
            ({
                let d = pos as int * old(self).in_sr as int / old(self).out_sr as int;
                &&& (d == 0 ==> *final(self) == *old(self))
                &&& (d > 0 ==> final(self).vbase@ == old(self).vbase@ + d + 2)
                &&& (d > 0 ==> final(self).phase_num as int == ((pos as int * old(
                    self,
                ).in_sr as int) % (old(self).out_sr as int)) * (old(self).out_sr as int) / (old(
                    self,
                ).in_sr as int) % (old(self).out_sr as int))
            }),
    {
        let ghost vb0 = self.vbase@;
        let ghost fr0 = self.frames_read as int;
        let ghost chi = self.in_ch as int;
        let ghost len_g = self.input@.len() as int;
        let ghost isr = self.in_sr as int;
        let ghost osr = self.out_sr as int;
        proof {
            assert((pos as int) * isr <= 0x800_0000_0000 * 400000) by (nonlinear_arith)
                requires
                    0 <= pos as int <= 0x800_0000_0000,
                    0 <= isr <= 400000,
            ;
            assert((pos as int) * isr / osr <= (pos as int) * isr) by (nonlinear_arith)
                requires
                    osr >= 1,
                    (pos as int) * isr >= 0,
            ;
        }
        let d128: u128 = (pos as u128) * (self.in_sr as u128) / (self.out_sr as u128);
        let d: u64 = d128 as u64;
        if d == 0 {
            return ;
        }
        let rem128: u128 = (pos as u128) * (self.in_sr as u128) % (self.out_sr as u128);
        proof {
            vstd::arithmetic::div_mod::lemma_mod_bound((pos as int) * isr, osr);
            assert(rem128 as int * osr <= 400000 * 400000) by (nonlinear_arith)
                requires
                    0 <= (rem128 as int) && (rem128 as int) < osr,
                    0 < osr,
                    osr <= 400000,
            ;
            vstd::arithmetic::div_mod::lemma_mod_bound(rem128 as int * osr / isr, osr);
        }
        let ph128: u128 = rem128 * (self.out_sr as u128) / (self.in_sr as u128) % (
        self.out_sr as u128);
        // advance the cursor by d whole frames, but never count past the
        // point where the window holds only silence
        let len: usize = self.input.len();
        let ch: usize = self.in_ch;
        let q: usize = (len + ch - 1) / ch;
        proof {
            let lc = len_g + chi - 1;
            vstd::arithmetic::div_mod::lemma_fundamental_div_mod(lc, chi);
            vstd::arithmetic::div_mod::lemma_mod_bound(lc, chi);
            assert(q as int == lc / chi);
            assert(q as int * chi >= len_g && q as int <= len_g) by (nonlinear_arith)
                requires
                    lc == chi * (q as int) + (lc % chi),
                    0 <= lc % chi,
                    lc % chi < chi,
                    lc == len_g + chi - 1,
                    1 <= chi,
                    0 <= q as int,
                    0 <= len_g,
            ;
        }
        let cap64: u64 = (q + 2) as u64;
        let fr_new: u64 = if self.frames_read + d < cap64 {
            self.frames_read + d
        } else {
            cap64
        };
        proof {
            if fr_new as int == fr0 + d {
                if vb0 != fr0 {
                    assert((fr0 + d - 2) * chi >= (fr0 - 2) * chi) by (nonlinear_arith)
                        requires
                            d >= 0,
                            chi >= 1,
                    ;
                }
            } else {
                assert((cap64 as int - 2) * chi >= len_g);
            }
        }
        proof {
            assert(fr_new as int * chi <= (len_g + 2) * 64) by (nonlinear_arith)
                requires
                    0 <= fr_new as int <= len_g + 2,
                    1 <= chi <= 64,
            ;
        }
        let rp128: u128 = (fr_new as u128) * (ch as u128);
        self.read_pos = if rp128 < len as u128 {
            (fr_new as usize) * ch
        } else {
            len
        };
        self.at_end = rp128 > len as u128;
        self.frames_read = fr_new;
        self.phase_num = ph128 as u64;
        self.vbase = Ghost(vb0 + d as int);
        proof {
            assert(self.base_wf());
        }
        let f0 = self.read_frame();
        self.last = f0;
        let f1 = self.read_frame();
        self.next = f1;
    }
}

/// When a track's input rate equals the output rate and its channel layout
/// is kept (mono to mono, or stereo to stereo), resampling is a no-op: from
/// a freshly opened stream, output frame `f`, channel `c` is exactly the raw
/// interleaved input sample of frame `f`, channel `c`, and silence once the
/// input is spent.
pub proof fn lemma_resample_identity(input: Seq<i32>, ch: int, sr: int, f: int, c: int)
    requires
        ch == 1 || ch == 2,
        sr >= 1,
        0 <= f,
        0 <= c < ch,
    ensures
        track_sample(input, ch, sr, sr, ch, 2, 0, f, c) == frame_at(input, ch, f)[c],
{
    let t = 0 + f * sr;
    vstd::arithmetic::div_mod::lemma_fundamental_div_mod_converse(t, sr, f, 0);
    let lastf = frame_at(input, ch, f);
    let nextf = frame_at(input, ch, f + 1);
    crate::fixed::lemma_scale_trunc_zero_num(nextf[0] - lastf[0], sr);
    if ch == 2 {
        crate::fixed::lemma_scale_trunc_zero_num(nextf[1] - lastf[1], sr);
        assert(chan_val(lastf, nextf, 0, sr, ch, ch, c) == lastf[c]);
    } else {
        assert(interp_sum(lastf, nextf, 0, sr, 0) == 0);
        assert(interp_sum(lastf, nextf, 0, sr, 1) == interp_val(lastf[0], nextf[0], 0, sr));
        crate::fixed::lemma_scale_trunc_unity(lastf[0], 1);
        assert(chan_val(lastf, nextf, 0, sr, 1, 1, c) == lastf[0]);
    }
}

/// Indices of rows before row `f` lie before row `f`'s first index.
proof fn lemma_row_index_bound(f: int, och: int)
    requires
        och >= 1,
        f >= 0,
    ensures
        forall|ff: int, cc: int|
            0 <= ff < f && 0 <= cc < och ==> 0 <= #[trigger] (ff * och + cc) < f * och,
{
    assert forall|ff: int, cc: int|
        0 <= ff < f && 0 <= cc < och implies 0 <= #[trigger] (ff * och + cc) < f * och by {
        assert(0 <= ff * och && ff * och + cc < (ff + 1) * och) by (nonlinear_arith)
            requires
                0 <= cc < och,
                0 <= ff,
        ;
        assert((ff + 1) * och <= f * och) by (nonlinear_arith)
            requires
                ff + 1 <= f,
                och >= 0,
        ;
    }
}

/// Whether any sample of the next `frames` output frames would be nonzero.
pub open spec fn block_has_signal(
    input: Seq<i32>,
    in_ch: int,
    in_sr: int,
    out_sr: int,
    out_ch: int,
    vb0: int,
    ph0: int,
    frames: int,
) -> bool {
    exists|f: int, c: int|
        0 <= f < frames && 0 <= c < out_ch && track_sample(
            input,
            in_ch,
            in_sr,
            out_sr,
            out_ch,
            vb0,
            ph0,
            f,
            c,
        ) != 0
}

} // verus!
