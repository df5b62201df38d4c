//! The playback state machine: track list, per-track gain table, position
//! bookkeeping and the play/pause/stop/seek/dispose transitions.
//!
//! The engine owns no device handle: each transition says, through a
//! `SinkOp`, what the shell must do with the real sink, and the shell hands
//! wall-clock instants in as plain microsecond counts. Every decision the
//! engine takes is verified; the shell only performs I/O.

use vstd::prelude::*;

use crate::fixed::GAIN_UNIT;
use crate::gain::GainCmd;
use crate::track::MAX_POSITION_FRAMES;
use vstd::string::StringExecFns;

verus! {

/// Largest wall-clock instant, in microseconds since the shell's epoch,
/// that the engine accepts; keeps all position arithmetic inside `u64`.
pub const MAX_INSTANT_MICROS: u64 = 0x1000_0000_0000;

/// The three playback states.
#[derive(Clone, Copy, PartialEq, Eq, Structural, Debug)]
pub enum PlayState {
    Stopped,
    Playing,
    Paused,
}

/// What the shell must do with the device sink after a transition.
#[derive(Clone, Copy, PartialEq, Eq, Structural, Debug)]
pub enum SinkOp {
    /// Leave the sink as it is.
    Keep,
    /// Tear down any sink and build a fresh one, with a mix starting at
    /// this output-frame position.
    Spawn { start_frames: u64 },
    /// Resume the paused sink.
    Resume,
    /// Pause the running sink.
    Pause,
    /// Tear the sink down.
    Kill,
}

/// The cross-thread snapshot the engine publishes after every transition,
/// so that status queries never touch the engine itself.
#[derive(Clone, Copy, Debug)]
pub struct Shared {
    pub out_sample_rate: u32,
    pub total_frames: u64,
    pub pos_frames_base: u64,
    pub play_started_at_micros: Option<u64>,
    pub is_playing: bool,
}

/// What a status query reports: the position in output frames (with the
/// rate to turn it into seconds) and whether playback is running.
#[derive(Clone, Copy, Debug)]
pub struct AudioStatus {
    pub position_frames: u64,
    pub out_sample_rate: u32,
    pub is_playing: bool,
}

/// The playback engine.
pub struct Engine {
    /// Output sample rate.
    pub out_sr: u32,
    /// Output channel count.
    pub out_ch: u16,
    /// The loaded track paths; a path's index is its identity for gain
    /// addressing.
    pub paths: Vec<String>,
    /// Total duration in output frames; zero means unknown, and clamps are
    /// then inactive.
    pub total_frames: u64,
    /// Per-track gain table, index-parallel to `paths`.
    pub gains: Vec<GainCmd>,
    /// Whether a sink currently exists on the shell side.
    pub has_sink: bool,
    /// Whether that sink is paused.
    pub sink_paused: bool,
    /// Playback state.
    pub state: PlayState,
    /// Frames already consumed, frozen while not playing.
    pub pos_frames: u64,
    /// Wall-clock anchor of the running playback, in microseconds.
    pub play_started_at: Option<u64>,
    /// Frames per mixed block.
    pub block_frames: usize,
}

/// Where a seek to `target` lands: clamped to the known duration, or to the
/// largest representable position when the duration is unknown.
pub open spec fn seek_pos(total_frames: u64, target: u64) -> u64 {
    if total_frames > 0 {
        if target < total_frames {
            target
        } else {
            total_frames
        }
    } else {
        if target < MAX_POSITION_FRAMES {
            target
        } else {
            MAX_POSITION_FRAMES
        }
    }
}

/// The elapsed playback converted to output frames, rounded to nearest:
/// `(now - t0)` microseconds at `sr` frames per second.
pub open spec fn elapsed_frames(t0: int, now: int, sr: int) -> int {
    ((now - t0) * sr + 500_000) / 1_000_000
}

/// Where a pause freezes the position: the frames played since the anchor
/// folded in, clamped to the known duration (or the largest representable
/// position when the duration is unknown).
pub open spec fn folded_pos(pos: u64, total: u64, t0: int, now: int, sr: int) -> u64 {
    let p = pos + elapsed_frames(t0, now, sr);
    if total > 0 {
        if p < total {
            p as u64
        } else {
            total
        }
    } else {
        if p < MAX_POSITION_FRAMES {
            p as u64
        } else {
            MAX_POSITION_FRAMES
        }
    }
}

/// The position a status query computes from a snapshot: the frozen base,
/// plus the wall clock elapsed since the anchor while playing (truncated to
/// whole frames, never rounded up).
pub open spec fn shared_position(sh: Shared, now: int) -> int {
    let sr = if sh.out_sample_rate >= 1 {
        sh.out_sample_rate as int
    } else {
        1
    };
    sh.pos_frames_base + if sh.is_playing && sh.play_started_at_micros is Some
        && sh.play_started_at_micros->0 <= now {
        ((now - sh.play_started_at_micros->0) * sr) / 1_000_000
    } else {
        0
    }
}

impl Engine {
    /// The engine's invariant: sane formats, one gain record per track, a
    /// representable position, and a wall-clock anchor exactly while
    /// playing.
    pub open spec fn wf(self) -> bool {
        &&& 1 <= self.out_sr <= crate::track::MAX_RATE
        &&& 1 <= self.out_ch <= 64
        &&& 64 <= self.block_frames <= crate::mixer::MAX_BLOCK_FRAMES
        &&& self.gains@.len() == self.paths@.len()
        &&& self.pos_frames <= MAX_POSITION_FRAMES
        &&& self.total_frames <= MAX_POSITION_FRAMES
        &&& (self.play_started_at is Some ==> self.play_started_at->0 <= MAX_INSTANT_MICROS)
        &&& (self.state is Playing ==> self.play_started_at is Some)
        &&& (self.state is Playing ==> self.has_sink && !self.sink_paused)
    }

    /// The snapshot this engine would publish.
    pub open spec fn snapshot_spec(self) -> Shared {
        Shared {
            out_sample_rate: self.out_sr,
            total_frames: self.total_frames,
            pos_frames_base: self.pos_frames,
            play_started_at_micros: self.play_started_at,
            is_playing: self.state is Playing,
        }
    }

    /// A fresh engine for a device with the given output format: nothing
    /// loaded, stopped at position zero.
    pub fn new(out_sr: u32, out_ch: u16, block_frames: usize) -> (r: Engine)
        requires
            1 <= out_sr <= crate::track::MAX_RATE,
            1 <= out_ch <= 64,
            64 <= block_frames <= crate::mixer::MAX_BLOCK_FRAMES,
        ensures
            r.wf(),
            r.out_sr == out_sr,
            r.out_ch == out_ch,
            r.block_frames == block_frames,
            r.paths@.len() == 0,
            r.gains@.len() == 0,
            r.total_frames == 0,
            r.pos_frames == 0,
            r.state is Stopped,
            r.has_sink == false,
            r.play_started_at is None,
    {
        Engine {
            out_sr,
            out_ch,
            paths: Vec::new(),
            total_frames: 0,
            gains: Vec::new(),
            has_sink: false,
            sink_paused: false,
            state: PlayState::Stopped,
            pos_frames: 0,
            play_started_at: None,
            block_frames,
        }
    }

    /// Publishes the snapshot that matches the engine's current state.
    pub fn push_shared(&self) -> (sh: Shared)
        ensures
            sh == self.snapshot_spec(),
    {
        Shared {
            out_sample_rate: self.out_sr,
            total_frames: self.total_frames,
            pos_frames_base: self.pos_frames,
            play_started_at_micros: if self.play_started_at.is_some() {
                Some(*self.play_started_at.as_ref().unwrap())
            } else {
                None
            },
            is_playing: match self.state {
                PlayState::Playing => true,
                _ => false,
            },
        }
    }

    /// Loads a new session: replaces the track list, resets the position and
    /// the gain table to unity, stops playback, and asks the shell to tear
    /// the old sink down. Rejects an empty track list and changes nothing
    /// then. Light by design: nothing is decoded here.
    pub fn prepare_streaming(&mut self, paths: Vec<String>) -> (r: Result<SinkOp, String>)
        requires
            old(self).wf(),
        ensures
            final(self).wf(),
            final(self).out_sr == old(self).out_sr,
            final(self).out_ch == old(self).out_ch,
            final(self).block_frames == old(self).block_frames,
            paths@.len() == 0 ==> (*final(self) == *old(self) && (r matches Err(m) && m@
                == "At least one audio path is required"@)),
            paths@.len() > 0 ==> ({
                &&& r == Ok::<SinkOp, String>(SinkOp::Kill)
                &&& final(self).paths == paths
                &&& final(self).total_frames == 0
                &&& final(self).pos_frames == 0
                &&& final(self).state is Stopped
                &&& final(self).has_sink == false
                &&& final(self).sink_paused == false
                &&& final(self).play_started_at == old(self).play_started_at
                &&& final(self).gains@.len() == paths@.len()
                &&& forall|i: int|
                    0 <= i < paths@.len() ==> #[trigger] final(self).gains@[i] == (GainCmd {
                        target_milli: GAIN_UNIT,
                        ramp_frames: 0,
                        generation: 0,
                    })
            }),
    {
        if paths.len() == 0 {
            return Err(String::from_str("At least one audio path is required"));
        }
        self.total_frames = 0;
        self.pos_frames = 0;
        self.state = PlayState::Stopped;
        self.has_sink = false;
        self.sink_paused = false;
        let n = paths.len();
        self.paths = paths;
        let mut g: Vec<GainCmd> = Vec::new();
        let mut i: usize = 0;
        while i < n
            invariant
                i <= n,
                g@.len() == i,
                forall|j: int|
                    0 <= j < i ==> #[trigger] g@[j] == (GainCmd {
                        target_milli: GAIN_UNIT,
                        ramp_frames: 0,
                        generation: 0,
                    }),
            decreases n - i,
        {
            g.push(GainCmd::unity());
            i = i + 1;
        }
        self.gains = g;
        Ok(SinkOp::Kill)
    }

    /// Starts or resumes playback from the current position. Playing twice
    /// in a row is a no-op: the position is untouched and no second sink is
    /// spawned. Fails, changing nothing, when nothing is loaded.
    pub fn play(&mut self, now_micros: u64) -> (r: Result<SinkOp, String>)
        requires
            old(self).wf(),
            now_micros <= MAX_INSTANT_MICROS,
        ensures
            final(self).wf(),
            old(self).paths@.len() == 0 ==> (*final(self) == *old(self) && (r matches Err(m)
                && m@ == "No audio loaded"@)),
            (old(self).paths@.len() > 0 && old(self).state is Playing) ==> (*final(self) == *old(
                self,
            ) && r == Ok::<SinkOp, String>(SinkOp::Keep)),
            (old(self).paths@.len() > 0 && old(self).state is Paused && old(self).has_sink) ==> (
            r == Ok::<SinkOp, String>(SinkOp::Resume) && *final(self) == (Engine {
                state: PlayState::Playing,
                sink_paused: false,
                play_started_at: Some(now_micros),
                ..*old(self)
            })),
            (old(self).paths@.len() > 0 && (old(self).state is Stopped || (old(
                self,
            ).state is Paused && !old(self).has_sink))) ==> (r == Ok::<SinkOp, String>(
                SinkOp::Spawn { start_frames: old(self).pos_frames },
            ) && *final(self) == (Engine {
                state: PlayState::Playing,
                has_sink: true,
                sink_paused: false,
                play_started_at: Some(now_micros),
                ..*old(self)
            })),
    {
        if self.paths.len() == 0 {
            return Err(String::from_str("No audio loaded"));
        }
        match self.state {
            PlayState::Playing => Ok(SinkOp::Keep),
            PlayState::Paused => {
                if self.has_sink {
                    self.sink_paused = false;
                    self.play_started_at = Some(now_micros);
                    self.state = PlayState::Playing;
                    Ok(SinkOp::Resume)
                } else {
                    let start = self.pos_frames;
                    self.has_sink = true;
                    self.sink_paused = false;
                    self.play_started_at = Some(now_micros);
                    self.state = PlayState::Playing;
                    Ok(SinkOp::Spawn { start_frames: start })
                }
            },
            PlayState::Stopped => {
                let start = self.pos_frames;
                self.has_sink = true;
                self.sink_paused = false;
                self.play_started_at = Some(now_micros);
                self.state = PlayState::Playing;
                Ok(SinkOp::Spawn { start_frames: start })
            },
        }
    }

    /// Pauses playback: folds the wall clock elapsed since the anchor into
    /// the frozen position (rounded to the nearest frame and clamped to the
    /// known duration), drops the anchor, and asks the shell to pause the
    /// sink. Not playing: a no-op.
    pub fn pause(&mut self, now_micros: u64) -> (r: Result<SinkOp, String>)
        requires
            old(self).wf(),
            now_micros <= MAX_INSTANT_MICROS,
            old(self).play_started_at is Some ==> old(self).play_started_at->0 <= now_micros,
        ensures
            final(self).wf(),
            !(old(self).state is Playing) ==> (*final(self) == *old(self) && r == Ok::<
                SinkOp,
                String,
            >(SinkOp::Keep)),
            old(self).state is Playing ==> ({
                &&& *final(self) == (Engine {
                    state: PlayState::Paused,
                    sink_paused: old(self).has_sink,
                    play_started_at: None,
                    pos_frames: folded_pos(
                        old(self).pos_frames,
                        old(self).total_frames,
                        old(self).play_started_at->0 as int,
                        now_micros as int,
                        old(self).out_sr as int,
                    ),
                    ..*old(self)
                })
                &&& r == Ok::<SinkOp, String>(
                    if old(self).has_sink {
                        SinkOp::Pause
                    } else {
                        SinkOp::Keep
                    },
                )
            }),
    {
        match self.state {
            PlayState::Playing => {
                let t0 = *self.play_started_at.as_ref().unwrap();
                let dt = now_micros - t0;
                proof {
                    assert(dt as int * (self.out_sr as int) + 500_000 <= 0x1000_0000_0000
                        * 400000 + 500_000) by (nonlinear_arith)
                        requires
                            0 <= dt as int <= 0x1000_0000_0000,
                            0 <= self.out_sr as int <= 400000,
                    ;
                }
                let adv128: u128 = ((dt as u128) * (self.out_sr as u128) + 500_000) / 1_000_000;
                let p128: u128 = (self.pos_frames as u128) + adv128;
                let newpos: u64 = if self.total_frames > 0 {
                    if p128 < self.total_frames as u128 {
                        p128 as u64
                    } else {
                        self.total_frames
                    }
                } else {
                    if p128 < MAX_POSITION_FRAMES as u128 {
                        p128 as u64
                    } else {
                        MAX_POSITION_FRAMES
                    }
                };
                self.pos_frames = newpos;
                self.play_started_at = None;
                let op = if self.has_sink {
                    self.sink_paused = true;
                    SinkOp::Pause
                } else {
                    SinkOp::Keep
                };
                self.state = PlayState::Paused;
                Ok(op)
            },
            _ => Ok(SinkOp::Keep),
        }
    }

    /// Stops playback: position back to zero, state `Stopped`, sink torn
    /// down.
    pub fn stop(&mut self) -> (r: Result<SinkOp, String>)
        requires
            old(self).wf(),
        ensures
            final(self).wf(),
            r == Ok::<SinkOp, String>(SinkOp::Kill),
            *final(self) == (Engine {
                state: PlayState::Stopped,
                pos_frames: 0,
                play_started_at: None,
                has_sink: false,
                sink_paused: false,
                ..*old(self)
            }),
    {
        self.pos_frames = 0;
        self.play_started_at = None;
        self.state = PlayState::Stopped;
        self.has_sink = false;
        self.sink_paused = false;
        Ok(SinkOp::Kill)
    }

    /// Seeks to a target position in output frames, clamped to the known
    /// duration. While playing, the shell must replace the sink with a
    /// fresh mix from the new position (a running resampler cannot be
    /// rewound in place); otherwise only the stored position moves.
    pub fn seek(&mut self, target_frames: u64, now_micros: u64) -> (r: Result<SinkOp, String>)
        requires
            old(self).wf(),
            now_micros <= MAX_INSTANT_MICROS,
        ensures
            final(self).wf(),
            final(self).pos_frames == seek_pos(old(self).total_frames, target_frames),
            old(self).state is Playing ==> (r == Ok::<SinkOp, String>(
                SinkOp::Spawn { start_frames: seek_pos(old(self).total_frames, target_frames) },
            ) && *final(self) == (Engine {
                pos_frames: seek_pos(old(self).total_frames, target_frames),
                play_started_at: Some(now_micros),
                has_sink: true,
                sink_paused: false,
                ..*old(self)
            })),
            !(old(self).state is Playing) ==> (r == Ok::<SinkOp, String>(SinkOp::Keep) && *final(
                self) == (Engine {
                pos_frames: seek_pos(old(self).total_frames, target_frames),
                play_started_at: None,
                ..*old(self)
            })),
    {
        let newpos: u64 = if self.total_frames > 0 {
            if target_frames < self.total_frames {
                target_frames
            } else {
                self.total_frames
            }
        } else {
            if target_frames < MAX_POSITION_FRAMES {
                target_frames
            } else {
                MAX_POSITION_FRAMES
            }
        };
        self.pos_frames = newpos;
        match self.state {
            PlayState::Playing => {
                self.play_started_at = Some(now_micros);
                self.has_sink = true;
                self.sink_paused = false;
                Ok(SinkOp::Spawn { start_frames: newpos })
            },
            _ => {
                self.play_started_at = None;
                Ok(SinkOp::Keep)
            },
        }
    }

    /// Tears the whole session down: sink gone, track list and gain table
    /// cleared, position reset, stopped. A later `play` without a new load
    /// fails.
    pub fn dispose(&mut self) -> (r: Result<SinkOp, String>)
        requires
            old(self).wf(),
        ensures
            final(self).wf(),
            r == Ok::<SinkOp, String>(SinkOp::Kill),
            final(self).paths@.len() == 0,
            final(self).gains@.len() == 0,
            *final(self) == (Engine {
                paths: final(self).paths,
                gains: final(self).gains,
                total_frames: 0,
                pos_frames: 0,
                state: PlayState::Stopped,
                has_sink: false,
                sink_paused: false,
                ..*old(self)
            }),
    {
        self.paths = Vec::new();
        self.gains = Vec::new();
        self.total_frames = 0;
        self.pos_frames = 0;
        self.state = PlayState::Stopped;
        self.has_sink = false;
        self.sink_paused = false;
        Ok(SinkOp::Kill)
    }
}

/// The first index at or after `from` whose path reads `p`, or `-1`.
pub open spec fn find_path_from(table: Seq<String>, p: Seq<char>, from: int) -> int
    decreases table.len() - from,
{
    if from < 0 || from >= table.len() {
        -1
    } else if table[from]@ == p {
        from
    } else {
        find_path_from(table, p, from + 1)
    }
}

/// A gain record carrying a fresh command: new target and ramp budget, and
/// the generation stepped (wrapping) so the mixer sees the change.
pub open spec fn bumped(g: GainCmd, target_milli: u32, ramp_frames: u64) -> GainCmd {
    GainCmd {
        target_milli,
        ramp_frames,
        generation: if g.generation == 0xffff_ffff_ffff_ffff {
            0
        } else {
            (g.generation + 1) as u64
        },
    }
}

/// The gain table after a command for the given paths: each named path is
/// resolved to its first index in the track table and that record bumped;
/// unknown paths are ignored, and a path named twice is bumped twice.
pub open spec fn apply_gain_cmds(
    gains: Seq<GainCmd>,
    table: Seq<String>,
    cmds: Seq<String>,
    target_milli: u32,
    ramp_frames: u64,
) -> Seq<GainCmd>
    decreases cmds.len(),
{
    if cmds.len() == 0 {
        gains
    } else {
        let idx = find_path_from(table, cmds[0]@, 0);
        let g1 = if 0 <= idx < gains.len() {
            gains.update(idx, bumped(gains[idx], target_milli, ramp_frames))
        } else {
            gains
        };
        apply_gain_cmds(g1, table, cmds.subrange(1, cmds.len() as int), target_milli, ramp_frames)
    }
}

/// Appending one more command applies it after the rest: the step form a
/// loop over the commands needs.
proof fn lemma_apply_gain_cmds_snoc(
    gains: Seq<GainCmd>,
    table: Seq<String>,
    cmds: Seq<String>,
    x: String,
    target_milli: u32,
    ramp_frames: u64,
)
    ensures
        ({
            let done = apply_gain_cmds(gains, table, cmds, target_milli, ramp_frames);
            let idx = find_path_from(table, x@, 0);
            apply_gain_cmds(gains, table, cmds.push(x), target_milli, ramp_frames) == if 0 <= idx
                < done.len() {
                done.update(idx, bumped(done[idx], target_milli, ramp_frames))
            } else {
                done
            }
        }),
    decreases cmds.len(),
{
    let full = cmds.push(x);
    if cmds.len() == 0 {
        assert(full[0] == x);
        assert(full.subrange(1, full.len() as int) =~= Seq::<String>::empty());
        assert(apply_gain_cmds(gains, table, cmds, target_milli, ramp_frames) == gains);
        let idx = find_path_from(table, x@, 0);
        let g1 = if 0 <= idx < gains.len() {
            gains.update(idx, bumped(gains[idx], target_milli, ramp_frames))
        } else {
            gains
        };
        assert(apply_gain_cmds(gains, table, full, target_milli, ramp_frames)
            == apply_gain_cmds(
            g1,
            table,
            full.subrange(1, full.len() as int),
            target_milli,
            ramp_frames,
        ));
        assert(apply_gain_cmds(g1, table, Seq::<String>::empty(), target_milli, ramp_frames)
            == g1);
    } else {
        assert(full[0] == cmds[0]);
        let idx0 = find_path_from(table, cmds[0]@, 0);
        let g1 = if 0 <= idx0 < gains.len() {
            gains.update(idx0, bumped(gains[idx0], target_milli, ramp_frames))
        } else {
            gains
        };
        assert(full.subrange(1, full.len() as int) =~= cmds.subrange(
            1,
            cmds.len() as int,
        ).push(x));
        lemma_apply_gain_cmds_snoc(
            g1,
            table,
            cmds.subrange(1, cmds.len() as int),
            x,
            target_milli,
            ramp_frames,
        );
    }
}

impl Engine {
    /// Resolves each named path to its track index and publishes a new gain
    /// command for it: target gain (in thousandths), ramp length converted
    /// from milliseconds to frames at the output rate (ten milliseconds
    /// when none is given), and a stepped generation. Unknown paths are
    /// silently ignored. Fails, changing nothing, when nothing is loaded.
    pub fn set_tracks_gain_by_path(
        &mut self,
        paths: Vec<String>,
        gain_milli: u32,
        ramp_ms: Option<u32>,
    ) -> (r: Result<(), String>)
        requires
            old(self).wf(),
        ensures
            final(self).wf(),
            old(self).paths@.len() == 0 ==> (*final(self) == *old(self) && (r matches Err(m)
                && m@ == "No audio loaded"@)),
            old(self).paths@.len() > 0 ==> ({
                let rf = (if ramp_ms is Some {
                    ramp_ms->0 as int
                } else {
                    10
                }) * old(self).out_sr as int / 1000;
                &&& r is Ok
                &&& final(self).gains@ == apply_gain_cmds(
                    old(self).gains@,
                    old(self).paths@,
                    paths@,
                    gain_milli,
                    rf as u64,
                )
                &&& *final(self) == (Engine { gains: final(self).gains, ..*old(self) })
            }),
    {
        if self.paths.len() == 0 {
            return Err(String::from_str("No audio loaded"));
        }
        let ms: u32 = match ramp_ms {
            Some(v) => v,
            None => 10,
        };
        proof {
            assert(ms as int * (self.out_sr as int) <= 0xffff_ffff * 400000) by (nonlinear_arith)
                requires
                    0 <= ms as int <= 0xffff_ffff,
                    0 <= self.out_sr as int <= 400000,
            ;
        }
        let ramp_frames: u64 = ((ms as u64) * (self.out_sr as u64)) / 1000;
        let ghost gains0 = self.gains@;
        let ghost table = self.paths@;
        let n = paths.len();
        let mut k: usize = 0;
        while k < n
            invariant
                k <= n,
                n == paths@.len(),
                self.paths@ == table,
                self.out_sr == old(self).out_sr,
                self.out_ch == old(self).out_ch,
                self.block_frames == old(self).block_frames,
                self.total_frames == old(self).total_frames,
                self.pos_frames == old(self).pos_frames,
                self.state == old(self).state,
                self.has_sink == old(self).has_sink,
                self.sink_paused == old(self).sink_paused,
                self.play_started_at == old(self).play_started_at,
                self.paths == old(self).paths,
                old(self).wf(),
                self.gains@.len() == gains0.len(),
                gains0 == old(self).gains@,
                table == old(self).paths@,
                self.gains@ == apply_gain_cmds(
                    gains0,
                    table,
                    paths@.subrange(0, k as int),
                    gain_milli,
                    ramp_frames,
                ),
            decreases n - k,
        {
            let p = &paths[k];
            let ghost pre_gains = self.gains@;
            // resolve the path to its first index in the track table
            let m = self.paths.len();
            let mut i: usize = 0;
            let mut found: bool = false;
            while i < m && !found
                invariant
                    i <= m,
                    m == table.len(),
                    self.paths@ == table,
                    p@ == paths@[k as int]@,
                    !found ==> find_path_from(table, p@, 0) == find_path_from(table, p@, i as int),
                    found ==> 0 <= find_path_from(table, p@, 0) < table.len() && i
                        == find_path_from(table, p@, 0),
                    self.gains@ == pre_gains,
                    self.gains@.len() == table.len(),
                decreases m - i + if found {
                    0int
                } else {
                    1int
                },
            {
                if self.paths[i] == *p {
                    found = true;
                } else {
                    i = i + 1;
                }
            }
            if found {
                let old_g = self.gains[i];
                let new_gen: u64 = if old_g.generation == 0xffff_ffff_ffff_ffff {
                    0
                } else {
                    old_g.generation + 1
                };
                self.gains[i] = GainCmd {
                    target_milli: gain_milli,
                    ramp_frames,
                    generation: new_gen,
                };
                proof {
                    assert(self.gains@ =~= pre_gains.update(
                        i as int,
                        bumped(pre_gains[i as int], gain_milli, ramp_frames),
                    ));
                }
            } else {
                proof {
                    assert(find_path_from(table, p@, i as int) == -1);
                }
            }
            proof {
                lemma_apply_gain_cmds_snoc(
                    gains0,
                    table,
                    paths@.subrange(0, k as int),
                    paths@[k as int],
                    gain_milli,
                    ramp_frames,
                );
                assert(paths@.subrange(0, k as int + 1) =~= paths@.subrange(0, k as int).push(
                    paths@[k as int],
                ));
            }
            k = k + 1;
        }
        proof {
            assert(paths@.subrange(0, n as int) =~= paths@);
        }
        Ok(())
    }

    /// Mutes or unmutes the named tracks: a gain command for zero gain when
    /// muting and unity gain when unmuting, ramped over the given time.
    pub fn mute_tracks_by_path(
        &mut self,
        paths: Vec<String>,
        muted: bool,
        ramp_ms: Option<u32>,
    ) -> (r: Result<(), String>)
        requires
            old(self).wf(),
        ensures
            final(self).wf(),
            old(self).paths@.len() == 0 ==> (*final(self) == *old(self) && (r matches Err(m)
                && m@ == "No audio loaded"@)),
            old(self).paths@.len() > 0 ==> ({
                let rf = (if ramp_ms is Some {
                    ramp_ms->0 as int
                } else {
                    10
                }) * old(self).out_sr as int / 1000;
                &&& r is Ok
                &&& final(self).gains@ == apply_gain_cmds(
                    old(self).gains@,
                    old(self).paths@,
                    paths@,
                    if muted {
                        0
                    } else {
                        GAIN_UNIT
                    },
                    rf as u64,
                )
                &&& *final(self) == (Engine { gains: final(self).gains, ..*old(self) })
            }),
    {
        let target: u32 = if muted {
            0
        } else {
            GAIN_UNIT
        };
        self.set_tracks_gain_by_path(paths, target, ramp_ms)
    }
}

/// While the snapshot says playback is running, the reported position never
/// decreases as the wall clock advances; while it is not running, the
/// position is frozen at the base.
pub proof fn lemma_status_monotone(sh: Shared, t1: int, t2: int)
    requires
        t1 <= t2,
    ensures
        shared_position(sh, t1) <= shared_position(sh, t2),
        !sh.is_playing ==> shared_position(sh, t1) == sh.pos_frames_base
            && shared_position(sh, t2) == sh.pos_frames_base,
{
    let sr = if sh.out_sample_rate >= 1 {
        sh.out_sample_rate as int
    } else {
        1
    };
    if sh.is_playing && sh.play_started_at_micros is Some {
        let t0 = sh.play_started_at_micros->0 as int;
        if t0 <= t1 {
            assert((t1 - t0) * sr <= (t2 - t0) * sr) by (nonlinear_arith)
                requires
                    t1 <= t2,
                    t0 <= t1,
                    sr >= 1,
            ;
            vstd::arithmetic::div_mod::lemma_div_is_ordered((t1 - t0) * sr, (t2 - t0) * sr, 1_000_000);
        } else if t0 <= t2 {
            assert((t2 - t0) * sr >= 0) by (nonlinear_arith)
                requires
                    t0 <= t2,
                    sr >= 1,
            ;
            vstd::arithmetic::div_mod::lemma_div_pos_is_pos((t2 - t0) * sr, 1_000_000);
        }
    }
}

/// A seek while stopped or paused, followed by a status query, reports
/// exactly the clamped seek target with playback off: the engine `seek`
/// leaves behind is the one written here, and its snapshot positions at the
/// target whatever the wall clock says.
pub proof fn lemma_seek_then_status(eng: Engine, target: u64, now_micros: u64)
    requires
        eng.wf(),
        !(eng.state is Playing),
    ensures
        ({
            let sought = Engine {
                pos_frames: seek_pos(eng.total_frames, target),
                play_started_at: None,
                ..eng
            };
            &&& shared_position(sought.snapshot_spec(), now_micros as int) == seek_pos(
                eng.total_frames,
                target,
            )
            &&& !sought.snapshot_spec().is_playing
        }),
        eng.total_frames > 0 ==> seek_pos(eng.total_frames, target) == if target
            < eng.total_frames {
            target
        } else {
            eng.total_frames
        },
{
}

/// `play` then `pause` after elapsed wall-clock time freezes the position
/// at that time converted to frames, rounded to the nearest frame: for an
/// engine started from position zero with unknown duration, the frozen
/// position in frames differs from the exact elapsed time by at most half
/// a frame (half a million in frame-microseconds).
pub proof fn lemma_play_pause_elapsed(eng: Engine, t0: u64, t1: u64)
    requires
        eng.wf(),
        eng.pos_frames == 0,
        eng.total_frames == 0,
        t0 <= t1,
        t1 <= MAX_INSTANT_MICROS,
    ensures
        ({
            let frozen = folded_pos(0, 0, t0 as int, t1 as int, eng.out_sr as int);
            &&& frozen as int == ((t1 - t0) * eng.out_sr as int + 500_000) / 1_000_000
            &&& crate::fixed::abs_of(
                frozen as int * 1_000_000 - (t1 - t0) * eng.out_sr as int,
            ) <= 500_000
        }),
{
    let dt = t1 - t0;
    let sr = eng.out_sr as int;
    let x = dt * sr;
    assert(0 <= dt * sr && dt * sr <= 0x1000_0000_0000 * 400000) by (nonlinear_arith)
        requires
            0 <= dt <= 0x1000_0000_0000,
            0 <= sr <= 400000,
    ;
    let e = (x + 500_000) / 1_000_000;
    vstd::arithmetic::div_mod::lemma_div_is_ordered(
        x + 500_000,
        0x1000_0000_0000int * 400000 + 500_000,
        1_000_000,
    );
    vstd::arithmetic::div_mod::lemma_div_pos_is_pos(x + 500_000, 1_000_000);
    assert((0x1000_0000_0000int * 400000 + 500_000) / 1_000_000 < MAX_POSITION_FRAMES as int);
    vstd::arithmetic::div_mod::lemma_fundamental_div_mod(x + 500_000, 1_000_000);
    vstd::arithmetic::div_mod::lemma_mod_bound(x + 500_000, 1_000_000);
}

/// After a dispose, a status query reports position zero and no playback,
/// whatever the wall clock says; and because the track list is empty, the
/// `play` contract turns every subsequent `play` without a fresh load into
/// an error.
pub proof fn lemma_dispose_then_status(eng: Engine, disposed: Engine, now_micros: u64)
    requires
        disposed.pos_frames == 0,
        !(disposed.state is Playing),
        disposed.paths@.len() == 0,
    ensures
        shared_position(disposed.snapshot_spec(), now_micros as int) == 0,
        !disposed.snapshot_spec().is_playing,
{
}

/// Playing twice in a row without an intervening pause, stop or seek
/// changes nothing the second time: each successful `play` outcome leaves
/// the engine `Playing` with its track list intact, and on a `Playing`
/// engine the `play` contract pins the next call to return `SinkOp::Keep`
/// and leave the engine untouched — same position, no second sink.
pub proof fn lemma_play_idempotent(pre: Engine, post: Engine, now_micros: u64)
    requires
        pre.wf(),
        pre.paths@.len() > 0,
        (pre.state is Playing && post == pre) || post == (Engine {
            state: PlayState::Playing,
            sink_paused: false,
            play_started_at: Some(now_micros),
            ..pre
        }) || post == (Engine {
            state: PlayState::Playing,
            has_sink: true,
            sink_paused: false,
            play_started_at: Some(now_micros),
            ..pre
        }),
    ensures
        post.state is Playing,
        post.paths@.len() > 0,
        post.pos_frames == pre.pos_frames,
{
}

/// Computes the status a snapshot yields at the given instant: the frozen
/// base plus, while playing, the whole frames elapsed since the anchor.
pub fn status_at(sh: &Shared, now_micros: u64) -> (st: AudioStatus)
    requires
        now_micros <= MAX_INSTANT_MICROS,
        sh.pos_frames_base <= MAX_POSITION_FRAMES,
        sh.out_sample_rate <= crate::track::MAX_RATE,
    ensures
        st.position_frames as int == shared_position(*sh, now_micros as int),
        st.is_playing == sh.is_playing,
        st.out_sample_rate == sh.out_sample_rate,
{
    let sr: u32 = if sh.out_sample_rate >= 1 {
        sh.out_sample_rate
    } else {
        1
    };
    let mut pos: u64 = sh.pos_frames_base;
    if sh.is_playing {
        if sh.play_started_at_micros.is_some() {
            let t0 = *sh.play_started_at_micros.as_ref().unwrap();
            if t0 <= now_micros {
                let dt = now_micros - t0;
                proof {
                    assert(dt as int * (sr as int) <= 0x1000_0000_0000 * 400000)
                        by (nonlinear_arith)
                        requires
                            0 <= dt as int <= 0x1000_0000_0000,
                            0 <= sr as int <= 400000,
                    ;
                }
                let adv128: u128 = ((dt as u128) * (sr as u128)) / 1_000_000;
                pos = pos + (adv128 as u64);
            }
        }
    }
    AudioStatus { position_frames: pos, out_sample_rate: sh.out_sample_rate, is_playing: sh.is_playing }
}

} // verus!
