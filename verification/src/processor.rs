//! The stateful byte-to-sample decoder with its channel and trigger
//! policy.
//!
//! [`PacketProcessor`] owns the frame buffer exclusively: the acquisition
//! loop appends raw bytes at the tail, and a decoding pass removes bytes
//! from the head, resynchronizing on the `START` marker as
//! [`crate::protocol::parse_frames`] specifies.  On top of the decoded
//! frames it applies the active-channel set (at most 2 of 4) and the
//! trigger latch: with triggering enabled, nothing is retained until the
//! configured edge condition is first observed, after which capture stays
//! unconditional until the trigger is reconfigured.

use vstd::prelude::*;
use std::collections::VecDeque;
use crate::protocol::START_BYTE;
use crate::protocol::STOP_BYTE;
use crate::protocol::TRIGGER_BYTE;
use crate::protocol::WireFrame;
use crate::protocol::frame_fields;
use crate::protocol::parse_frames;
use crate::protocol::parse_rest;
use crate::protocol::wf_frame;
use crate::protocol::lemma_parse_frames_wf;
use crate::sample::AdcSample;
use crate::sample::TriggerConfig;
use crate::sample::signed_value;
use crate::sample::signed_of_raw;
use crate::clock::now_nanos;

verus! {

/// Whether `ch` is a channel that the active set `a` lets through.
pub open spec fn active_at(a: Seq<bool>, ch: u8) -> bool {
    ch < 4 && a[ch as int]
}

/// Whether a frame is classified as the configured trigger event: with
/// triggering enabled and the frame on the trigger channel, the signed
/// payload is compared against the level (strictly above for a rising
/// edge, strictly below for a falling one); otherwise the wire-level
/// trigger marker is passed through.
pub open spec fn frame_trigger_point(cfg: TriggerConfig, f: WireFrame) -> bool {
    if cfg.enabled && f.channel == cfg.channel {
        if cfg.rising_edge {
            signed_value(f.raw_value) > cfg.level_raw as int
        } else {
            signed_value(f.raw_value) < cfg.level_raw as int
        }
    } else {
        f.wire_trigger
    }
}

/// The trigger gate after one active-channel frame: once open it stays
/// open, and it opens when triggering is enabled and the frame is a
/// trigger point.
pub open spec fn gate_after_frame(cfg: TriggerConfig, gate: bool, f: WireFrame) -> bool {
    gate || (cfg.enabled && frame_trigger_point(cfg, f))
}

/// The trigger latch after a whole sequence of decoded frames; frames on
/// inactive channels are discarded before trigger evaluation and leave
/// the latch as it was.
pub open spec fn gate_after_frames(
    fs: Seq<WireFrame>,
    a: Seq<bool>,
    cfg: TriggerConfig,
    gate: bool,
) -> bool
    decreases fs.len(),
{
    if fs.len() == 0 {
        gate
    } else if active_at(a, fs[0].channel) {
        gate_after_frames(fs.skip(1), a, cfg, gate_after_frame(cfg, gate, fs[0]))
    } else {
        gate_after_frames(fs.skip(1), a, cfg, gate)
    }
}

/// The frames a decoding pass accepts, each paired with its effective
/// trigger flag: inactive channels are dropped first; then, with
/// triggering enabled, a frame is retained only once the latch has opened
/// (the frame that opens it included), and with triggering disabled every
/// remaining frame is retained with its wire-level flag.
pub open spec fn accepted_frames(
    fs: Seq<WireFrame>,
    a: Seq<bool>,
    cfg: TriggerConfig,
    gate: bool,
) -> Seq<(WireFrame, bool)>
    decreases fs.len(),
{
    if fs.len() == 0 {
        Seq::empty()
    } else if !active_at(a, fs[0].channel) {
        accepted_frames(fs.skip(1), a, cfg, gate)
    } else {
        let tp = frame_trigger_point(cfg, fs[0]);
        let g2 = gate_after_frame(cfg, gate, fs[0]);
        let tail = accepted_frames(fs.skip(1), a, cfg, g2);
        if !cfg.enabled || g2 {
            seq![(fs[0], tp)] + tail
        } else {
            tail
        }
    }
}

/// How many accepted pairs lie on channel `c`.
pub open spec fn count_on_channel(acc: Seq<(WireFrame, bool)>, c: int) -> int
    decreases acc.len(),
{
    if acc.len() == 0 {
        0
    } else {
        (if acc[0].0.channel == c {
            1int
        } else {
            0int
        }) + count_on_channel(acc.skip(1), c)
    }
}

/// Addition clamped at the largest counter value.
pub open spec fn sat_add_usize(a: int, b: int) -> int {
    if a + b <= usize::MAX as int {
        a + b
    } else {
        usize::MAX as int
    }
}

/// How many of the flags are set.
pub open spec fn count_true(s: Seq<bool>) -> int
    decreases s.len(),
{
    if s.len() == 0 {
        0
    } else {
        (if s[0] {
            1int
        } else {
            0int
        }) + count_true(s.skip(1))
    }
}

/// The active-channel set actually applied for a requested one: at most 2
/// of 4 channels may be active, so when more are requested only the two
/// with the lowest indices are kept; a request of 2 or fewer is applied
/// as it is.
pub open spec fn normalized_channels(req: Seq<bool>) -> Seq<bool> {
    let t2 = (if req[0] {
        1int
    } else {
        0int
    }) + (if req[1] {
        1int
    } else {
        0int
    });
    let t3 = t2 + (if req[2] {
        1int
    } else {
        0int
    });
    seq![req[0], req[1], req[2] && t2 < 2, req[3] && t3 < 2]
}

/// What one candidate packet decodes to: `None` unless it is delimited by
/// `START` and `STOP`, else the channel from the low 2 bits of the channel
/// byte, the big-endian payload, and the wire-level trigger marker of a
/// long packet.
pub open spec fn decode_packet_spec(p: Seq<u8>) -> Option<WireFrame>
    recommends
        p.len() == 5 || p.len() == 6,
{
    if p[0] != START_BYTE || p[p.len() - 1] != STOP_BYTE {
        None
    } else {
        Some(
            WireFrame {
                channel: p[1] & 0x03,
                raw_value: ((p[2] as u16) << 8) | (p[3] as u16),
                wire_trigger: p.len() > 5 && p[4] == TRIGGER_BYTE,
            },
        )
    }
}

/// The 6-byte command that conveys a trigger configuration to the
/// firmware: `START`, the command code, the enable bit and channel packed
/// in one byte, the level in raw counts big-endian, and the edge type.
pub open spec fn trigger_command_bytes(cfg: TriggerConfig) -> Seq<u8> {
    let packed: u8 = (if cfg.enabled {
        0x10u8
    } else {
        0u8
    }) | (cfg.channel & 0x03);
    let bits = cfg.level_raw as u16;
    seq![
        START_BYTE,
        0xFE,
        packed,
        (bits >> 8) as u8,
        (bits & 0xFF) as u8,
        (if cfg.rising_edge {
            1u8
        } else {
            0u8
        }),
    ]
}

/// Builds the firmware command for a trigger configuration.  Sending it
/// over the transport is the caller's concern.
pub fn encode_trigger_command(cfg: &TriggerConfig) -> (cmd: Vec<u8>)
    ensures
        cmd@ == trigger_command_bytes(*cfg),
{
    let packed: u8 = (if cfg.enabled {
        0x10u8
    } else {
        0u8
    }) | (cfg.channel & 0x03);
    let bits: u16 = cfg.level_raw as u16;
    let edge: u8 = if cfg.rising_edge {
        1
    } else {
        0
    };
    let cmd: Vec<u8> = vec![START_BYTE, 0xFE, packed, (bits >> 8) as u8, (bits & 0xFF) as u8, edge];
    assert(cmd@ =~= trigger_command_bytes(*cfg));
    cmd
}

/// The stateful protocol decoder, with the channel and trigger policy a
/// decoding pass applies to what it recovers.
pub struct PacketProcessor {
    buffer: VecDeque<u8>,
    samples_received: usize,
    channel_counts: [usize; 4],
    active_channels: [bool; 4],
    trigger_config: TriggerConfig,
    gate_open: bool,
    last_timestamp: u128,
}

impl PacketProcessor {
    /// The bytes currently buffered and not yet consumed by decoding.
    pub closed spec fn buffered(&self) -> Seq<u8> {
        self.buffer@
    }

    /// The active-channel set in force (always 4 flags).
    pub closed spec fn active(&self) -> Seq<bool> {
        self.active_channels@
    }

    /// The trigger policy in force.
    pub closed spec fn config(&self) -> TriggerConfig {
        self.trigger_config
    }

    /// Whether the trigger gate has latched open.
    pub closed spec fn gate(&self) -> bool {
        self.gate_open
    }

    /// How many samples have been accepted altogether (clamped).
    pub closed spec fn received(&self) -> usize {
        self.samples_received
    }

    /// Per-channel accepted-sample counters (always 4, each clamped).
    pub closed spec fn counts(&self) -> Seq<usize> {
        self.channel_counts@
    }

    /// The timestamp of the last emitted sample; never decreases.
    pub closed spec fn last_ts(&self) -> u128 {
        self.last_timestamp
    }

    /// The shapes hidden behind the spec accessors.
    pub proof fn lemma_shape(&self)
        ensures
            self.active().len() == 4,
            self.counts().len() == 4,
    {
    }

    /// A fresh decoder: empty buffer, zero counters, channels 0 and 1
    /// active, trigger disabled, gate closed.
    pub fn new() -> (r: Self)
        ensures
            r.buffered() == Seq::<u8>::empty(),
            r.received() == 0,
            r.counts() =~= seq![0usize, 0usize, 0usize, 0usize],
            r.active() =~= seq![true, true, false, false],
            !r.config().enabled,
            r.config().channel == 0,
            r.config().level_raw == 0,
            r.config().rising_edge,
            !r.gate(),
            r.last_ts() == 0,
    {
        Self {
            buffer: VecDeque::with_capacity(1024),
            samples_received: 0,
            channel_counts: [0, 0, 0, 0],
            active_channels: [true, true, false, false],
            trigger_config: TriggerConfig { enabled: false, channel: 0, level_raw: 0, rising_edge: true },
            gate_open: false,
            last_timestamp: 0,
        }
    }

    /// Appends raw input at the tail of the frame buffer; no parsing
    /// happens until the next decoding pass.
    pub fn add_bytes(&mut self, bytes: &[u8])
        ensures
            final(self).buffered() == old(self).buffered() + bytes@,
            final(self).active() == old(self).active(),
            final(self).config() == old(self).config(),
            final(self).gate() == old(self).gate(),
            final(self).received() == old(self).received(),
            final(self).counts() == old(self).counts(),
            final(self).last_ts() == old(self).last_ts(),
    {
        let mut i: usize = 0;
        while i < bytes.len()
            invariant
                i <= bytes.len(),
                self.buffer@ == old(self).buffer@ + bytes@.take(i as int),
                self.active_channels == old(self).active_channels,
                self.trigger_config == old(self).trigger_config,
                self.gate_open == old(self).gate_open,
                self.samples_received == old(self).samples_received,
                self.channel_counts == old(self).channel_counts,
                self.last_timestamp == old(self).last_timestamp,
            decreases bytes.len() - i,
        {
            self.buffer.push_back(bytes[i]);
            proof {
                assert(old(self).buffer@ + bytes@.take(i as int) + seq![bytes@[i as int]]
                    =~= old(self).buffer@ + bytes@.take(i as int + 1));
            }
            i += 1;
        }
        proof {
            assert(bytes@.take(bytes@.len() as int) =~= bytes@);
        }
    }

    /// Applies a requested active-channel set, normalized so that at most
    /// 2 of the 4 channels stay active (the lowest-index requested ones).
    pub fn set_active_channels(&mut self, channels: [bool; 4])
        ensures
            final(self).active() == normalized_channels(channels@),
            final(self).buffered() == old(self).buffered(),
            final(self).config() == old(self).config(),
            final(self).gate() == old(self).gate(),
            final(self).received() == old(self).received(),
            final(self).counts() == old(self).counts(),
            final(self).last_ts() == old(self).last_ts(),
    {
        let t2: u32 = (if channels[0] {
            1u32
        } else {
            0u32
        }) + (if channels[1] {
            1u32
        } else {
            0u32
        });
        let t3: u32 = t2 + (if channels[2] {
            1u32
        } else {
            0u32
        });
        self.active_channels = [channels[0], channels[1], channels[2] && t2 < 2, channels[3] && t3 < 2];
        proof {
            assert(self.active_channels@ =~= normalized_channels(channels@));
        }
    }

    /// Replaces the trigger policy wholesale and closes the latch again:
    /// with the new policy enabled, nothing is retained until its edge
    /// condition is next observed.
    pub fn configure_trigger(&mut self, config: TriggerConfig)
        ensures
            final(self).config() == config,
            !final(self).gate(),
            final(self).buffered() == old(self).buffered(),
            final(self).active() == old(self).active(),
            final(self).received() == old(self).received(),
            final(self).counts() == old(self).counts(),
            final(self).last_ts() == old(self).last_ts(),
    {
        self.trigger_config = config;
        self.gate_open = false;
    }

    /// Discards any partial frame and closes the latch, for use when the
    /// transport reconnects: stale bytes of a dead connection must never
    /// be stitched to a new connection's, and the trigger must be
    /// observed anew.  Configuration and statistics survive.
    pub fn reset_stream(&mut self)
        ensures
            final(self).buffered() == Seq::<u8>::empty(),
            !final(self).gate(),
            final(self).active() == old(self).active(),
            final(self).config() == old(self).config(),
            final(self).received() == old(self).received(),
            final(self).counts() == old(self).counts(),
            final(self).last_ts() == old(self).last_ts(),
    {
        self.buffer.clear();
        self.gate_open = false;
    }

    /// Total and per-channel counts of accepted samples.
    pub fn get_stats(&self) -> (r: (usize, [usize; 4]))
        ensures
            r.0 == self.received(),
            r.1@ == self.counts(),
    {
        (self.samples_received, self.channel_counts)
    }

    /// The active-channel set in force.
    pub fn get_active_channels(&self) -> (r: [bool; 4])
        ensures
            r@ == self.active(),
    {
        self.active_channels
    }

    /// The trigger policy in force.
    pub fn get_trigger_config(&self) -> (r: TriggerConfig)
        ensures
            r == self.config(),
    {
        self.trigger_config
    }

    /// Decodes one extracted candidate packet, validating its delimiters;
    /// a corrupted candidate yields no sample rather than an error.
    fn decode_packet(packet: &[u8]) -> (r: Option<WireFrame>)
        requires
            packet@.len() == 5 || packet@.len() == 6,
        ensures
            r == decode_packet_spec(packet@),
    {
        if packet[0] != START_BYTE || packet[packet.len() - 1] != STOP_BYTE {
            return None;
        }
        let channel: u8 = packet[1] & 0x03;
        let raw: u16 = ((packet[2] as u16) << 8) | (packet[3] as u16);
        let is_trigger: bool = packet.len() > 5 && packet[4] == TRIGGER_BYTE;
        Some(WireFrame { channel, raw_value: raw, wire_trigger: is_trigger })
    }

    /// One exhaustive framing pass: recovers every complete valid frame
    /// in arrival order, resynchronizing over garbage and corrupted
    /// candidates, and leaves an incomplete trailing frame buffered.
    fn drain_frames(&mut self) -> (frames: Vec<WireFrame>)
        ensures
            frames@ == parse_frames(old(self).buffered()),
            final(self).buffered() == parse_rest(old(self).buffered()),
            final(self).active() == old(self).active(),
            final(self).config() == old(self).config(),
            final(self).gate() == old(self).gate(),
            final(self).received() == old(self).received(),
            final(self).counts() == old(self).counts(),
            final(self).last_ts() == old(self).last_ts(),
    {
        let ghost buf0 = self.buffer@;
        let mut frames: Vec<WireFrame> = Vec::new();
        while self.buffer.len() >= 5
            invariant
                parse_frames(buf0) == frames@ + parse_frames(self.buffer@),
                parse_rest(buf0) == parse_rest(self.buffer@),
                self.active_channels == old(self).active_channels,
                self.trigger_config == old(self).trigger_config,
                self.gate_open == old(self).gate_open,
                self.samples_received == old(self).samples_received,
                self.channel_counts == old(self).channel_counts,
                self.last_timestamp == old(self).last_timestamp,
            decreases self.buffer.len(),
        {
            let ghost entry_len = self.buffer@.len();
            while self.buffer.len() >= 5 && self.buffer[0] != START_BYTE
                invariant
                    self.buffer@.len() <= entry_len,
                    parse_frames(buf0) == frames@ + parse_frames(self.buffer@),
                    parse_rest(buf0) == parse_rest(self.buffer@),
                    self.active_channels == old(self).active_channels,
                    self.trigger_config == old(self).trigger_config,
                    self.gate_open == old(self).gate_open,
                    self.samples_received == old(self).samples_received,
                    self.channel_counts == old(self).channel_counts,
                    self.last_timestamp == old(self).last_timestamp,
                decreases self.buffer.len(),
            {
                let ghost pre = self.buffer@;
                self.buffer.pop_front();
                proof {
                    assert(self.buffer@ =~= pre.skip(1));
                    assert(parse_frames(pre) == parse_frames(pre.skip(1)));
                    assert(parse_rest(pre) == parse_rest(pre.skip(1)));
                }
            }
            if self.buffer.len() >= 5 {
                let has_trigger: bool = self.buffer.len() >= 6 && self.buffer[4] == TRIGGER_BYTE;
                let packet_size: usize = if has_trigger {
                    6
                } else {
                    5
                };
                let stop_pos: usize = if has_trigger {
                    5
                } else {
                    4
                };
                if self.buffer[stop_pos] != STOP_BYTE {
                    let ghost pre = self.buffer@;
                    self.buffer.pop_front();
                    proof {
                        assert(self.buffer@ =~= pre.skip(1));
                        assert(parse_frames(pre) == parse_frames(pre.skip(1)));
                        assert(parse_rest(pre) == parse_rest(pre.skip(1)));
                    }
                } else {
                    let ghost pre = self.buffer@;
                    let ghost frames_pre = frames@;
                    let mut packet: Vec<u8> = Vec::new();
                    let mut i: usize = 0;
                    while i < packet_size
                        invariant
                            i <= packet_size,
                            packet_size == 5 || packet_size == 6,
                            packet_size <= pre.len(),
                            packet@ == pre.take(i as int),
                            self.buffer@ == pre.skip(i as int),
                            frames@ == frames_pre,
                            self.active_channels == old(self).active_channels,
                            self.trigger_config == old(self).trigger_config,
                            self.gate_open == old(self).gate_open,
                            self.samples_received == old(self).samples_received,
                            self.channel_counts == old(self).channel_counts,
                            self.last_timestamp == old(self).last_timestamp,
                        decreases packet_size - i,
                    {
                        let b = self.buffer.pop_front().unwrap();
                        packet.push(b);
                        proof {
                            assert(pre.take(i as int).push(pre[i as int]) =~= pre.take(
                                i as int + 1,
                            ));
                            assert(self.buffer@ =~= pre.skip(i as int + 1));
                        }
                        i += 1;
                    }
                    if let Some(f) = Self::decode_packet(packet.as_slice()) {
                        frames.push(f);
                    }
                    proof {
                        let size = packet_size as int;
                        assert(packet@ == pre.take(size));
                        let p = pre.take(size);
                        assert(p[0] == pre[0] && p[1] == pre[1] && p[2] == pre[2] && p[3] == pre[3]
                            && p[4] == pre[4]);
                        assert(p[size - 1] == pre[size - 1]);
                        assert(decode_packet_spec(p) == Some(frame_fields(pre, has_trigger)));
                        if has_trigger {
                            assert(parse_frames(pre) == seq![frame_fields(pre, true)]
                                + parse_frames(pre.skip(6)));
                            assert(parse_rest(pre) == parse_rest(pre.skip(6)));
                        } else {
                            assert(parse_frames(pre) == seq![frame_fields(pre, false)]
                                + parse_frames(pre.skip(5)));
                            assert(parse_rest(pre) == parse_rest(pre.skip(5)));
                        }
                        assert(frames@ =~= frames_pre.push(frame_fields(pre, has_trigger)));
                        assert(frames_pre + (seq![frame_fields(pre, has_trigger)] + parse_frames(
                            self.buffer@,
                        )) =~= frames@ + parse_frames(self.buffer@));
                    }
                }
            }
        }
        proof {
            assert(parse_frames(self.buffer@) =~= Seq::<WireFrame>::empty());
            assert(frames@ + parse_frames(self.buffer@) =~= frames@);
            assert(parse_rest(self.buffer@) == self.buffer@);
        }
        frames
    }

    /// One full decoding pass: recovers every complete buffered frame,
    /// routes each through the channel gate and the trigger policy, and
    /// returns the accepted samples in arrival order, stamped with a
    /// non-decreasing capture time.  Incomplete trailing input stays
    /// buffered; malformed input is dropped silently, never an error.
    pub fn process_packets(&mut self) -> (samples: Vec<AdcSample>)
        ensures
            ({
                let fs = parse_frames(old(self).buffered());
                let acc = accepted_frames(
                    fs,
                    old(self).active(),
                    old(self).config(),
                    old(self).gate(),
                );
                &&& final(self).buffered() == parse_rest(old(self).buffered())
                &&& final(self).gate() == gate_after_frames(
                    fs,
                    old(self).active(),
                    old(self).config(),
                    old(self).gate(),
                )
                &&& samples@.len() == acc.len()
                &&& forall|i: int|
                    0 <= i < acc.len() ==> (#[trigger] samples@[i]).channel == acc[i].0.channel
                        && samples@[i].raw_value == acc[i].0.raw_value && samples@[i].is_trigger
                        == acc[i].1
                &&& forall|i: int, j: int|
                    0 <= i <= j < acc.len() ==> #[trigger] samples@[i].timestamp
                        <= #[trigger] samples@[j].timestamp
                &&& forall|i: int|
                    0 <= i < acc.len() ==> old(self).last_ts() <= (#[trigger] samples@[i]).timestamp
                        <= final(self).last_ts()
                &&& acc.len() == 0 ==> final(self).last_ts() == old(self).last_ts()
                &&& final(self).received() as int == sat_add_usize(
                    old(self).received() as int,
                    acc.len() as int,
                )
                &&& forall|c: int|
                    0 <= c < 4 ==> (#[trigger] final(self).counts()[c]) as int == sat_add_usize(
                        old(self).counts()[c] as int,
                        count_on_channel(acc, c),
                    )
                &&& final(self).active() == old(self).active()
                &&& final(self).config() == old(self).config()
            }),
    {
        let ghost a0 = self.active_channels@;
        let ghost cfg0 = self.trigger_config;
        let ghost g0 = self.gate_open;
        let ghost ts0 = self.last_timestamp;
        let ghost rec0 = self.samples_received;
        let ghost counts0 = self.channel_counts@;
        proof {
            lemma_parse_frames_wf(self.buffer@);
        }
        let frames: Vec<WireFrame> = self.drain_frames();
        let ghost fs = frames@;
        let ghost rest0 = self.buffer@;
        let ghost acc = accepted_frames(fs, a0, cfg0, g0);
        let mut samples: Vec<AdcSample> = Vec::new();
        let ghost mut done: Seq<(WireFrame, bool)> = Seq::empty();
        let mut idx: usize = 0;
        proof {
            assert(fs.skip(0) =~= fs);
            assert(Seq::<(WireFrame, bool)>::empty() + accepted_frames(fs, a0, cfg0, g0) =~= acc);
        }
        while idx < frames.len()
            invariant
                idx <= fs.len(),
                frames@ == fs,
                forall|i: int| 0 <= i < fs.len() ==> wf_frame(#[trigger] fs[i]),
                self.buffer@ == rest0,
                self.active_channels@ == a0,
                self.trigger_config == cfg0,
                acc == done + accepted_frames(fs.skip(idx as int), a0, cfg0, self.gate_open),
                gate_after_frames(fs, a0, cfg0, g0) == gate_after_frames(
                    fs.skip(idx as int),
                    a0,
                    cfg0,
                    self.gate_open,
                ),
                samples@.len() == done.len(),
                forall|i: int|
                    0 <= i < done.len() ==> (#[trigger] samples@[i]).channel == done[i].0.channel
                        && samples@[i].raw_value == done[i].0.raw_value && samples@[i].is_trigger
                        == done[i].1,
                forall|i: int, j: int|
                    0 <= i <= j < done.len() ==> #[trigger] samples@[i].timestamp
                        <= #[trigger] samples@[j].timestamp,
                forall|i: int|
                    0 <= i < done.len() ==> ts0 <= (#[trigger] samples@[i]).timestamp
                        <= self.last_timestamp,
                ts0 <= self.last_timestamp,
                done.len() == 0 ==> self.last_timestamp == ts0,
                self.samples_received as int == sat_add_usize(rec0 as int, done.len() as int),
                self.channel_counts@.len() == 4,
                forall|c: int|
                    0 <= c < 4 ==> (#[trigger] self.channel_counts@[c]) as int == sat_add_usize(
                        counts0[c] as int,
                        count_on_channel(done, c),
                    ),
            decreases fs.len() - idx,
        {
            let f: WireFrame = frames[idx];
            proof {
                assert(fs.skip(idx as int)[0] == fs[idx as int]);
                assert(fs.skip(idx as int).skip(1) =~= fs.skip(idx as int + 1));
            }
            if self.active_channels[f.channel as usize] {
                let sv: i32 = signed_of_raw(f.raw_value);
                let cfg: TriggerConfig = self.trigger_config;
                let is_trigger_point: bool = if cfg.enabled && f.channel == cfg.channel {
                    if cfg.rising_edge {
                        sv > cfg.level_raw as i32
                    } else {
                        sv < cfg.level_raw as i32
                    }
                } else {
                    f.wire_trigger
                };
                proof {
                    assert(is_trigger_point == frame_trigger_point(cfg0, f));
                }
                if is_trigger_point && cfg.enabled {
                    self.gate_open = true;
                }
                if !cfg.enabled || self.gate_open {
                    let now: u128 = now_nanos();
                    let ts: u128 = if now > self.last_timestamp {
                        now
                    } else {
                        self.last_timestamp
                    };
                    self.last_timestamp = ts;
                    let s = AdcSample {
                        channel: f.channel,
                        raw_value: f.raw_value,
                        timestamp: ts,
                        is_trigger: is_trigger_point,
                    };
                    samples.push(s);
                    self.samples_received = if self.samples_received < usize::MAX {
                        self.samples_received + 1
                    } else {
                        self.samples_received
                    };
                    let c: usize = f.channel as usize;
                    let cur: usize = self.channel_counts[c];
                    self.channel_counts[c] = if cur < usize::MAX {
                        cur + 1
                    } else {
                        cur
                    };
                    proof {
                        let ghost done_pre = done;
                        done = done.push((f, is_trigger_point));
                        assert forall|cc: int| 0 <= cc < 4 implies count_on_channel(done, cc)
                            == count_on_channel(done_pre, cc) + (if f.channel == cc {
                            1int
                        } else {
                            0int
                        }) by {
                            lemma_count_snoc(done_pre, (f, is_trigger_point), cc);
                        }
                        assert(done_pre + (seq![(f, is_trigger_point)] + accepted_frames(
                            fs.skip(idx as int + 1),
                            a0,
                            cfg0,
                            self.gate_open,
                        )) =~= done + accepted_frames(
                            fs.skip(idx as int + 1),
                            a0,
                            cfg0,
                            self.gate_open,
                        ));
                    }
                }
            }
            idx += 1;
        }
        proof {
            assert(fs.skip(fs.len() as int) =~= Seq::<WireFrame>::empty());
            assert(accepted_frames(Seq::<WireFrame>::empty(), a0, cfg0, self.gate_open)
                =~= Seq::<(WireFrame, bool)>::empty());
            assert(done + Seq::<(WireFrame, bool)>::empty() =~= done);
            assert(acc == done);
        }
        samples
    }
}

/// The frames of `fs` that lie on an active channel, in order.
pub open spec fn active_only(fs: Seq<WireFrame>, a: Seq<bool>) -> Seq<WireFrame>
    decreases fs.len(),
{
    if fs.len() == 0 {
        Seq::empty()
    } else if active_at(a, fs[0].channel) {
        seq![fs[0]] + active_only(fs.skip(1), a)
    } else {
        active_only(fs.skip(1), a)
    }
}

/// Each frame paired with its trigger-point classification under `cfg`.
pub open spec fn with_flags(fs: Seq<WireFrame>, cfg: TriggerConfig) -> Seq<(WireFrame, bool)>
    decreases fs.len(),
{
    if fs.len() == 0 {
        Seq::empty()
    } else {
        seq![(fs[0], frame_trigger_point(cfg, fs[0]))] + with_flags(fs.skip(1), cfg)
    }
}

/// The suffix of `fs` from its first trigger point on; empty when no
/// frame qualifies.
pub open spec fn after_first_trigger(fs: Seq<WireFrame>, cfg: TriggerConfig) -> Seq<WireFrame>
    decreases fs.len(),
{
    if fs.len() == 0 {
        Seq::empty()
    } else if frame_trigger_point(cfg, fs[0]) {
        fs
    } else {
        after_first_trigger(fs.skip(1), cfg)
    }
}

/// Unfolds `with_flags` over a head frame.
proof fn lemma_with_flags_cons(f: WireFrame, rest: Seq<WireFrame>, cfg: TriggerConfig)
    ensures
        with_flags(seq![f] + rest, cfg) == seq![(f, frame_trigger_point(cfg, f))] + with_flags(
            rest,
            cfg,
        ),
{
    let s = seq![f] + rest;
    assert(s[0] == f);
    assert(s.skip(1) =~= rest);
    assert(s.len() > 0);
}

/// Only active-channel frames are ever accepted: everything a decoding
/// pass passes on to the sinks lies on an active channel.
pub proof fn lemma_accepted_active(fs: Seq<WireFrame>, a: Seq<bool>, cfg: TriggerConfig, gate: bool)
    ensures
        forall|i: int|
            0 <= i < accepted_frames(fs, a, cfg, gate).len() ==> active_at(
                a,
                (#[trigger] accepted_frames(fs, a, cfg, gate)[i]).0.channel,
            ),
    decreases fs.len(),
{
    if fs.len() == 0 {
    } else if !active_at(a, fs[0].channel) {
        lemma_accepted_active(fs.skip(1), a, cfg, gate);
        assert(accepted_frames(fs, a, cfg, gate) == accepted_frames(fs.skip(1), a, cfg, gate));
    } else {
        let g2 = gate_after_frame(cfg, gate, fs[0]);
        lemma_accepted_active(fs.skip(1), a, cfg, g2);
        let tail = accepted_frames(fs.skip(1), a, cfg, g2);
        if !cfg.enabled || g2 {
            assert(accepted_frames(fs, a, cfg, gate) == seq![
                (fs[0], frame_trigger_point(cfg, fs[0])),
            ] + tail);
            assert forall|i: int| 0 <= i < accepted_frames(fs, a, cfg, gate).len() implies active_at(
                a,
                (#[trigger] accepted_frames(fs, a, cfg, gate)[i]).0.channel,
            ) by {
                if i > 0 {
                    assert(accepted_frames(fs, a, cfg, gate)[i] == tail[i - 1]);
                }
            }
        } else {
            assert(accepted_frames(fs, a, cfg, gate) == tail);
        }
    }
}

/// With triggering disabled — or with the latch already open —
/// every active-channel frame is accepted, carrying its classification
/// (the wire-level flag when disabled): nothing beyond the channel gate
/// is filtered out.
pub proof fn lemma_gate_open_or_disabled(
    fs: Seq<WireFrame>,
    a: Seq<bool>,
    cfg: TriggerConfig,
    gate: bool,
)
    requires
        !cfg.enabled || gate,
    ensures
        accepted_frames(fs, a, cfg, gate) == with_flags(active_only(fs, a), cfg),
    decreases fs.len(),
{
    if fs.len() == 0 {
    } else if !active_at(a, fs[0].channel) {
        lemma_gate_open_or_disabled(fs.skip(1), a, cfg, gate);
    } else {
        let g2 = gate_after_frame(cfg, gate, fs[0]);
        lemma_gate_open_or_disabled(fs.skip(1), a, cfg, g2);
        lemma_with_flags_cons(fs[0], active_only(fs.skip(1), a), cfg);
    }
}

/// With triggering enabled and the latch still closed, a decoding pass
/// accepts exactly the active-channel frames from the first trigger
/// point on — the qualifying frame included, frames on other channels
/// after it included too — and nothing before it.
pub proof fn lemma_closed_gate_waits_for_trigger(fs: Seq<WireFrame>, a: Seq<bool>, cfg: TriggerConfig)
    requires
        cfg.enabled,
    ensures
        accepted_frames(fs, a, cfg, false) == with_flags(
            after_first_trigger(active_only(fs, a), cfg),
            cfg,
        ),
    decreases fs.len(),
{
    if fs.len() == 0 {
    } else if !active_at(a, fs[0].channel) {
        lemma_closed_gate_waits_for_trigger(fs.skip(1), a, cfg);
    } else {
        let f = fs[0];
        let ao = active_only(fs.skip(1), a);
        assert(active_only(fs, a) == seq![f] + ao);
        assert((seq![f] + ao)[0] == f);
        assert((seq![f] + ao).skip(1) =~= ao);
        if frame_trigger_point(cfg, f) {
            lemma_gate_open_or_disabled(fs.skip(1), a, cfg, true);
            lemma_with_flags_cons(f, ao, cfg);
            assert(after_first_trigger(seq![f] + ao, cfg) == seq![f] + ao);
        } else {
            lemma_closed_gate_waits_for_trigger(fs.skip(1), a, cfg);
            assert(after_first_trigger(seq![f] + ao, cfg) == after_first_trigger(ao, cfg));
        }
    }
}

/// Unfolds `count_true` over a 4-flag sequence.
pub proof fn lemma_count_true4(s: Seq<bool>)
    requires
        s.len() == 4,
    ensures
        count_true(s) == (if s[0] {
            1int
        } else {
            0int
        }) + (if s[1] {
            1int
        } else {
            0int
        }) + (if s[2] {
            1int
        } else {
            0int
        }) + (if s[3] {
            1int
        } else {
            0int
        }),
{
    let s1 = s.skip(1);
    let s2 = s.skip(2);
    let s3 = s.skip(3);
    assert(s1.skip(1) =~= s2);
    assert(s2.skip(1) =~= s3);
    assert(s3.skip(1) =~= Seq::<bool>::empty());
    assert(count_true(Seq::<bool>::empty()) == 0);
    assert(count_true(s3) == (if s[3] {
        1int
    } else {
        0int
    }));
    assert(count_true(s2) == (if s[2] {
        1int
    } else {
        0int
    }) + count_true(s3));
    assert(count_true(s1) == (if s[1] {
        1int
    } else {
        0int
    }) + count_true(s2));
}

/// Normalization never leaves more than 2 of the 4 channels active.
pub proof fn lemma_normalized_at_most_two(req: Seq<bool>)
    requires
        req.len() == 4,
    ensures
        normalized_channels(req).len() == 4,
        count_true(normalized_channels(req)) <= 2,
{
    lemma_count_true4(normalized_channels(req));
}

/// A request of at most 2 active channels is applied exactly as made.
pub proof fn lemma_normalized_small_identity(req: Seq<bool>)
    requires
        req.len() == 4,
        count_true(req) <= 2,
    ensures
        normalized_channels(req) == req,
{
    lemma_count_true4(req);
    assert(normalized_channels(req) =~= req);
}

/// Appending one pair to an accepted sequence raises exactly its own
/// channel's count by one.
proof fn lemma_count_snoc(acc: Seq<(WireFrame, bool)>, p: (WireFrame, bool), c: int)
    ensures
        count_on_channel(acc.push(p), c) == count_on_channel(acc, c) + (if p.0.channel == c {
            1int
        } else {
            0int
        }),
    decreases acc.len(),
{
    if acc.len() == 0 {
        assert(acc.push(p).skip(1) =~= Seq::<(WireFrame, bool)>::empty());
        assert(acc.push(p)[0] == p);
        assert(count_on_channel(Seq::<(WireFrame, bool)>::empty(), c) == 0);
        assert(acc =~= Seq::<(WireFrame, bool)>::empty());
    } else {
        assert(acc.push(p).skip(1) =~= acc.skip(1).push(p));
        assert(acc.push(p)[0] == acc[0]);
        lemma_count_snoc(acc.skip(1), p, c);
    }
}

} // verus!
