//! Wire protocol of the instrument: frame delimiters and the meaning of a
//! buffered byte sequence.
//!
//! A frame is either 5 bytes (`START`, channel byte, value high, value low,
//! `STOP`) or 6 bytes when the firmware marks a hardware trigger (`START`,
//! channel byte, value high, value low, `TRIGGER`, `STOP`).  A tentative
//! frame starting at a `START` byte is taken to be long exactly when the
//! byte at offset 4 equals `TRIGGER`; the decoder then requires `STOP` at
//! offset 5, otherwise at offset 4.  Resynchronization drops one leading
//! byte at a time.

use vstd::prelude::*;

verus! {

/// First byte of every frame.
pub const START_BYTE: u8 = 0xAA;

/// Last byte of every frame.
pub const STOP_BYTE: u8 = 0x55;

/// Marker immediately before `STOP` on frames that carry a hardware
/// trigger condition.
pub const TRIGGER_BYTE: u8 = 0xCC;

/// The fields carried by one well-formed wire frame, before any policy
/// (channel gating, trigger evaluation) is applied.
#[derive(Clone, Copy, Debug, PartialEq, Eq, Structural)]
pub struct WireFrame {
    /// Channel number, the low 2 bits of the channel byte; always in [0, 3].
    pub channel: u8,
    /// Big-endian 16-bit payload, to be reinterpreted as signed for scaling.
    pub raw_value: u16,
    /// Whether the frame carried the in-band `TRIGGER` marker.
    pub wire_trigger: bool,
}

/// The frame denoted by a byte sequence whose head is a complete, valid
/// candidate (`START` at offset 0, `STOP` at the expected offset).
pub open spec fn frame_fields(s: Seq<u8>, trig: bool) -> WireFrame {
    WireFrame {
        channel: s[1] & 0x03,
        raw_value: ((s[2] as u16) << 8) | (s[3] as u16),
        wire_trigger: trig,
    }
}

/// All frames recovered from `s` by one exhaustive decoding pass, in
/// arrival order: garbage before a `START` byte is skipped one byte at a
/// time, a candidate whose terminal byte is not `STOP` loses only its
/// leading `START` byte, and decoding stops once fewer than 5 bytes remain.
pub open spec fn parse_frames(s: Seq<u8>) -> Seq<WireFrame>
    decreases s.len(),
{
    if s.len() < 5 {
        Seq::empty()
    } else if s[0] != START_BYTE {
        parse_frames(s.skip(1))
    } else if s.len() >= 6 && s[4] == TRIGGER_BYTE {
        if s[5] == STOP_BYTE {
            seq![frame_fields(s, true)] + parse_frames(s.skip(6))
        } else {
            parse_frames(s.skip(1))
        }
    } else if s[4] == STOP_BYTE {
        seq![frame_fields(s, false)] + parse_frames(s.skip(5))
    } else {
        parse_frames(s.skip(1))
    }
}

/// The bytes an exhaustive decoding pass leaves buffered: the unconsumed
/// tail of `s`, always shorter than 5 bytes or left mid-candidate.
pub open spec fn parse_rest(s: Seq<u8>) -> Seq<u8>
    decreases s.len(),
{
    if s.len() < 5 {
        s
    } else if s[0] != START_BYTE {
        parse_rest(s.skip(1))
    } else if s.len() >= 6 && s[4] == TRIGGER_BYTE {
        if s[5] == STOP_BYTE {
            parse_rest(s.skip(6))
        } else {
            parse_rest(s.skip(1))
        }
    } else if s[4] == STOP_BYTE {
        parse_rest(s.skip(5))
    } else {
        parse_rest(s.skip(1))
    }
}

/// A frame whose channel fits the protocol's 2-bit field.
pub open spec fn wf_frame(f: WireFrame) -> bool {
    f.channel < 4
}

/// The byte encoding of a frame as the firmware sends it.
pub open spec fn encode_frame(f: WireFrame) -> Seq<u8> {
    let hi = (f.raw_value >> 8) as u8;
    let lo = (f.raw_value & 0xFF) as u8;
    if f.wire_trigger {
        seq![START_BYTE, f.channel, hi, lo, TRIGGER_BYTE, STOP_BYTE]
    } else {
        seq![START_BYTE, f.channel, hi, lo, STOP_BYTE]
    }
}

/// A byte sequence that can sit between frames without being mistaken for
/// the start of one: it contains no `START` byte.
pub open spec fn garbage_free(s: Seq<u8>) -> bool {
    forall|i: int| 0 <= i < s.len() ==> s[i] != START_BYTE
}

/// A stream of `fs.len()` encoded frames with garbage spans between them:
/// `gs[0]`, then the first frame, then `gs[1]`, and so on, ending with
/// `gs[fs.len()]`.
pub open spec fn interleaved_stream(fs: Seq<WireFrame>, gs: Seq<Seq<u8>>) -> Seq<u8>
    recommends
        gs.len() == fs.len() + 1,
    decreases fs.len(),
{
    if fs.len() == 0 {
        gs[0]
    } else {
        gs[0] + encode_frame(fs[0]) + interleaved_stream(fs.skip(1), gs.skip(1))
    }
}

/// Every frame a decoding pass recovers has its channel within the
/// protocol's 2-bit field range.
pub proof fn lemma_parse_frames_wf(s: Seq<u8>)
    ensures
        forall|i: int| 0 <= i < parse_frames(s).len() ==> wf_frame(#[trigger] parse_frames(s)[i]),
    decreases s.len(),
{
    let b = s[1];
    assert(b & 0x03 < 4) by (bit_vector);
    if s.len() < 5 {
        assert(parse_frames(s).len() == 0);
    } else if s[0] != START_BYTE {
        lemma_parse_frames_wf(s.skip(1));
        assert(parse_frames(s) == parse_frames(s.skip(1)));
    } else if s.len() >= 6 && s[4] == TRIGGER_BYTE {
        if s[5] == STOP_BYTE {
            lemma_parse_frames_wf(s.skip(6));
            assert(parse_frames(s) == seq![frame_fields(s, true)] + parse_frames(s.skip(6)));
            let tail = parse_frames(s.skip(6));
            assert forall|i: int| 0 <= i < parse_frames(s).len() implies wf_frame(
                #[trigger] parse_frames(s)[i],
            ) by {
                if i > 0 {
                    assert(parse_frames(s)[i] == tail[i - 1]);
                }
            }
        } else {
            lemma_parse_frames_wf(s.skip(1));
            assert(parse_frames(s) == parse_frames(s.skip(1)));
        }
    } else if s[4] == STOP_BYTE {
        lemma_parse_frames_wf(s.skip(5));
        assert(parse_frames(s) == seq![frame_fields(s, false)] + parse_frames(s.skip(5)));
        let tail = parse_frames(s.skip(5));
        assert forall|i: int| 0 <= i < parse_frames(s).len() implies wf_frame(
            #[trigger] parse_frames(s)[i],
        ) by {
            if i > 0 {
                assert(parse_frames(s)[i] == tail[i - 1]);
            }
        }
    } else {
        lemma_parse_frames_wf(s.skip(1));
        assert(parse_frames(s) == parse_frames(s.skip(1)));
    }
}

/// A garbage span that contains no `START` byte never yields a frame.
pub proof fn lemma_parse_only_garbage(g: Seq<u8>)
    requires
        garbage_free(g),
    ensures
        parse_frames(g) == Seq::<WireFrame>::empty(),
    decreases g.len(),
{
    if g.len() >= 5 {
        lemma_parse_only_garbage(g.skip(1));
    }
}

/// A decoding pass consumes everything it can: it leaves fewer than 5
/// bytes behind, so a second pass over the remainder decodes nothing and
/// changes nothing.  Decoding may thus be called repeatedly, with an
/// incomplete trailing frame carried untouched from call to call.
pub proof fn lemma_second_pass_is_noop(s: Seq<u8>)
    ensures
        parse_rest(s).len() < 5,
        parse_frames(parse_rest(s)) == Seq::<WireFrame>::empty(),
        parse_rest(parse_rest(s)) == parse_rest(s),
    decreases s.len(),
{
    if s.len() < 5 {
    } else if s[0] != START_BYTE {
        lemma_second_pass_is_noop(s.skip(1));
    } else if s.len() >= 6 && s[4] == TRIGGER_BYTE {
        if s[5] == STOP_BYTE {
            lemma_second_pass_is_noop(s.skip(6));
        } else {
            lemma_second_pass_is_noop(s.skip(1));
        }
    } else if s[4] == STOP_BYTE {
        lemma_second_pass_is_noop(s.skip(5));
    } else {
        lemma_second_pass_is_noop(s.skip(1));
    }
}

/// Garbage without a `START` byte ahead of at least one frame's worth of
/// data is skipped without affecting what is decoded or what remains.
pub proof fn lemma_parse_skip_garbage(g: Seq<u8>, t: Seq<u8>)
    requires
        garbage_free(g),
        t.len() >= 5,
    ensures
        parse_frames(g + t) == parse_frames(t),
        parse_rest(g + t) == parse_rest(t),
    decreases g.len(),
{
    if g.len() == 0 {
        assert(g + t =~= t);
    } else {
        let s = g + t;
        assert(s[0] == g[0]);
        assert(s.skip(1) =~= g.skip(1) + t);
        lemma_parse_skip_garbage(g.skip(1), t);
    }
}

/// A complete, well-formed frame at the head of the buffer is decoded
/// exactly, and decoding continues on the bytes after it.
pub proof fn lemma_parse_frame_prefix(f: WireFrame, t: Seq<u8>)
    requires
        wf_frame(f),
    ensures
        parse_frames(encode_frame(f) + t) == seq![f] + parse_frames(t),
        parse_rest(encode_frame(f) + t) == parse_rest(t),
{
    let s = encode_frame(f) + t;
    let c = f.channel;
    let r = f.raw_value;
    assert(c & 0x03 == c) by (bit_vector)
        requires
            c < 4,
    ;
    assert(((((r >> 8) as u8) as u16) << 8) | (((r & 0xFF) as u8) as u16) == r) by (bit_vector);
    if f.wire_trigger {
        assert(s.len() >= 6 && s[4] == TRIGGER_BYTE && s[5] == STOP_BYTE);
        assert(frame_fields(s, true) == f);
        assert(s.skip(6) =~= t);
    } else {
        assert(s[4] == STOP_BYTE && s[4] != TRIGGER_BYTE);
        assert(frame_fields(s, false) == f);
        assert(s.skip(5) =~= t);
    }
}

/// For any byte stream of well-formed frames interleaved with garbage
/// spans free of the `START` byte, one decoding pass over the whole stream
/// yields exactly those frames, in order.  (A stray `START` byte inside
/// garbage can swallow a following frame, so the spans must be free of
/// it.)
pub proof fn lemma_interleaved_stream_recovered(fs: Seq<WireFrame>, gs: Seq<Seq<u8>>)
    requires
        gs.len() == fs.len() + 1,
        forall|i: int| 0 <= i < gs.len() ==> garbage_free(#[trigger] gs[i]),
        forall|i: int| 0 <= i < fs.len() ==> wf_frame(#[trigger] fs[i]),
    ensures
        parse_frames(interleaved_stream(fs, gs)) == fs,
    decreases fs.len(),
{
    if fs.len() == 0 {
        lemma_parse_only_garbage(gs[0]);
        assert(parse_frames(interleaved_stream(fs, gs)) =~= fs);
    } else {
        let rest = interleaved_stream(fs.skip(1), gs.skip(1));
        let t = encode_frame(fs[0]) + rest;
        assert(gs[0] + encode_frame(fs[0]) + rest =~= gs[0] + t);
        lemma_parse_skip_garbage(gs[0], t);
        lemma_parse_frame_prefix(fs[0], rest);
        lemma_interleaved_stream_recovered(fs.skip(1), gs.skip(1));
        assert(seq![fs[0]] + fs.skip(1) =~= fs);
    }
}

/// A single corrupted byte in place of a short frame's `STOP` marker costs
/// exactly that candidate: the decoder drops it and decodes the rest of
/// the stream as if the candidate were absent.  The corrupted byte must
/// not itself be a `STOP` (the candidate would be valid), a `TRIGGER` (the
/// candidate would be read as a long frame), or a `START`, and the
/// candidate's interior bytes must not be `START` either.
pub proof fn lemma_corrupted_frame_dropped(b1: u8, b2: u8, b3: u8, x: u8, t: Seq<u8>)
    requires
        x != STOP_BYTE,
        x != TRIGGER_BYTE,
        x != START_BYTE,
        b1 != START_BYTE,
        b2 != START_BYTE,
        b3 != START_BYTE,
        t.len() >= 5,
    ensures
        parse_frames(seq![START_BYTE, b1, b2, b3, x, STOP_BYTE] + t) == parse_frames(t),
{
    let s = seq![START_BYTE, b1, b2, b3, x, STOP_BYTE] + t;
    assert(s[0] == START_BYTE && s[4] == x);
    let g = seq![b1, b2, b3, x, STOP_BYTE];
    assert(s.skip(1) =~= g + t);
    lemma_parse_skip_garbage(g, t);
}

} // verus!
