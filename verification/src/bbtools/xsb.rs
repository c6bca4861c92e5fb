//! Xbox sound banks (XSB): the cues, the sounds they play, the events of
//! those sounds and their 3D parameters, over the wave banks that hold the
//! tracks. Reading one takes two steps, because the wave banks it names are
//! separate files: the header gives the bank names, and the body is read
//! once the banks are at hand.
use vstd::prelude::*;

use crate::bbtools::xact::{
    c_string_at, has_nul_at, lossy_utf8, read_c_string_at, ReadOutcome, Track, XactError, XWB,
};
use crate::bytes::{
    copy_range, le16, le24, le32, read_i16_le, read_i32_le, read_u16_le, read_u24_le,
    read_u32_le, string_from_utf8,
};
use crate::decimal::string_push_str;
use vstd::utf8::{decode_utf8, encode_utf8, valid_utf8};

verus! {

pub const XSB_MAGIC: [u8; 4] = [0x53, 0x44, 0x42, 0x4b];  // "SDBK"

pub const XSB_HEADER_SIZE: usize = 56;

pub const PARAM_3D_SIZE: usize = 40;

pub const SOUND_SIZE: usize = 20;

pub const CUE_SIZE: usize = 20;

/// What the header of a sound bank gives.
pub struct XsbHeader {
    pub name: String,
    /// The file names of the wave banks: each bank's name and `.xwb`.
    pub bank_names: Vec<String>,
    pub strings_offset: usize,
    pub crossfade_offset: usize,
    pub param3d_offset: usize,
    pub unknown_offset: usize,
    pub unknown0_count: usize,
    pub sound_count: usize,
    pub cue_count: usize,
    pub unknown1_count: usize,
    pub bank_count: usize,
    pub param3d_count: usize,
}

/// The 16 bytes of the name of wave bank `i` in the string table.
pub open spec fn bank_name_bytes(b: Seq<u8>, i: int) -> Seq<u8> {
    b.subrange(le32(b, 8) + 16 * i, le32(b, 8) + 16 * i + 16)
}

/// The name of a wave bank can be read: NUL-terminated UTF-8.
pub open spec fn bank_name_ok(chunk: Seq<u8>) -> bool {
    has_nul_at(chunk, 0) && valid_utf8(c_string_at(chunk, 0))
}

/// Every wave bank name of the sound bank `b` can be read.
pub open spec fn xsb_bank_names_ok(b: Seq<u8>) -> bool {
    forall|i: int| 0 <= i < le16(b, 34) ==> #[trigger] bank_name_ok(bank_name_bytes(b, i))
}

/// What reading the header of the sound bank `b` comes to, check by check
/// in the order the reader makes them.
pub open spec fn xsb_header_outcome(b: Seq<u8>) -> ReadOutcome {
    if b.len() < 4 {
        ReadOutcome::Malformed
    } else if b.subrange(0, 4) != XSB_MAGIC@ {
        ReadOutcome::Refused(XactError::BadMagic)
    } else if b.len() < 6 {
        ReadOutcome::Malformed
    } else if le16(b, 4) != 11 {
        ReadOutcome::Refused(XactError::UnsupportedVersion)
    } else if b.len() < 36 || le32(b, 12) < le32(b, 16) || (le32(b, 12) - le32(b, 16))
        % PARAM_3D_SIZE as int != 0 || b.len() < 56 || !has_nul_at(b.subrange(40, 56), 0)
        || le32(b, 8) + 16 * le16(b, 34) > b.len() {
        ReadOutcome::Malformed
    } else if xsb_bank_names_ok(b) {
        ReadOutcome::Parsed
    } else {
        ReadOutcome::Malformed
    }
}

/// `h` is what the header of the sound bank `b` gives.
pub open spec fn xsb_header_read(b: Seq<u8>, h: XsbHeader) -> bool {
    &&& h.name@ == lossy_utf8(c_string_at(b.subrange(40, 56), 0))
    &&& h.strings_offset == le32(b, 8)
    &&& h.crossfade_offset == le32(b, 12)
    &&& h.param3d_offset == le32(b, 16)
    &&& h.unknown_offset == le32(b, 20)
    &&& h.unknown0_count == le16(b, 26)
    &&& h.sound_count == le16(b, 28)
    &&& h.cue_count == le16(b, 30)
    &&& h.unknown1_count == le16(b, 32)
    &&& h.bank_count == le16(b, 34)
    &&& h.param3d_count == (le32(b, 12) - le32(b, 16)) / PARAM_3D_SIZE as int
    &&& h.bank_names@.len() == h.bank_count
    &&& forall|i: int|
        0 <= i < h.bank_count ==> (#[trigger] h.bank_names@[i])@ == decode_utf8(
            c_string_at(bank_name_bytes(b, i), 0),
        ) + ".xwb"@
}

/// Reads the bank name in `chunk`, or `None` where it is not NUL-terminated UTF-8.
fn read_bank_name(chunk: &[u8]) -> (r: Option<String>)
    ensures
        r is Some <==> bank_name_ok(chunk@),
        r matches Some(s) ==> s@ == decode_utf8(c_string_at(chunk@, 0)) + ".xwb"@,
{
    let e = crate::bytes::find_after_delim(chunk, 0, 0);
    proof {
        crate::bytes::lemma_until_delim_bounds(chunk@, 0, 0);
    }
    if !(0 < e && chunk[e - 1] == 0) {
        return None;
    }
    let bytes = copy_range(chunk, 0, e - 1);
    match string_from_utf8(bytes) {
        Some(mut name) => {
            string_push_str(&mut name, ".xwb");
            Some(name)
        },
        None => None,
    }
}

impl XsbHeader {
    /// Reads the header of a sound bank. `None` stands for data that the
    /// reader cannot take (see `xsb_header_outcome`).
    pub fn read(buf: &[u8]) -> (r: Option<Result<XsbHeader, XactError>>)
        ensures
            match xsb_header_outcome(buf@) {
                ReadOutcome::Malformed => r is None,
                ReadOutcome::Refused(e) => r == Some(Err::<XsbHeader, XactError>(e)),
                ReadOutcome::Parsed => r matches Some(Ok(h)) && xsb_header_read(buf@, h),
            },
    {
        let n: usize = buf.len();
        if n < 4 {
            return None;
        }
        let magic = copy_range(buf, 0, 4);
        if !(magic[0] == XSB_MAGIC[0] && magic[1] == XSB_MAGIC[1] && magic[2] == XSB_MAGIC[2]
            && magic[3] == XSB_MAGIC[3]) {
            assert(magic@ != XSB_MAGIC@);
            return Some(Err(XactError::BadMagic));
        }
        assert(magic@ =~= XSB_MAGIC@);
        if n < 6 {
            return None;
        }
        if read_u16_le(buf, 4) != 11 {
            return Some(Err(XactError::UnsupportedVersion));
        }
        if n < 36 {
            return None;
        }
        let strings_offset = read_u32_le(buf, 8) as usize;
        let crossfade_offset = read_u32_le(buf, 12) as usize;
        let param3d_offset = read_u32_le(buf, 16) as usize;
        let unknown_offset = read_u32_le(buf, 20) as usize;
        let unknown0_count = read_u16_le(buf, 26) as usize;
        let sound_count = read_u16_le(buf, 28) as usize;
        let cue_count = read_u16_le(buf, 30) as usize;
        let unknown1_count = read_u16_le(buf, 32) as usize;
        let bank_count = read_u16_le(buf, 34) as usize;
        if crossfade_offset < param3d_offset || (crossfade_offset - param3d_offset) % PARAM_3D_SIZE
            != 0 {
            return None;
        }
        let param3d_count = (crossfade_offset - param3d_offset) / PARAM_3D_SIZE;
        if n < 56 {
            return None;
        }
        let name_window = copy_range(buf, 40, 56);
        let name = match read_c_string_at(name_window.as_slice(), 0) {
            Some(s) => s,
            None => {
                return None;
            },
        };
        if strings_offset > n || 16 * bank_count > n - strings_offset {
            return None;
        }
        assert(xsb_header_outcome(buf@) == if xsb_bank_names_ok(buf@) {
            ReadOutcome::Parsed
        } else {
            ReadOutcome::Malformed
        });
        let mut bank_names: Vec<String> = Vec::with_capacity(bank_count);
        let mut i: usize = 0;
        while i < bank_count
            invariant
                i <= bank_count,
                xsb_header_outcome(buf@) == if xsb_bank_names_ok(buf@) {
                    ReadOutcome::Parsed
                } else {
                    ReadOutcome::Malformed
                },
                n == buf@.len(),
                strings_offset == le32(buf@, 8),
                bank_count == le16(buf@, 34),
                strings_offset + 16 * bank_count <= n,
                bank_names@.len() == i,
                forall|j: int| 0 <= j < i ==> #[trigger] bank_name_ok(bank_name_bytes(buf@, j)),
                forall|j: int|
                    0 <= j < i ==> (#[trigger] bank_names@[j])@ == decode_utf8(
                        c_string_at(bank_name_bytes(buf@, j), 0),
                    ) + ".xwb"@,
            decreases bank_count - i,
        {
            let chunk = copy_range(buf, strings_offset + 16 * i, strings_offset + 16 * i + 16);
            assert(chunk@ == bank_name_bytes(buf@, i as int));
            match read_bank_name(chunk.as_slice()) {
                Some(s) => {
                    bank_names.push(s);
                },
                None => {
                    return None;
                },
            }
            i = i + 1;
        }
        Some(
            Ok(
                XsbHeader {
                    name,
                    bank_names,
                    strings_offset,
                    crossfade_offset,
                    param3d_offset,
                    unknown_offset,
                    unknown0_count,
                    sound_count,
                    cue_count,
                    unknown1_count,
                    bank_count,
                    param3d_count,
                },
            ),
        )
    }
}

/// The 3D parameters of sounds. The distances and factors are `f32` values
/// in the file; they are kept here as their bits (`f32::from_bits` gives the
/// value).
pub struct Param3D {
    pub inside_cone_angle: i16,
    pub outside_cone_angle: i16,
    pub outside_cone_volume: i16,
    pub unknown0: i16,
    pub minimum_distance_bits: u32,
    pub maximum_distance_bits: u32,
    pub distance_factor_bits: u32,
    pub rolloff_factor_bits: u32,
    pub doppler_factor_bits: u32,
    pub unknown1: i32,
    pub unknown2: i32,
    pub unknown3: i32,
}

/// `p` is the entry of 3D parameters in the 40 bytes `c`.
pub open spec fn param3d_matches(p: Param3D, c: Seq<u8>) -> bool {
    &&& p.inside_cone_angle == (le16(c, 0) as u16) as i16
    &&& p.outside_cone_angle == (le16(c, 2) as u16) as i16
    &&& p.outside_cone_volume == (le16(c, 4) as u16) as i16
    &&& p.unknown0 == (le16(c, 6) as u16) as i16
    &&& p.minimum_distance_bits == le32(c, 8)
    &&& p.maximum_distance_bits == le32(c, 12)
    &&& p.distance_factor_bits == le32(c, 16)
    &&& p.rolloff_factor_bits == le32(c, 20)
    &&& p.doppler_factor_bits == le32(c, 24)
    &&& p.unknown1 == (le32(c, 28) as u32) as i32
    &&& p.unknown2 == (le32(c, 32) as u32) as i32
    &&& p.unknown3 == (le32(c, 36) as u32) as i32
}

impl Param3D {
    /// Reads an entry from 40 bytes.
    pub fn import(c: &[u8]) -> (r: Self)
        requires
            c@.len() == PARAM_3D_SIZE,
        ensures
            param3d_matches(r, c@),
    {
        Param3D {
            inside_cone_angle: read_i16_le(c, 0),
            outside_cone_angle: read_i16_le(c, 2),
            outside_cone_volume: read_i16_le(c, 4),
            unknown0: read_i16_le(c, 6),
            minimum_distance_bits: read_u32_le(c, 8),
            maximum_distance_bits: read_u32_le(c, 12),
            distance_factor_bits: read_u32_le(c, 16),
            rolloff_factor_bits: read_u32_le(c, 20),
            doppler_factor_bits: read_u32_le(c, 24),
            unknown1: read_i32_le(c, 28),
            unknown2: read_i32_le(c, 32),
            unknown3: read_i32_le(c, 36),
        }
    }
}

/// What an event of a sound does. Only `Play` and `EnvelopeAmplitude` occur
/// in the banks read here; the others are listed for completeness.
#[derive(PartialEq, Eq, Structural, Clone, Copy, Debug)]
pub enum EventType {
    Play { loop_count: usize, track: usize, bank: usize },
    PlayComplex,
    Stop,
    Pitch,
    Volume,
    LowPass,
    PitchLFO,
    MultiLFO,
    /// Times in seconds.
    EnvelopeAmplitude {
        unknown0: u16,
        delay: u16,
        attack: u16,
        hold: u16,
        decay: u16,
        release: u16,
        sustain: u8,
        unknown1: u8,
    },
    EnvelopePitch,
    Loop,
    Marker,
    Disabled,
    EnvironmentReverb,
    MixBinSpan,
    Unknown,
}

/// The event with command `cmd`, `flags` and parameters `p`, or `None` when
/// the reader cannot take it (a complex play, a parameter size that does
/// not fit the command, or a command other than play and amplitude envelope).
pub open spec fn spec_event_type(cmd: u8, flags: u8, p: Seq<u8>) -> Option<EventType> {
    if cmd == 0x00 {
        if flags & 0x04u8 == 0 && p.len() == 6 {
            Some(
                EventType::Play {
                    loop_count: le16(p, 0) as usize,
                    track: le16(p, 2) as usize,
                    bank: le16(p, 4) as usize,
                },
            )
        } else {
            None
        }
    } else if cmd == 0x0A {
        if p.len() == 14 {
            Some(
                EventType::EnvelopeAmplitude {
                    unknown0: le16(p, 0) as u16,
                    delay: le16(p, 2) as u16,
                    attack: le16(p, 4) as u16,
                    hold: le16(p, 6) as u16,
                    decay: le16(p, 8) as u16,
                    release: le16(p, 10) as u16,
                    sustain: p[12],
                    unknown1: p[13],
                },
            )
        } else {
            None
        }
    } else {
        None
    }
}

impl EventType {
    /// Reads an event's parameters (see `spec_event_type`).
    pub fn import(cmd: u8, flags: u8, buf: &[u8]) -> (r: Option<Self>)
        ensures
            r == spec_event_type(cmd, flags, buf@),
    {
        if cmd == 0x00 {
            if flags & 0x04 == 0 && buf.len() == 6 {
                Some(
                    EventType::Play {
                        loop_count: read_u16_le(buf, 0) as usize,
                        track: read_u16_le(buf, 2) as usize,
                        bank: read_u16_le(buf, 4) as usize,
                    },
                )
            } else {
                None
            }
        } else if cmd == 0x0A {
            if buf.len() == 14 {
                Some(
                    EventType::EnvelopeAmplitude {
                        unknown0: read_u16_le(buf, 0),
                        delay: read_u16_le(buf, 2),
                        attack: read_u16_le(buf, 4),
                        hold: read_u16_le(buf, 6),
                        decay: read_u16_le(buf, 8),
                        release: read_u16_le(buf, 10),
                        sustain: buf[12],
                        unknown1: buf[13],
                    },
                )
            } else {
                None
            }
        } else {
            None
        }
    }
}

/// An event of a sound: when it happens, in milliseconds, and what it does.
#[derive(PartialEq, Eq, Structural, Clone, Copy, Debug)]
pub struct Event {
    pub timestamp: u32,
    pub flags: u8,
    pub event: EventType,
}

/// The `n` events stored one after another from `pos` of `b`: each a 6-byte
/// header (command, 24-bit timestamp, parameter size less 2, flags) and its
/// parameters. `None` when one does not fit in `b` or cannot be taken.
pub open spec fn event_list(b: Seq<u8>, pos: int, n: nat) -> Option<Seq<Event>>
    decreases n,
{
    if n == 0 {
        Some(Seq::empty())
    } else if pos < 0 || pos + 6 > b.len() || pos + b[pos + 4] + 8 > b.len() {
        None
    } else {
        let end = pos + b[pos + 4] + 8;
        match spec_event_type(b[pos], b[pos + 5], b.subrange(pos + 6, end)) {
            None => None,
            Some(e) => match event_list(b, end, (n - 1) as nat) {
                None => None,
                Some(rest) => Some(
                    seq![Event { timestamp: le24(b, pos + 1) as u32, flags: b[pos + 5], event: e }]
                        + rest,
                ),
            },
        }
    }
}

/// The events of a sound whose command header lies at `off` of `b`: the
/// header packs the count (low 8 bits) and the offset of the first event.
pub open spec fn events_at(b: Seq<u8>, off: int) -> Option<Seq<Event>> {
    if off + 4 > b.len() {
        None
    } else {
        let oc = le32(b, off) as u32;
        if (oc >> 8u32) > b.len() {
            None
        } else {
            event_list(b, (oc >> 8u32) as int, (oc & 0xFFu32) as nat)
        }
    }
}

impl Event {
    /// Reads the events of a sound whose command header lies at
    /// `command_header_offset` (see `events_at`).
    pub fn import(buf: &[u8], command_header_offset: usize) -> (r: Option<Vec<Self>>)
        ensures
            match r {
                Some(v) => events_at(buf@, command_header_offset as int) == Some(v@),
                None => events_at(buf@, command_header_offset as int) is None,
            },
    {
        let n: usize = buf.len();
        if command_header_offset > n || n - command_header_offset < 4 {
            return None;
        }
        let offset_count: u32 = read_u32_le(buf, command_header_offset);
        let count: usize = (offset_count & 0xFF) as usize;
        let offset: usize = (offset_count >> 8) as usize;
        if offset > n {
            return None;
        }
        let mut pos: usize = offset;
        let mut events: Vec<Self> = Vec::with_capacity(count);
        let mut k: usize = 0;
        while k < count
            invariant
                k <= count,
                n == buf@.len(),
                pos <= n,
                events_at(buf@, command_header_offset as int) == match event_list(
                    buf@,
                    pos as int,
                    (count - k) as nat,
                ) {
                    None => None,
                    Some(rest) => Some(events@ + rest),
                },
            decreases count - k,
        {
            if n - pos < 6 {
                return None;
            }
            let cmd: u8 = buf[pos];
            let timestamp: u32 = read_u24_le(buf, pos + 1);
            let param_size: usize = buf[pos + 4] as usize + 2;
            let flags: u8 = buf[pos + 5];
            let param_end: usize = param_size + 6;
            if n - pos < param_end {
                return None;
            }
            let params = copy_range(buf, pos + 6, pos + param_end);
            match EventType::import(cmd, flags, params.as_slice()) {
                None => {
                    return None;
                },
                Some(e) => {
                    let ghost before = events@;
                    events.push(Event { timestamp, flags, event: e });
                    proof {
                        let ev = Event { timestamp, flags, event: e };
                        match event_list(buf@, (pos + param_end) as int, (count - k - 1) as nat) {
                            None => {},
                            Some(rest) => {
                                assert(events@ + rest =~= before + (seq![ev] + rest));
                            },
                        }
                    }
                },
            }
            pos = pos + param_end;
            k = k + 1;
        }
        assert(events@ + Seq::<Event>::empty() =~= events@);
        Some(events)
    }
}

/// A sound: the track it plays, its events and its mix settings.
pub struct Sound {
    pub bank: usize,
    pub track: usize,
    pub events: Vec<Event>,
    /// The volume (low 9 bits, in steps of -0.16) and the low-frequency
    /// effects level (next 7 bits, in steps of -0.5).
    pub lfe_volume: u16,
    pub pitch: i16,
    pub track_count: u8,
    pub layer: i8,
    pub category: u8,
    pub flags: u8,
    pub param3d: usize,
    pub priority: i8,
    pub i3dl2_volume: u8,
    pub eq_gain: u16,
    pub eq_freq: u16,
}

impl Sound {
    /// The volume, in steps of -0.16.
    pub fn volume_steps(&self) -> (r: u16)
        ensures
            r == self.lfe_volume & 0x1FFu16,
    {
        self.lfe_volume & 0x1FF
    }

    /// The low-frequency effects level, in steps of -0.5.
    pub fn lfe_steps(&self) -> (r: u16)
        ensures
            r == (self.lfe_volume >> 9u16) & 0x7Fu16,
    {
        (self.lfe_volume >> 9) & 0x7F
    }
}

/// A sound given as 20 bytes `sb` plays its track directly (flag 8), not
/// through events.
pub open spec fn sound_is_direct(sb: Seq<u8>) -> bool {
    sb[11] & 0x8u8 == 0x8u8
}

/// What reading the sound `sb` of the bank `b` comes to: its events must
/// be readable and end with a play event.
pub open spec fn sound_status(b: Seq<u8>, sb: Seq<u8>) -> ReadOutcome {
    if sound_is_direct(sb) {
        ReadOutcome::Parsed
    } else {
        match events_at(b, le32(sb, 0) as int) {
            None => ReadOutcome::Malformed,
            Some(evs) => if evs.len() == 0 {
                ReadOutcome::Refused(XactError::NoEvents)
            } else if evs.last().event is Play {
                ReadOutcome::Parsed
            } else {
                ReadOutcome::Refused(XactError::LastEventNotPlay)
            },
        }
    }
}

/// The bank and the track that the sound `sb` plays.
pub open spec fn sound_target(b: Seq<u8>, sb: Seq<u8>) -> (int, int) {
    if sound_is_direct(sb) {
        (le16(sb, 2) as int, le16(sb, 0) as int)
    } else {
        match events_at(b, le32(sb, 0) as int) {
            Some(evs) => match evs.last().event {
                EventType::Play { track, bank, .. } => (bank as int, track as int),
                _ => (0, 0),
            },
            None => (0, 0),
        }
    }
}

/// `s` is the sound in the 20 bytes `sb` of the bank `b`.
pub open spec fn sound_matches(s: Sound, sb: Seq<u8>, b: Seq<u8>) -> bool {
    &&& s.bank == sound_target(b, sb).0
    &&& s.track == sound_target(b, sb).1
    &&& sound_is_direct(sb) ==> s.events@.len() == 0
    &&& !sound_is_direct(sb) ==> events_at(b, le32(sb, 0) as int) == Some(s.events@)
    &&& s.lfe_volume == le16(sb, 4)
    &&& s.pitch == (le16(sb, 6) as u16) as i16
    &&& s.track_count == sb[8]
    &&& s.layer == sb[9] as i8
    &&& s.category == sb[10]
    &&& s.flags == sb[11]
    &&& s.param3d == le16(sb, 12)
    &&& s.priority == sb[14] as i8
    &&& s.i3dl2_volume == sb[15]
    &&& s.eq_gain == le16(sb, 16)
    &&& s.eq_freq == le16(sb, 18)
}

impl Sound {
    /// Reads the sound in the 20 bytes `sb` of the bank `buf`: the sound,
    /// the error of a sound without a final play event, or `None` when its
    /// events cannot be read.
    pub fn import(sb: &[u8], buf: &[u8]) -> (r: Option<Result<Sound, XactError>>)
        requires
            sb@.len() == SOUND_SIZE,
        ensures
            match sound_status(buf@, sb@) {
                ReadOutcome::Malformed => r is None,
                ReadOutcome::Refused(e) => r == Some(Err::<Sound, XactError>(e)),
                ReadOutcome::Parsed => r matches Some(Ok(s)) && sound_matches(s, sb@, buf@),
            },
    {
        let flags: u8 = sb[11];
        let bank: usize;
        let track: usize;
        let events: Vec<Event>;
        if flags & 0x8 == 0x8 {
            track = read_u16_le(sb, 0) as usize;
            bank = read_u16_le(sb, 2) as usize;
            events = Vec::new();
        } else {
            let cmd_offset = read_u32_le(sb, 0) as usize;
            events = match Event::import(buf, cmd_offset) {
                Some(v) => v,
                None => {
                    return None;
                },
            };
            if events.len() == 0 {
                return Some(Err(XactError::NoEvents));
            }
            match events[events.len() - 1].event {
                EventType::Play { loop_count: _, track: t, bank: b } => {
                    bank = b;
                    track = t;
                },
                _ => {
                    return Some(Err(XactError::LastEventNotPlay));
                },
            }
        }
        Some(
            Ok(
                Sound {
                    bank,
                    track,
                    events,
                    lfe_volume: read_u16_le(sb, 4),
                    pitch: read_i16_le(sb, 6),
                    track_count: sb[8],
                    layer: sb[9] as i8,
                    category: sb[10],
                    flags,
                    param3d: read_u16_le(sb, 12) as usize,
                    priority: sb[14] as i8,
                    i3dl2_volume: sb[15],
                    eq_gain: read_u16_le(sb, 16),
                    eq_freq: read_u16_le(sb, 18),
                },
            ),
        )
    }
}

/// A cue: a named entry point that plays a sound.
pub struct Cue {
    pub flags: u16,
    pub sound: usize,
    pub name: String,
    pub xfade: u16,
    pub unknown: u16,
    pub transitions: u32,
}

/// A cue given as 20 bytes `c` can be read from the bank `b`: its name is a
/// NUL-terminated string inside `b`, and it has no variations.
pub open spec fn cue_ok(b: Seq<u8>, c: Seq<u8>) -> bool {
    &&& le32(c, 4) <= b.len()
    &&& has_nul_at(b, le32(c, 4) as int)
    &&& le32(c, 8) == 0xFFFF_FFFF
}

/// `q` is the cue in the 20 bytes `c` of the bank `b`.
pub open spec fn cue_matches(q: Cue, c: Seq<u8>, b: Seq<u8>) -> bool {
    &&& q.flags == le16(c, 0)
    &&& q.sound == le16(c, 2)
    &&& q.name@ == lossy_utf8(c_string_at(b, le32(c, 4) as int))
    &&& q.xfade == le16(c, 12)
    &&& q.unknown == le16(c, 14)
    &&& q.transitions == le32(c, 16)
}

impl Cue {
    /// Reads the cue in the 20 bytes `c` of the bank `buf`, or `None` where
    /// it cannot be read (see `cue_ok`).
    pub fn import(c: &[u8], buf: &[u8]) -> (r: Option<Cue>)
        requires
            c@.len() == CUE_SIZE,
        ensures
            r is Some <==> cue_ok(buf@, c@),
            r matches Some(q) ==> cue_matches(q, c@, buf@),
    {
        let name_offset = read_u32_le(c, 4) as usize;
        if name_offset > buf.len() {
            return None;
        }
        let name = match read_c_string_at(buf, name_offset) {
            Some(s) => s,
            None => {
                return None;
            },
        };
        let variations: u32 = read_u32_le(c, 8);
        if variations != 0xFFFF_FFFF {
            return None;
        }
        Some(
            Cue {
                flags: read_u16_le(c, 0),
                sound: read_u16_le(c, 2) as usize,
                name,
                xfade: read_u16_le(c, 12),
                unknown: read_u16_le(c, 14),
                transitions: read_u32_le(c, 16),
            },
        )
    }
}

/// The 20 bytes of cue `k`.
pub open spec fn cue_bytes(b: Seq<u8>, k: int) -> Seq<u8> {
    b.subrange(XSB_HEADER_SIZE + CUE_SIZE * k, XSB_HEADER_SIZE + CUE_SIZE * k + CUE_SIZE)
}

/// The 20 bytes of sound `k`, which follow the `cue_count` cues.
pub open spec fn sound_bytes(b: Seq<u8>, cue_count: nat, k: int) -> Seq<u8> {
    let start = XSB_HEADER_SIZE + CUE_SIZE * cue_count + SOUND_SIZE * k;
    b.subrange(start, start + SOUND_SIZE)
}

/// The 40 bytes of entry `k` of the 3D parameters that start at `off`.
pub open spec fn param3d_bytes(b: Seq<u8>, off: nat, k: int) -> Seq<u8> {
    b.subrange(off + PARAM_3D_SIZE * k, off + PARAM_3D_SIZE * k + PARAM_3D_SIZE)
}

/// The first of the first `k` sounds that cannot be read, as what reading
/// the bank comes to; `None` when all of them can.
pub open spec fn first_sound_failure(b: Seq<u8>, cue_count: nat, k: nat) -> Option<ReadOutcome>
    decreases k,
{
    if k == 0 {
        None
    } else {
        match first_sound_failure(b, cue_count, (k - 1) as nat) {
            Some(o) => Some(o),
            None => match sound_status(b, sound_bytes(b, cue_count, k - 1)) {
                ReadOutcome::Parsed => None,
                o => Some(o),
            },
        }
    }
}

/// The bank and track that cue `q` plays through its sound.
pub open spec fn cue_target(sounds: Seq<Sound>, q: Cue) -> (int, int) {
    (sounds[q.sound as int].bank as int, sounds[q.sound as int].track as int)
}

/// Every cue leads to a sound, and every such sound to a track of a bank.
pub open spec fn links_ok(cues: Seq<Cue>, sounds: Seq<Sound>, banks: Seq<XWB>) -> bool {
    forall|k: int|
        0 <= k < cues.len() ==> {
            let q = #[trigger] cues[k];
            &&& q.sound < sounds.len()
            &&& 0 <= cue_target(sounds, q).0 < banks.len()
            &&& 0 <= cue_target(sounds, q).1 < banks[cue_target(sounds, q).0].tracks@.len()
        }
}

/// The name of the track `ti` of bank `bi` after the first `k` cues have
/// passed their names on: a cue names the tracks it plays when they have
/// no name yet or a longer one (in UTF-8 bytes).
pub open spec fn chosen_name(
    orig: Option<Seq<char>>,
    cues: Seq<Cue>,
    sounds: Seq<Sound>,
    bi: int,
    ti: int,
    k: nat,
) -> Option<Seq<char>>
    decreases k,
{
    if k == 0 {
        orig
    } else {
        let prev = chosen_name(orig, cues, sounds, bi, ti, (k - 1) as nat);
        let q = cues[k - 1];
        if cue_target(sounds, q) == (bi, ti) && (prev is None || encode_utf8(q.name@).len()
            < encode_utf8(prev->0).len()) {
            Some(q.name@)
        } else {
            prev
        }
    }
}

/// A track that a cue plays ends with a name no longer (in UTF-8 bytes)
/// than that cue's name.
pub proof fn lemma_chosen_name_shortest(
    orig: Option<Seq<char>>,
    cues: Seq<Cue>,
    sounds: Seq<Sound>,
    bi: int,
    ti: int,
    n: nat,
    k: int,
)
    requires
        0 <= k < n <= cues.len(),
        cue_target(sounds, cues[k]) == (bi, ti),
    ensures
        chosen_name(orig, cues, sounds, bi, ti, n) is Some,
        encode_utf8(chosen_name(orig, cues, sounds, bi, ti, n)->0).len() <= encode_utf8(
            cues[k].name@,
        ).len(),
    decreases n,
{
    if k < n - 1 {
        lemma_chosen_name_shortest(orig, cues, sounds, bi, ti, (n - 1) as nat, k);
    }
}

/// A track keeps its name or takes the name of a cue that plays it.
pub proof fn lemma_chosen_name_source(
    orig: Option<Seq<char>>,
    cues: Seq<Cue>,
    sounds: Seq<Sound>,
    bi: int,
    ti: int,
    n: nat,
)
    requires
        n <= cues.len(),
    ensures
        chosen_name(orig, cues, sounds, bi, ti, n) == orig || exists|k: int|
            0 <= k < n && cue_target(sounds, #[trigger] cues[k]) == (bi, ti) && chosen_name(
                orig,
                cues,
                sounds,
                bi,
                ti,
                n,
            ) == Some(cues[k].name@),
    decreases n,
{
    if n > 0 {
        lemma_chosen_name_source(orig, cues, sounds, bi, ti, (n - 1) as nat);
        let q = cues[n - 1];
        if chosen_name(orig, cues, sounds, bi, ti, n) != chosen_name(
            orig,
            cues,
            sounds,
            bi,
            ti,
            (n - 1) as nat,
        ) {
            assert(cue_target(sounds, cues[n - 1]) == (bi, ti));
        }
    }
}

/// `t` is `u` but for the name.
pub open spec fn same_but_name(t: Track, u: Track) -> bool {
    &&& t.flags == u.flags
    &&& t.duration == u.duration
    &&& t.codec == u.codec
    &&& t.channels == u.channels
    &&& t.samples_per_sec == u.samples_per_sec
    &&& t.bits_per_sample == u.bits_per_sample
    &&& t.data@ == u.data@
    &&& t.loop_region == u.loop_region
}

/// `after` holds the banks `before` with the names that the cues pass on.
pub open spec fn names_passed_on(
    before: Seq<XWB>,
    after: Seq<XWB>,
    cues: Seq<Cue>,
    sounds: Seq<Sound>,
) -> bool {
    &&& after.len() == before.len()
    &&& forall|i: int|
        0 <= i < before.len() ==> {
            &&& (#[trigger] after[i]).name@ == before[i].name@
            &&& after[i].tracks@.len() == before[i].tracks@.len()
            &&& forall|j: int|
                0 <= j < before[i].tracks@.len() ==> {
                    &&& same_but_name(#[trigger] after[i].tracks@[j], before[i].tracks@[j])
                    &&& after[i].tracks@[j].spec_name() == chosen_name(
                        before[i].tracks@[j].spec_name(),
                        cues,
                        sounds,
                        i,
                        j,
                        cues.len(),
                    )
                }
        }
}

/// A sound bank: its name, its wave banks, and the 3D parameters, sounds
/// and cues it defines over them.
pub struct XSB {
    pub name: String,
    pub banks: Vec<XWB>,
    pub param3ds: Vec<Param3D>,
    pub sounds: Vec<Sound>,
    pub cues: Vec<Cue>,
}

/// Sets the name of track `t` of bank `bi`, leaving everything else as it is.
fn rename_track(banks: &mut Vec<XWB>, bi: usize, ti: usize, name: String)
    requires
        bi < old(banks)@.len(),
        ti < old(banks)@[bi as int].tracks@.len(),
    ensures
        final(banks)@.len() == old(banks)@.len(),
        forall|i: int|
            0 <= i < old(banks)@.len() && i != bi ==> #[trigger] final(banks)@[i] == old(banks)@[i],
        final(banks)@[bi as int].name == old(banks)@[bi as int].name,
        final(banks)@[bi as int].tracks@.len() == old(banks)@[bi as int].tracks@.len(),
        forall|j: int|
            0 <= j < old(banks)@[bi as int].tracks@.len() && j != ti ==> #[trigger] final(banks)@[bi as int].tracks@[j] == old(banks)@[bi as int].tracks@[j],
        same_but_name(final(banks)@[bi as int].tracks@[ti as int], old(banks)@[bi as int].tracks@[ti as int]),
        final(banks)@[bi as int].tracks@[ti as int].name == Some(name),
{
    banks[bi].tracks[ti].name = Some(name);
}

impl XSB {
    /// Passes the cue names on to the tracks they play: a track takes a
    /// cue's name when it has none yet or a longer one (see `chosen_name`).
    pub fn transfer_cue_names(&mut self)
        requires
            links_ok(old(self).cues@, old(self).sounds@, old(self).banks@),
        ensures
            final(self).name == old(self).name,
            final(self).param3ds == old(self).param3ds,
            final(self).sounds == old(self).sounds,
            final(self).cues == old(self).cues,
            names_passed_on(old(self).banks@, final(self).banks@, old(self).cues@, old(self).sounds@),
    {
        let ghost banks0 = self.banks@;
        let mut k: usize = 0;
        while k < self.cues.len()
            invariant
                k <= self.cues@.len(),
                self.name == old(self).name,
                self.param3ds == old(self).param3ds,
                self.sounds == old(self).sounds,
                self.cues == old(self).cues,
                banks0 == old(self).banks@,
                links_ok(self.cues@, self.sounds@, banks0),
                self.banks@.len() == banks0.len(),
                forall|i: int|
                    0 <= i < banks0.len() ==> {
                        &&& (#[trigger] self.banks@[i]).name@ == banks0[i].name@
                        &&& self.banks@[i].tracks@.len() == banks0[i].tracks@.len()
                        &&& forall|j: int|
                            0 <= j < banks0[i].tracks@.len() ==> {
                                &&& same_but_name(
                                    #[trigger] self.banks@[i].tracks@[j],
                                    banks0[i].tracks@[j],
                                )
                                &&& self.banks@[i].tracks@[j].spec_name() == chosen_name(
                                    banks0[i].tracks@[j].spec_name(),
                                    self.cues@,
                                    self.sounds@,
                                    i,
                                    j,
                                    k as nat,
                                )
                            }
                    },
            decreases self.cues@.len() - k,
        {
            let q = &self.cues[k];
            let si = q.sound;
            let bi = self.sounds[si].bank;
            let ti = self.sounds[si].track;
            let ghost before = self.banks@;
            let new_len: usize = q.name.as_str().as_bytes().len();
            assert(new_len == encode_utf8(q.name@).len());
            let take: bool = match &self.banks[bi].tracks[ti].name {
                None => true,
                Some(n) => {
                    let cur_len: usize = n.as_str().as_bytes().len();
                    assert(cur_len == encode_utf8(n@).len());
                    new_len < cur_len
                },
            };
            assert(take == (before[bi as int].tracks@[ti as int].spec_name() is None || encode_utf8(
                q.name@,
            ).len() < encode_utf8(before[bi as int].tracks@[ti as int].spec_name()->0).len()));
            if take {
                let name = q.name.clone();
                rename_track(&mut self.banks, bi, ti, name);
            }
            proof {
                assert forall|i: int|
                    0 <= i < banks0.len() implies {
                        &&& (#[trigger] self.banks@[i]).name@ == banks0[i].name@
                        &&& self.banks@[i].tracks@.len() == banks0[i].tracks@.len()
                        &&& forall|j: int|
                            0 <= j < banks0[i].tracks@.len() ==> {
                                &&& same_but_name(
                                    #[trigger] self.banks@[i].tracks@[j],
                                    banks0[i].tracks@[j],
                                )
                                &&& self.banks@[i].tracks@[j].spec_name() == chosen_name(
                                    banks0[i].tracks@[j].spec_name(),
                                    self.cues@,
                                    self.sounds@,
                                    i,
                                    j,
                                    (k + 1) as nat,
                                )
                            }
                    } by {
                    assert(self.banks@[i].name@ == banks0[i].name@);
                    assert forall|j: int| 0 <= j < banks0[i].tracks@.len() implies {
                        &&& same_but_name(#[trigger] self.banks@[i].tracks@[j], banks0[i].tracks@[j])
                        &&& self.banks@[i].tracks@[j].spec_name() == chosen_name(
                            banks0[i].tracks@[j].spec_name(),
                            self.cues@,
                            self.sounds@,
                            i,
                            j,
                            (k + 1) as nat,
                        )
                    } by {
                        assert(same_but_name(before[i].tracks@[j], banks0[i].tracks@[j]));
                        assert(before[i].tracks@[j].spec_name() == chosen_name(
                            banks0[i].tracks@[j].spec_name(),
                            self.cues@,
                            self.sounds@,
                            i,
                            j,
                            k as nat,
                        ));
                        if i == bi && j == ti {
                            let prev = before[i].tracks@[j].spec_name();
                            assert(cue_target(self.sounds@, self.cues@[k as int]) == (i, j));
                            assert(take == (prev is None || encode_utf8(self.cues@[k as int].name@).len()
                                < encode_utf8(prev->0).len()));
                            assert(same_but_name(self.banks@[i].tracks@[j], banks0[i].tracks@[j]));
                            assert(self.banks@[i].tracks@[j].spec_name() == chosen_name(
                                banks0[i].tracks@[j].spec_name(),
                                self.cues@,
                                self.sounds@,
                                i,
                                j,
                                (k + 1) as nat,
                            ));
                        } else {
                            assert(self.banks@[i].tracks@[j] == before[i].tracks@[j]);
                            assert(cue_target(self.sounds@, self.cues@[k as int]) != (i, j));
                        }
                    }
                }
            }
            k = k + 1;
        }
    }
}

pub proof fn lemma_first_failure_stays(b: Seq<u8>, cue_count: nat, k: nat, m: nat)
    requires
        k <= m,
        first_sound_failure(b, cue_count, k) is Some,
    ensures
        first_sound_failure(b, cue_count, m) == first_sound_failure(b, cue_count, k),
    decreases m,
{
    if k < m {
        lemma_first_failure_stays(b, cue_count, k, (m - 1) as nat);
    }
}

/// Every cue of the sound bank `b` can be read.
pub open spec fn xsb_cues_ok(b: Seq<u8>, cue_count: nat) -> bool {
    forall|k: int| 0 <= k < cue_count ==> #[trigger] cue_ok(b, cue_bytes(b, k))
}

/// Cue `k` of the sound bank `b` leads to a sound, and that sound to a track
/// of one of `banks`.
pub open spec fn cue_link_ok(b: Seq<u8>, cue_count: nat, sound_count: nat, banks: Seq<XWB>, k: int) -> bool {
    let si = le16(cue_bytes(b, k), 2);
    let t = sound_target(b, sound_bytes(b, cue_count, si as int));
    &&& si < sound_count
    &&& 0 <= t.0 < banks.len()
    &&& 0 <= t.1 < banks[t.0].tracks@.len()
}

pub open spec fn xsb_links_ok(b: Seq<u8>, cue_count: nat, sound_count: nat, banks: Seq<XWB>) -> bool {
    forall|k: int| 0 <= k < cue_count ==> #[trigger] cue_link_ok(b, cue_count, sound_count, banks, k)
}

/// What reading the body of the sound bank `b` with header `h` over the
/// wave banks `banks` comes to, check by check in the order the reader
/// makes them.
pub open spec fn xsb_body_outcome(b: Seq<u8>, h: XsbHeader, banks: Seq<XWB>) -> ReadOutcome {
    let cc = h.cue_count as nat;
    let sc = h.sound_count as nat;
    if h.crossfade_offset > b.len() || XSB_HEADER_SIZE + CUE_SIZE * cc + SOUND_SIZE * sc > b.len() {
        ReadOutcome::Malformed
    } else {
        match first_sound_failure(b, cc, sc) {
            Some(o) => o,
            None => if xsb_cues_ok(b, cc) && xsb_links_ok(b, cc, sc, banks) {
                ReadOutcome::Parsed
            } else {
                ReadOutcome::Malformed
            },
        }
    }
}

/// `x` is the sound bank `b` with header `h`, over `banks` with the cue
/// names passed on to their tracks.
pub open spec fn xsb_body_read(b: Seq<u8>, h: XsbHeader, banks: Seq<XWB>, x: XSB) -> bool {
    let cc = h.cue_count as nat;
    let sc = h.sound_count as nat;
    &&& x.name@ == h.name@
    &&& x.param3ds@.len() == h.param3d_count
    &&& forall|k: int|
        0 <= k < h.param3d_count ==> #[trigger] param3d_matches(
            x.param3ds@[k],
            param3d_bytes(b, h.param3d_offset as nat, k),
        )
    &&& x.sounds@.len() == sc
    &&& forall|k: int| 0 <= k < sc ==> #[trigger] sound_matches(x.sounds@[k], sound_bytes(b, cc, k), b)
    &&& x.cues@.len() == cc
    &&& forall|k: int| 0 <= k < cc ==> #[trigger] cue_matches(x.cues@[k], cue_bytes(b, k), b)
    &&& names_passed_on(banks, x.banks@, x.cues@, x.sounds@)
}

impl XSB {
    /// Reads the body of a sound bank once its wave banks are at hand, one
    /// per bank name of the header, in order:
    /// the 3D parameters, the sounds and the cues, and passes the cue names
    /// on to the tracks. `None` stands for data that the reader cannot take
    /// (see `xsb_body_outcome`).
    pub fn read_body(buf: &[u8], header: XsbHeader, banks: Vec<XWB>) -> (r: Option<Result<XSB, XactError>>)
        requires
            xsb_header_outcome(buf@) is Parsed,
            xsb_header_read(buf@, header),
            banks@.len() == header.bank_count,
        ensures
            match xsb_body_outcome(buf@, header, banks@) {
                ReadOutcome::Malformed => r is None,
                ReadOutcome::Refused(e) => r == Some(Err::<XSB, XactError>(e)),
                ReadOutcome::Parsed => r matches Some(Ok(x)) && xsb_body_read(buf@, header, banks@, x),
            },
    {
        let n: usize = buf.len();
        if header.crossfade_offset > n {
            return None;
        }
        let cc: usize = header.cue_count;
        let sc: usize = header.sound_count;
        let cues_end: usize = XSB_HEADER_SIZE + CUE_SIZE * cc;
        if cues_end > n || SOUND_SIZE * sc > n - cues_end {
            return None;
        }
        /*** 3D parameters ***/
        let p3: usize = header.param3d_offset;
        let p3_count: usize = header.param3d_count;
        assert(p3 + PARAM_3D_SIZE * p3_count == header.crossfade_offset);
        let mut param3ds: Vec<Param3D> = Vec::with_capacity(p3_count);
        let mut k: usize = 0;
        while k < p3_count
            invariant
                k <= p3_count,
                p3 + PARAM_3D_SIZE * p3_count <= n,
                n == buf@.len(),
                param3ds@.len() == k,
                forall|j: int|
                    0 <= j < k ==> #[trigger] param3d_matches(param3ds@[j], param3d_bytes(buf@, p3 as nat, j)),
            decreases p3_count - k,
        {
            let c = copy_range(buf, p3 + PARAM_3D_SIZE * k, p3 + PARAM_3D_SIZE * k + PARAM_3D_SIZE);
            param3ds.push(Param3D::import(c.as_slice()));
            k = k + 1;
        }
        /*** Sounds ***/
        let mut sounds: Vec<Sound> = Vec::with_capacity(sc);
        let mut k: usize = 0;
        while k < sc
            invariant
                k <= sc,
                sc == header.sound_count,
                cc == header.cue_count,
                cues_end == XSB_HEADER_SIZE + CUE_SIZE * cc,
                cues_end + SOUND_SIZE * sc <= n,
                header.crossfade_offset <= n,
                n == buf@.len(),
                first_sound_failure(buf@, cc as nat, k as nat) is None,
                sounds@.len() == k,
                forall|j: int|
                    0 <= j < k ==> #[trigger] sound_matches(sounds@[j], sound_bytes(buf@, cc as nat, j), buf@),
            decreases sc - k,
        {
            let sb = copy_range(buf, cues_end + SOUND_SIZE * k, cues_end + SOUND_SIZE * k + SOUND_SIZE);
            assert(sb@ == sound_bytes(buf@, cc as nat, k as int));
            match Sound::import(sb.as_slice(), buf) {
                None => {
                    proof {
                        lemma_first_failure_stays(buf@, cc as nat, (k + 1) as nat, sc as nat);
                    }
                    return None;
                },
                Some(Err(e)) => {
                    proof {
                        lemma_first_failure_stays(buf@, cc as nat, (k + 1) as nat, sc as nat);
                    }
                    return Some(Err(e));
                },
                Some(Ok(s)) => {
                    sounds.push(s);
                },
            }
            k = k + 1;
        }
        let ghost outcome = xsb_body_outcome(buf@, header, banks@);
        assert(outcome == if xsb_cues_ok(buf@, cc as nat) && xsb_links_ok(buf@, cc as nat, sc as nat, banks@) {
            ReadOutcome::Parsed
        } else {
            ReadOutcome::Malformed
        });
        /*** Cues ***/
        let mut cues: Vec<Cue> = Vec::with_capacity(cc);
        let mut k: usize = 0;
        while k < cc
            invariant
                k <= cc,
                cc == header.cue_count,
                cues_end == XSB_HEADER_SIZE + CUE_SIZE * cc,
                cues_end <= n,
                n == buf@.len(),
                outcome == xsb_body_outcome(buf@, header, banks@),
                outcome == if xsb_cues_ok(buf@, cc as nat) && xsb_links_ok(buf@, cc as nat, sc as nat, banks@) {
                    ReadOutcome::Parsed
                } else {
                    ReadOutcome::Malformed
                },
                cues@.len() == k,
                forall|j: int| 0 <= j < k ==> #[trigger] cue_ok(buf@, cue_bytes(buf@, j)),
                forall|j: int| 0 <= j < k ==> #[trigger] cue_matches(cues@[j], cue_bytes(buf@, j), buf@),
            decreases cc - k,
        {
            let c = copy_range(buf, XSB_HEADER_SIZE + CUE_SIZE * k, XSB_HEADER_SIZE + CUE_SIZE * k + CUE_SIZE);
            assert(c@ == cue_bytes(buf@, k as int));
            match Cue::import(c.as_slice(), buf) {
                None => {
                    return None;
                },
                Some(q) => {
                    cues.push(q);
                },
            }
            k = k + 1;
        }
        /*** Links from cues to tracks ***/
        let mut k: usize = 0;
        while k < cc
            invariant
                k <= cc,
                cc == header.cue_count,
                sc == header.sound_count,
                cues@.len() == cc,
                sounds@.len() == sc,
                outcome == xsb_body_outcome(buf@, header, banks@),
                outcome == if xsb_cues_ok(buf@, cc as nat) && xsb_links_ok(buf@, cc as nat, sc as nat, banks@) {
                    ReadOutcome::Parsed
                } else {
                    ReadOutcome::Malformed
                },
                xsb_cues_ok(buf@, cc as nat),
                forall|j: int| 0 <= j < cc ==> #[trigger] cue_matches(cues@[j], cue_bytes(buf@, j), buf@),
                forall|j: int|
                    0 <= j < sc ==> #[trigger] sound_matches(sounds@[j], sound_bytes(buf@, cc as nat, j), buf@),
                forall|j: int| 0 <= j < k ==> #[trigger] cue_link_ok(buf@, cc as nat, sc as nat, banks@, j),
            decreases cc - k,
        {
            let si: usize = cues[k].sound;
            assert(cue_matches(cues@[k as int], cue_bytes(buf@, k as int), buf@));
            if si >= sounds.len() {
                assert(!cue_link_ok(buf@, cc as nat, sc as nat, banks@, k as int));
                return None;
            }
            assert(sound_matches(sounds@[si as int], sound_bytes(buf@, cc as nat, si as int), buf@));
            let bi: usize = sounds[si].bank;
            if bi >= banks.len() {
                assert(!cue_link_ok(buf@, cc as nat, sc as nat, banks@, k as int));
                return None;
            }
            let ti: usize = sounds[si].track;
            if ti >= banks[bi].tracks.len() {
                assert(!cue_link_ok(buf@, cc as nat, sc as nat, banks@, k as int));
                return None;
            }
            k = k + 1;
        }
        let mut xsb = XSB { name: header.name, banks, param3ds, sounds, cues };
        proof {
            assert forall|j: int| 0 <= j < xsb.cues@.len() implies {
                let q = #[trigger] xsb.cues@[j];
                &&& q.sound < xsb.sounds@.len()
                &&& 0 <= cue_target(xsb.sounds@, q).0 < xsb.banks@.len()
                &&& 0 <= cue_target(xsb.sounds@, q).1 < xsb.banks@[cue_target(xsb.sounds@, q).0].tracks@.len()
            } by {
                assert(cue_link_ok(buf@, cc as nat, sc as nat, banks@, j));
                assert(cue_matches(xsb.cues@[j], cue_bytes(buf@, j), buf@));
                let si = xsb.cues@[j].sound as int;
                assert(sound_matches(xsb.sounds@[si], sound_bytes(buf@, cc as nat, si), buf@));
            }
        }
        xsb.transfer_cue_names();
        Some(Ok(xsb))
    }
}

} // verus!
