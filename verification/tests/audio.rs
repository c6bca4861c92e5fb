use bbtools::bbtools::xact::{read_c_string_at, Codec, Track, XactError, XWB};
use bbtools::bbtools::xsb::{Cue, Event, EventType, Param3D, Sound, XsbHeader, XSB};
use bbtools::bbtools::FileSlice;

fn le32(v: u32) -> [u8; 4] {
    v.to_le_bytes()
}

fn slice(offset: u32, length: u32) -> FileSlice {
    let mut b = Vec::new();
    b.extend_from_slice(&le32(offset));
    b.extend_from_slice(&le32(length));
    FileSlice::from(&b)
}

struct TrackSpec {
    flags_duration: u32,
    format_bits: u32,
    data: Vec<u8>,
    loop_offset: u32,
    loop_length: u32,
}

/// Builds a wave bank file with the given tracks, their data laid out one
/// after another.
fn xwb_bytes(name: &str, tracks: &[TrackSpec]) -> Vec<u8> {
    let n = tracks.len() as u32;
    let table_offset = 40 + 36;
    let data_offset = table_offset + 24 * n;
    let data_len: u32 = tracks.iter().map(|t| t.data.len() as u32).sum();
    let mut b = Vec::new();
    b.extend_from_slice(b"WBND");
    b.extend_from_slice(&le32(3));
    b.extend_from_slice(&le32(40));
    b.extend_from_slice(&le32(36));
    b.extend_from_slice(&le32(table_offset));
    b.extend_from_slice(&le32(24 * n));
    b.extend_from_slice(&le32(0));
    b.extend_from_slice(&le32(0));
    b.extend_from_slice(&le32(data_offset));
    b.extend_from_slice(&le32(data_len));
    // wave bank header
    b.extend_from_slice(&le32(0));
    b.extend_from_slice(&le32(n));
    let mut name_bytes = [0u8; 16];
    name_bytes[..name.len()].copy_from_slice(name.as_bytes());
    b.extend_from_slice(&name_bytes);
    b.extend_from_slice(&le32(24));
    b.extend_from_slice(&[0u8; 8]);
    // track headers
    let mut at = 0u32;
    for t in tracks {
        b.extend_from_slice(&le32(t.flags_duration));
        b.extend_from_slice(&le32(t.format_bits));
        b.extend_from_slice(&le32(at));
        b.extend_from_slice(&le32(t.data.len() as u32));
        b.extend_from_slice(&le32(t.loop_offset));
        b.extend_from_slice(&le32(t.loop_length));
        at += t.data.len() as u32;
    }
    for t in tracks {
        b.extend_from_slice(&t.data);
    }
    b
}

fn pcm16_mono_22050() -> u32 {
    (1 << 2) | (22050 << 5) | (1 << 31)
}

fn two_track_bank() -> Vec<u8> {
    xwb_bytes(
        "music",
        &[
            TrackSpec {
                flags_duration: (2 << 28) | 1000,
                format_bits: pcm16_mono_22050(),
                data: vec![1, 2, 3, 4],
                loop_offset: 0,
                loop_length: 0,
            },
            TrackSpec {
                flags_duration: 500,
                format_bits: 1 | (2 << 2) | (44100 << 5),
                data: vec![9, 8, 7],
                loop_offset: 10,
                loop_length: 20,
            },
        ],
    )
}

#[test]
fn codec_from_and_names() {
    assert_eq!(Codec::from(0), Codec::PCM);
    assert_eq!(Codec::from(1), Codec::ADPCM);
    assert_eq!(Codec::from(2), Codec::WMA);
    assert_eq!(Codec::from(3), Codec::Unknown);
    assert_eq!(Codec::PCM.name(), "PCM");
    assert_eq!(Codec::ADPCM.name(), "ADPCM");
    assert_eq!(Codec::WMA.name(), "WMA");
    assert_eq!(Codec::Unknown.name(), "Unknown");
    assert_eq!(Codec::PCM.wave_format_code(), 1);
    assert_eq!(Codec::ADPCM.wave_format_code(), 0x69);
    assert_eq!(Codec::WMA.wave_format_code(), 0);
    assert_eq!(Codec::PCM.extension(), "wav");
    assert_eq!(Codec::ADPCM.extension(), "xwav");
    assert_eq!(Codec::WMA.extension(), "wma");
    assert_eq!(Codec::Unknown.extension(), "");
}

#[test]
fn c_string_reads_up_to_nul() {
    let s = b"ab\0cd\0ef";
    assert_eq!(read_c_string_at(s, 0), Some("ab".to_string()));
    assert_eq!(read_c_string_at(s, 3), Some("cd".to_string()));
    assert_eq!(read_c_string_at(s, 6), None);
    assert_eq!(read_c_string_at(s, 8), None);
    // invalid UTF-8 is replaced, not refused
    assert_eq!(read_c_string_at(&[0xFF, 0], 0), Some("\u{FFFD}".to_string()));
}

fn pcm_track() -> Track {
    Track {
        name: None,
        flags: 0,
        duration: 2,
        codec: Codec::PCM,
        channels: 1,
        samples_per_sec: 22050,
        bits_per_sample: 16,
        data: vec![1, 2, 3, 4],
        loop_region: slice(0, 0),
    }
}

#[test]
fn pcm_track_header_values() {
    let t = pcm_track();
    assert_eq!(t.get_block_alignment(), 2);
    assert_eq!(t.get_avg_bytes_per_sec(), 44100);
    let h = t.get_wave_header();
    let mut expected = Vec::new();
    expected.extend_from_slice(&1u16.to_le_bytes());
    expected.extend_from_slice(&1u16.to_le_bytes());
    expected.extend_from_slice(&22050u32.to_le_bytes());
    expected.extend_from_slice(&44100u32.to_le_bytes());
    expected.extend_from_slice(&2u16.to_le_bytes());
    expected.extend_from_slice(&16u16.to_le_bytes());
    assert_eq!(h, expected);
    assert!(t.get_smpl_block().is_empty());
}

#[test]
fn pcm_track_writes_wav_file() {
    let t = pcm_track();
    let mut out = vec![0xAA];
    let n = t.write(&mut out);
    assert_eq!(n, 48);
    assert_eq!(out.len(), 49);
    assert_eq!(&out[1..5], b"RIFF");
    assert_eq!(&out[5..9], &40u32.to_le_bytes());
    assert_eq!(&out[9..17], b"WAVEfmt ");
    assert_eq!(&out[17..21], &16u32.to_le_bytes());
    assert_eq!(&out[21..37], t.get_wave_header().as_slice());
    assert_eq!(&out[37..41], b"data");
    assert_eq!(&out[41..45], &4u32.to_le_bytes());
    assert_eq!(&out[45..49], &[1, 2, 3, 4]);
    // the riff size is the file less its first 8 bytes
    assert_eq!(n - 8, 40);
}

#[test]
fn adpcm_track_with_loop_writes_sampler_chunk() {
    let t = Track {
        name: None,
        flags: 0,
        duration: 2,
        codec: Codec::ADPCM,
        channels: 1,
        samples_per_sec: 22050,
        bits_per_sample: 4,
        data: vec![5; 36],
        loop_region: slice(10, 20),
    };
    assert_eq!(t.get_block_alignment(), 36);
    // 64 samples per block: (36 - 7) * 8 / 4 + 2 = 60
    assert_eq!(t.get_avg_bytes_per_sec(), (22050 / 60) * 36);
    let h = t.get_wave_header();
    assert_eq!(h.len(), 20);
    assert_eq!(&h[0..2], &0x69u16.to_le_bytes());
    assert_eq!(&h[16..20], &[64, 0, 0, 0]);
    let smpl = t.get_smpl_block();
    assert_eq!(smpl.len(), 60);
    assert_eq!(&smpl[12..16], &(1_000_000_000u32 / 22050).to_le_bytes());
    assert_eq!(&smpl[28..32], &1u32.to_le_bytes());
    assert_eq!(&smpl[44..48], &10u32.to_le_bytes());
    assert_eq!(&smpl[48..52], &30u32.to_le_bytes());
    let mut out = Vec::new();
    let n = t.write(&mut out);
    assert_eq!(n, out.len());
    assert_eq!(n, 28 + 20 + 36 + 8 + 60);
    assert_eq!(&out[4..8], &((n - 8) as u32).to_le_bytes());
    assert_eq!(&out[n - 68..n - 64], b"SMPL");
    assert_eq!(&out[n - 64..n - 60], &60u32.to_le_bytes());
}

#[test]
fn wma_track_is_written_as_is() {
    let mut t = pcm_track();
    t.codec = Codec::WMA;
    t.data = vec![0x30, 0x26, 0xB2];
    let mut out = Vec::new();
    assert_eq!(t.write(&mut out), 3);
    assert_eq!(out, vec![0x30, 0x26, 0xB2]);
}

#[test]
fn wave_bank_reads_tracks() {
    let b = two_track_bank();
    let x = XWB::try_import(&b).unwrap().unwrap();
    assert_eq!(x.name, "music");
    assert_eq!(x.tracks.len(), 2);
    let t0 = &x.tracks[0];
    assert_eq!(t0.name, None);
    assert_eq!(t0.flags, 2);
    assert_eq!(t0.duration, 1000);
    assert_eq!(t0.codec, Codec::PCM);
    assert_eq!(t0.channels, 1);
    assert_eq!(t0.samples_per_sec, 22050);
    assert_eq!(t0.bits_per_sample, 16);
    assert_eq!(t0.data, vec![1, 2, 3, 4]);
    assert_eq!(t0.loop_region.length(), 0);
    let t1 = &x.tracks[1];
    assert_eq!(t1.codec, Codec::ADPCM);
    assert_eq!(t1.channels, 2);
    assert_eq!(t1.samples_per_sec, 44100);
    assert_eq!(t1.bits_per_sample, 4);
    assert_eq!(t1.data, vec![9, 8, 7]);
    assert_eq!(t1.loop_region.offset(), 10);
    assert_eq!(t1.loop_region.get_end(), 30);
    assert!(XWB::import(&b).is_ok());
}

#[test]
fn wave_bank_errors() {
    let b = two_track_bank();
    let mut bad = b.clone();
    bad[0] = b'X';
    assert_eq!(XWB::try_import(&bad).unwrap().err(), Some(XactError::BadMagic));
    let mut bad = b.clone();
    bad[4] = 2;
    assert_eq!(XWB::try_import(&bad).unwrap().err(), Some(XactError::BadVersion));
    let mut bad = b.clone();
    bad[40] = 2;
    assert_eq!(XWB::try_import(&bad).unwrap().err(), Some(XactError::UnknownFlags));
    let mut bad = b.clone();
    bad[40 + 24] = 20;
    assert_eq!(XWB::try_import(&bad).unwrap().err(), Some(XactError::TrackHeaderSizeIncorrect));
    let mut bad = b.clone();
    bad[40 + 4] = 3;
    assert_eq!(XWB::try_import(&bad).unwrap().err(), Some(XactError::TrackCountIncorrect));
    assert_eq!(XWB::import(&bad).err(), Some(XactError::TrackCountIncorrect));
}

#[test]
fn wave_bank_malformed_is_none() {
    let b = two_track_bank();
    assert!(XWB::try_import(&b[..3]).is_none());
    assert!(XWB::try_import(&b[..20]).is_none());
    // a block alignment in a track header
    let mut bad = b.clone();
    bad[76 + 7] |= 0x01;
    assert!(XWB::try_import(&bad).is_none());
    // track data outside the bank
    let mut bad = b.clone();
    bad[76 + 12] = 200;
    assert!(XWB::try_import(&bad).is_none());
}

fn put16(b: &mut Vec<u8>, at: usize, v: u16) {
    b[at..at + 2].copy_from_slice(&v.to_le_bytes());
}

fn put32(b: &mut Vec<u8>, at: usize, v: u32) {
    b[at..at + 4].copy_from_slice(&v.to_le_bytes());
}

/// A sound bank with three cues, two sounds (one direct, one by events),
/// one entry of 3D parameters and one wave bank named "music".
fn sound_bank() -> Vec<u8> {
    let mut b = vec![0u8; 272];
    b[0..4].copy_from_slice(b"SDBK");
    put16(&mut b, 4, 11);
    put32(&mut b, 8, 196); // strings
    put32(&mut b, 12, 196); // crossfade
    put32(&mut b, 16, 156); // 3D parameters
    put32(&mut b, 20, 0);
    put16(&mut b, 28, 2); // sounds
    put16(&mut b, 30, 3); // cues
    put16(&mut b, 34, 1); // banks
    b[40..45].copy_from_slice(b"sfx01");
    // cues
    let names = [212u32, 223, 230];
    let sounds = [0u16, 1, 0];
    for k in 0..3 {
        let at = 56 + 20 * k;
        put16(&mut b, at, 4);
        put16(&mut b, at + 2, sounds[k]);
        put32(&mut b, at + 4, names[k]);
        put32(&mut b, at + 8, 0xFFFF_FFFF);
        put16(&mut b, at + 12, 7);
        put16(&mut b, at + 14, 0);
        put32(&mut b, at + 16, 0);
    }
    // sound 0: plays track 0 of bank 0 directly
    let s0 = 116;
    put16(&mut b, s0, 0);
    put16(&mut b, s0 + 2, 0);
    put16(&mut b, s0 + 4, (3 << 9) | 25);
    put16(&mut b, s0 + 6, (-12i16) as u16);
    b[s0 + 11] = 0x8;
    put16(&mut b, s0 + 12, 0);
    // sound 1: events at 236
    let s1 = 136;
    put32(&mut b, s1, 236);
    b[s1 + 11] = 0;
    // 3D parameters
    put16(&mut b, 156, 90);
    put32(&mut b, 164, 0x3F80_0000);
    put32(&mut b, 192, 0xFFFF_FFFF);
    // bank name
    b[196..201].copy_from_slice(b"music");
    // cue names
    b[212..222].copy_from_slice(b"intro_long");
    b[223..229].copy_from_slice(b"battle");
    b[230..235].copy_from_slice(b"intro");
    // command header: 2 events at 240
    put32(&mut b, 236, (240 << 8) | 2);
    // envelope amplitude
    b[240] = 0x0A;
    b[241] = 5;
    b[244] = 12;
    put16(&mut b, 246 + 2, 100);
    b[246 + 12] = 50;
    // play track 1 of bank 0
    b[260] = 0x00;
    b[261] = 9;
    b[264] = 4;
    put16(&mut b, 266, 1);
    put16(&mut b, 268, 1);
    put16(&mut b, 270, 0);
    b
}

#[test]
fn sound_bank_header_reads_names_and_counts() {
    let b = sound_bank();
    let h = XsbHeader::read(&b).unwrap().unwrap();
    assert_eq!(h.name, "sfx01");
    assert_eq!(h.bank_names, vec!["music.xwb".to_string()]);
    assert_eq!(h.strings_offset, 196);
    assert_eq!(h.param3d_offset, 156);
    assert_eq!(h.crossfade_offset, 196);
    assert_eq!(h.param3d_count, 1);
    assert_eq!(h.sound_count, 2);
    assert_eq!(h.cue_count, 3);
    assert_eq!(h.bank_count, 1);
}

#[test]
fn sound_bank_header_errors() {
    let b = sound_bank();
    let mut bad = b.clone();
    bad[1] = 0;
    assert_eq!(XsbHeader::read(&bad).unwrap().err().map(|e| e), Some(XactError::BadMagic));
    let mut bad = b.clone();
    bad[4] = 10;
    assert_eq!(XsbHeader::read(&bad).unwrap().err(), Some(XactError::UnsupportedVersion));
    assert!(XsbHeader::read(&b[..30]).is_none());
    // 3D parameters that are not whole entries
    let mut bad = b.clone();
    put32(&mut bad, 16, 150);
    assert!(XsbHeader::read(&bad).is_none());
}

#[test]
fn sound_bank_body_links_cues_to_tracks() {
    let b = sound_bank();
    let h = XsbHeader::read(&b).unwrap().unwrap();
    let bank = XWB::try_import(&two_track_bank()).unwrap().unwrap();
    let x = XSB::read_body(&b, h, vec![bank]).unwrap().unwrap();
    assert_eq!(x.name, "sfx01");
    assert_eq!(x.param3ds.len(), 1);
    assert_eq!(x.param3ds[0].inside_cone_angle, 90);
    assert_eq!(x.param3ds[0].minimum_distance_bits, 0x3F80_0000);
    assert_eq!(x.param3ds[0].unknown3, -1);
    assert_eq!(x.sounds.len(), 2);
    assert_eq!(x.sounds[0].bank, 0);
    assert_eq!(x.sounds[0].track, 0);
    assert!(x.sounds[0].events.is_empty());
    assert_eq!(x.sounds[0].volume_steps(), 25);
    assert_eq!(x.sounds[0].lfe_steps(), 3);
    assert_eq!(x.sounds[0].pitch, -12);
    assert_eq!(x.sounds[1].track, 1);
    assert_eq!(x.sounds[1].events.len(), 2);
    assert_eq!(x.sounds[1].events[0].timestamp, 5);
    assert_eq!(
        x.sounds[1].events[1].event,
        EventType::Play { loop_count: 1, track: 1, bank: 0 }
    );
    assert_eq!(x.cues.len(), 3);
    assert_eq!(x.cues[0].name, "intro_long");
    assert_eq!(x.cues[0].xfade, 7);
    assert_eq!(x.cues[1].sound, 1);
    // each track takes the shortest name of the cues that play it
    assert_eq!(x.banks[0].tracks[0].name.as_deref(), Some("intro"));
    assert_eq!(x.banks[0].tracks[1].name.as_deref(), Some("battle"));
    assert_eq!(x.banks[0].tracks[0].data, vec![1, 2, 3, 4]);
}

#[test]
fn sound_without_events_is_refused() {
    let mut b = sound_bank();
    put32(&mut b, 236, 240 << 8);
    let h = XsbHeader::read(&b).unwrap().unwrap();
    let bank = XWB::try_import(&two_track_bank()).unwrap().unwrap();
    assert_eq!(XSB::read_body(&b, h, vec![bank]).unwrap().err(), Some(XactError::NoEvents));
}

#[test]
fn sound_ending_without_play_is_refused() {
    let mut b = sound_bank();
    put32(&mut b, 236, (240 << 8) | 1);
    let h = XsbHeader::read(&b).unwrap().unwrap();
    let bank = XWB::try_import(&two_track_bank()).unwrap().unwrap();
    assert_eq!(
        XSB::read_body(&b, h, vec![bank]).unwrap().err(),
        Some(XactError::LastEventNotPlay)
    );
}

#[test]
fn cue_of_missing_track_is_none() {
    let b = sound_bank();
    let h = XsbHeader::read(&b).unwrap().unwrap();
    let one_track = xwb_bytes(
        "music",
        &[TrackSpec {
            flags_duration: 0,
            format_bits: pcm16_mono_22050(),
            data: vec![1],
            loop_offset: 0,
            loop_length: 0,
        }],
    );
    let bank = XWB::try_import(&one_track).unwrap().unwrap();
    assert!(XSB::read_body(&b, h, vec![bank]).is_none());
}

#[test]
fn event_types_are_read() {
    assert_eq!(
        EventType::import(0, 0, &[2, 0, 3, 0, 1, 0]),
        Some(EventType::Play { loop_count: 2, track: 3, bank: 1 })
    );
    // a complex play is not read
    assert_eq!(EventType::import(0, 4, &[2, 0, 3, 0, 1, 0]), None);
    assert_eq!(EventType::import(0, 0, &[2, 0, 3, 0]), None);
    let env = EventType::import(0x0A, 0, &[1, 0, 2, 0, 3, 0, 4, 0, 5, 0, 6, 0, 7, 8]).unwrap();
    assert_eq!(
        env,
        EventType::EnvelopeAmplitude {
            unknown0: 1,
            delay: 2,
            attack: 3,
            hold: 4,
            decay: 5,
            release: 6,
            sustain: 7,
            unknown1: 8
        }
    );
    assert_eq!(EventType::import(0x03, 0, &[0, 0]), None);
}

#[test]
fn events_follow_the_command_header() {
    let b = sound_bank();
    let evs: Vec<Event> = Event::import(&b, 236).unwrap();
    assert_eq!(evs.len(), 2);
    assert_eq!(evs[1].timestamp, 9);
    assert!(Event::import(&b, 270).is_none());
}

#[test]
fn sound_cue_and_param3d_records() {
    let b = sound_bank();
    let s = Sound::import(&b[116..136], &b).unwrap().unwrap();
    assert_eq!((s.bank, s.track), (0, 0));
    let q = Cue::import(&b[76..96], &b).unwrap();
    assert_eq!(q.name, "battle");
    let mut c = b[76..96].to_vec();
    put32(&mut c, 8, 0);
    assert!(Cue::import(&c, &b).is_none());
    let p = Param3D::import(&b[156..196]);
    assert_eq!(p.inside_cone_angle, 90);
    assert_eq!(p.unknown1, 0);
}

#[test]
fn which_tracks_can_be_written() {
    assert!(pcm_track().can_write());
    let mut t = pcm_track();
    t.bits_per_sample = 8000;
    assert!(!t.can_write());
    let mut t = pcm_track();
    t.channels = 40000;
    assert!(!t.can_write());
    let mut t = pcm_track();
    t.codec = Codec::ADPCM;
    t.bits_per_sample = 4;
    t.channels = 0;
    assert!(!t.can_write());
    t.channels = 1;
    assert!(t.can_write());
    let mut t = pcm_track();
    t.loop_region = slice(2, 2);
    t.samples_per_sec = 0;
    assert!(!t.can_write());
    t.codec = Codec::WMA;
    assert!(t.can_write());
}
