//! The MP4 muxer: boxes, fragments, tables, and whole files.

use std::sync::Arc;

use clipd::audio::AudioTrackKind;
use clipd::constants::mux::{AUDIO_SAMPLE_DELTA, VIDEO_SAMPLE_DELTA};
use clipd::encode::{EncodedAudioPacket, EncodedPacket};
use clipd::mux::boxes::{
    build_esds, build_placeholder_box, expandable_len, fullbox, giant_mdat_header, mp4box,
    AudioTrackConfig, PLACEHOLDER_LEN,
};
use clipd::mux::fmp4::{plan_head_fill, AudioTrack, Fmp4Writer};
use clipd::mux::fragment::build_fragment;
use clipd::mux::movie::{build_audio_trak, build_moov};
use clipd::mux::nal::{annexb_nals, build_avcc, nal_type, sample_to_avcc};
use clipd::mux::reader::find_top_level_box;
use clipd::mux::tables::{
    build_co64, build_edts, build_stsc, build_stss, build_stsz, build_stts, to_movie_ts,
};
use clipd::mux::timeline::MAX_HEAD_SILENCE_AUS;

fn read_box_size(bytes: &[u8]) -> u32 {
    u32::from_be_bytes([bytes[0], bytes[1], bytes[2], bytes[3]])
}

fn top_boxes(mut data: &[u8]) -> Vec<([u8; 4], usize)> {
    let mut out = Vec::new();
    while data.len() >= 8 {
        let size = read_box_size(data) as usize;
        let typ = [data[4], data[5], data[6], data[7]];
        if size == 0 || size > data.len() {
            break;
        }
        out.push((typ, size));
        data = &data[size..];
    }
    out
}

fn find_box<'a>(data: &'a [u8], typ: &[u8; 4]) -> Option<&'a [u8]> {
    let mut d = data;
    while d.len() >= 8 {
        let size = read_box_size(d) as usize;
        if size == 0 || size > d.len() {
            return None;
        }
        if &d[4..8] == typ {
            return Some(&d[..size]);
        }
        d = &d[size..];
    }
    None
}

fn sample_avcc() -> Vec<u8> {
    build_avcc(&[0x67, 0x42, 0xC0, 0x1F], &[0x68, 0xCE])
}

fn asc_48k_stereo() -> Vec<u8> {
    vec![0x11, 0x90]
}


#[test]
fn plan_head_fill_edges() {
    assert_eq!(plan_head_fill(0, 0, true), (0, 0));
    assert_eq!(plan_head_fill(0, 0, false), (0, 0));

    assert_eq!(plan_head_fill(500, 1000, true), (0, 0));

    assert_eq!(plan_head_fill(100_000, 0, true), (0, 480));

    assert_eq!(plan_head_fill(213_334, 0, true), (1, 0));

    assert_eq!(plan_head_fill(533_334, 0, true), (2, 512));

    assert_eq!(plan_head_fill(650_000, 0, false), (0, 3120));

    let (k, off) = plan_head_fill(100_000_000, 0, true);
    assert_eq!(k, MAX_HEAD_SILENCE_AUS);
    assert!(off >= AUDIO_SAMPLE_DELTA as u64);
    assert_eq!(k * AUDIO_SAMPLE_DELTA as u64 + off, 480_000);
}

fn writer_with_one_audio_track(silent_au: Vec<u8>, origin: i64) -> Fmp4Writer {
    let config = AudioTrackConfig {
        asc: asc_48k_stereo(),
        channels: 2,
        sample_rate: 48_000,
        silent_au,
    };
    let (mut w, _head) = Fmp4Writer::create_from_parts(sample_avcc(), 1920, 1080, 60, &[config]);
    let _ = w.write_video_packet(&vpacket(origin, 0x11, true));
    w
}

fn au(pts: i64, bytes: &[u8]) -> EncodedAudioPacket {
    EncodedAudioPacket {
        stream: AudioTrackKind::Mix,
        data: Arc::from(bytes),
        pts,
        duration: 213_333,
    }
}

#[test]
fn place_audio_prepends_silence_for_a_late_track() {
    let silence = vec![0xAAu8, 0xBB];
    let mut w = writer_with_one_audio_track(silence.clone(), 0);
    let real = vec![0x01u8, 0x02, 0x03];
    let _ = w.write_audio_packet(0, &au(650_000, &real));

    let track = &w.audio[0];
    assert_eq!(track.initial_offset, Some(48));
    assert_eq!(track.pending.len(), 4);
    assert_eq!(&track.pending[0], &silence);
    assert_eq!(&track.pending[1], &silence);
    assert_eq!(&track.pending[2], &silence);
    assert_eq!(&track.pending[3], &real);
}

#[test]
fn place_audio_without_template_keeps_legacy_head_slack() {
    let mut w = writer_with_one_audio_track(Vec::new(), 0);
    let real = vec![0x01u8, 0x02, 0x03];
    let _ = w.write_audio_packet(0, &au(650_000, &real));

    let track = &w.audio[0];
    assert_eq!(track.initial_offset, Some(3120));
    assert_eq!(track.pending.len(), 1);
    assert_eq!(&track.pending[0], &real);
}

#[test]
fn place_audio_drops_aus_before_origin() {
    let mut w = writer_with_one_audio_track(vec![0xAAu8], 1000);
    let _ = w.write_audio_packet(0, &au(500, &[0x09u8]));
    assert_eq!(w.audio[0].initial_offset, None);
    assert!(w.audio[0].pending.is_empty());
}

#[test]
fn mp4box_size_and_type() {
    let b = mp4box(b"free", &[1, 2, 3]);
    assert_eq!(read_box_size(&b), 11);
    assert_eq!(&b[4..8], b"free");
    assert_eq!(&b[8..], &[1, 2, 3]);
}

#[test]
fn expandable_len_small_is_single_byte() {
    assert_eq!(expandable_len(2), vec![0x02]);
    assert_eq!(expandable_len(127), vec![0x7f]);
}

#[test]
fn expandable_len_multibyte_sets_continuation() {
    assert_eq!(expandable_len(128), vec![0x81, 0x00]);
    assert_eq!(expandable_len(300), vec![0x82, 0x2c]);
}

#[test]
fn esds_nests_descriptors_and_carries_asc() {
    let asc = asc_48k_stereo();
    let esds = build_esds(&asc);
    assert_eq!(&esds[4..8], b"esds");
    assert!(
        esds.windows(asc.len()).any(|w| w == asc.as_slice()),
        "ASC not embedded in esds"
    );
    assert_eq!(esds[12], 0x03);
}

#[test]
fn moov_with_two_audio_tracks_nests_and_counts_tracks() {
    let audio = vec![
        AudioTrack::new(2, AudioTrackConfig {
                asc: asc_48k_stereo(),
                channels: 2,
                sample_rate: 48_000,
                silent_au: Vec::new(),
            }),
        AudioTrack::new(3, AudioTrackConfig {
                asc: asc_48k_stereo(),
                channels: 2,
                sample_rate: 48_000,
                silent_au: Vec::new(),
            }),
    ];
    let moov = build_moov(&sample_avcc(), 1920, 1080, 60_000, &audio);
    assert_eq!(read_box_size(&moov) as usize, moov.len());
    assert_eq!(&moov[4..8], b"moov");

    let inner = &moov[8..];
    let boxes = top_boxes(inner);
    let traks = boxes.iter().filter(|(t, _)| t == b"trak").count();
    assert_eq!(traks, 3, "expected 3 traks, got {traks}");
    assert_eq!(boxes.iter().filter(|(t, _)| t == b"mvex").count(), 1);

    let mvhd = find_box(inner, b"mvhd").expect("mvhd");
    let next_id = read_box_size(&mvhd[mvhd.len() - 4..]);
    assert_eq!(next_id, 4);
}

#[test]
fn audio_trak_has_soun_handler_and_mp4a() {
    let track = AudioTrack::new(2, AudioTrackConfig {
            asc: asc_48k_stereo(),
            channels: 2,
            sample_rate: 48_000,
            silent_au: Vec::new(),
        });
    let trak = build_audio_trak(&track);
    assert!(find_box(&trak, b"trak").is_some());
    assert!(
        trak.windows(4).any(|w| w == b"soun"),
        "no soun handler in audio trak"
    );
    assert!(
        trak.windows(4).any(|w| w == b"mp4a"),
        "no mp4a sample entry in audio trak"
    );
}

#[test]
fn audio_fragment_uses_1024_sample_delta_and_sync_flags() {
    let samples = vec![(vec![0xAAu8; 8], true), (vec![0xBBu8; 12], true)];
    let (moof, mdat) = build_fragment(1, 2, 0, AUDIO_SAMPLE_DELTA, &samples);
    assert_eq!(&moof[4..8], b"moof");
    assert_eq!(read_box_size(&mdat) as usize, mdat.len());
    assert!(
        moof.windows(4)
            .any(|w| w == AUDIO_SAMPLE_DELTA.to_be_bytes()),
        "audio trun missing 1024 sample delta"
    );
}

#[test]
fn fragment_data_offset_points_at_mdat_payload() {
    let samples = vec![(vec![0xAAu8; 10], true), (vec![0xBBu8; 20], false)];
    let (moof, mdat) = build_fragment(1, 1, 0, VIDEO_SAMPLE_DELTA, &samples);
    assert_eq!(read_box_size(&mdat), 38);
    let mfhd_len = fullbox(b"mfhd", 0, 0, &1u32.to_be_bytes()).len();
    let tfhd_len = fullbox(b"tfhd", 0, 0x02_0000, &1u32.to_be_bytes()).len();
    let tfdt_len = fullbox(b"tfdt", 1, 0, &0u64.to_be_bytes()).len();
    let pos = 8 + mfhd_len + 8 + tfhd_len + tfdt_len + 16;
    let data_offset =
        i32::from_be_bytes([moof[pos], moof[pos + 1], moof[pos + 2], moof[pos + 3]]);
    assert_eq!(data_offset as usize, moof.len() + 8);
}

#[test]
fn annexb_splits_3_and_4_byte_start_codes() {
    let data = [
        0, 0, 0, 1, 0x67, 0xAA,
        0, 0, 1, 0x68, 0xBB,
        0, 0, 0, 1, 0x65, 0xCC, 0xDD,
    ];
    let nals = annexb_nals(&data);
    assert_eq!(nals.len(), 3);
    assert_eq!(nal_type(nals[0]), 7);
    assert_eq!(nal_type(nals[2]), 5);
}

#[test]
fn sample_to_avcc_strips_params_and_length_prefixes() {
    let data = [
        0, 0, 0, 1, 0x67, 0xAA,
        0, 0, 0, 1, 0x68, 0xBB,
        0, 0, 0, 1, 0x65, 0xCC, 0xDD, 0xEE,
    ];
    let avcc = sample_to_avcc(&data);
    assert_eq!(avcc, vec![0, 0, 0, 4, 0x65, 0xCC, 0xDD, 0xEE]);
}

#[test]
fn avcc_record_layout() {
    let sps = [0x67, 0x42, 0xC0, 0x1F, 0x00];
    let pps = [0x68, 0xCE, 0x3C, 0x80];
    let avcc = build_avcc(&sps, &pps);
    assert_eq!(avcc[0], 1);
    assert_eq!(avcc[1], 0x42);
    assert_eq!(avcc[3], 0x1F);
    assert_eq!(avcc[4], 0xFF);
    assert_eq!(avcc[5], 0xE1);
}


fn read_u32(b: &[u8], at: usize) -> u32 {
    u32::from_be_bytes([b[at], b[at + 1], b[at + 2], b[at + 3]])
}

fn find_box_deep<'a>(data: &'a [u8], typ: &[u8; 4]) -> Option<&'a [u8]> {
    let mut d = data;
    while d.len() >= 8 {
        let size = read_box_size(d) as usize;
        if size < 8 || size > d.len() {
            return None;
        }
        if &d[4..8] == typ {
            return Some(&d[..size]);
        }
        if matches!(
            &d[4..8],
            b"moov" | b"trak" | b"mdia" | b"minf" | b"stbl" | b"edts"
        ) {
            if let Some(found) = find_box_deep(&d[8..size], typ) {
                return Some(found);
            }
        }
        d = &d[size..];
    }
    None
}

#[test]
fn to_movie_ts_rounds_half_up() {
    assert_eq!(to_movie_ts(1024, 48_000), 21);
    assert_eq!(to_movie_ts(3000, 60_000), 50);
    assert_eq!(to_movie_ts(48_000, 48_000), 1000);
    assert_eq!(to_movie_ts(0, 48_000), 0);
}

#[test]
fn stts_is_one_run_of_the_delta() {
    let stts = build_stts(5, AUDIO_SAMPLE_DELTA);
    assert_eq!(&stts[4..8], b"stts");
    let p = &stts[12..];
    assert_eq!(read_u32(p, 0), 1);
    assert_eq!(read_u32(p, 4), 5);
    assert_eq!(read_u32(p, 8), AUDIO_SAMPLE_DELTA);
    let empty = build_stts(0, AUDIO_SAMPLE_DELTA);
    assert_eq!(read_u32(&empty[12..], 0), 0);
}

#[test]
fn stsz_lists_every_sample_size() {
    let stsz = build_stsz(&[10, 20, 30]);
    let p = &stsz[12..];
    assert_eq!(read_u32(p, 0), 0);
    assert_eq!(read_u32(p, 4), 3);
    assert_eq!(read_u32(p, 8), 10);
    assert_eq!(read_u32(p, 12), 20);
    assert_eq!(read_u32(p, 16), 30);
}

#[test]
fn stsc_run_length_collapses_equal_chunks() {
    let chunks = [(100u64, 47u32), (200, 47), (300, 12)];
    let stsc = build_stsc(&chunks);
    let p = &stsc[12..];
    assert_eq!(read_u32(p, 0), 2);
    assert_eq!(read_u32(p, 4), 1);
    assert_eq!(read_u32(p, 8), 47);
    assert_eq!(read_u32(p, 12), 1);
    assert_eq!(read_u32(p, 16), 3);
    assert_eq!(read_u32(p, 20), 12);
}

#[test]
fn co64_carries_64bit_offsets() {
    let chunks = [(0x1_0000_0000u64, 1u32), (0x1_0000_0040, 1)];
    let co64 = build_co64(&chunks);
    assert_eq!(&co64[4..8], b"co64");
    let p = &co64[12..];
    assert_eq!(read_u32(p, 0), 2);
    assert_eq!(
        u64::from_be_bytes(p[4..12].try_into().unwrap()),
        0x1_0000_0000
    );
    assert_eq!(
        u64::from_be_bytes(p[12..20].try_into().unwrap()),
        0x1_0000_0040
    );
}

#[test]
fn stss_omitted_when_all_sync_and_lists_keyframes_otherwise() {
    assert!(build_stss(&[true, true, true]).is_none());
    let stss = build_stss(&[true, false, false, true]).expect("stss");
    let p = &stss[12..];
    assert_eq!(read_u32(p, 0), 2);
    assert_eq!(read_u32(p, 4), 1);
    assert_eq!(read_u32(p, 8), 4);
}

#[test]
fn edts_has_empty_edit_then_media_edit() {
    let edts = build_edts(9, 1000);
    assert_eq!(&edts[4..8], b"edts");
    let elst = find_box_deep(&edts, b"elst").expect("elst");
    let p = &elst[12..];
    assert_eq!(read_u32(p, 0), 2);
    assert_eq!(read_u32(p, 4), 9);
    assert_eq!(read_u32(p, 8), 0xFFFF_FFFF);
    assert_eq!(read_u32(p, 16), 1000);
    assert_eq!(read_u32(p, 20), 0);
}

#[test]
fn placeholder_and_giant_mdat_header_are_16_bytes() {
    let ph = build_placeholder_box();
    assert_eq!(ph.len(), PLACEHOLDER_LEN as usize);
    assert_eq!(read_u32(&ph, 0), 1);
    assert_eq!(&ph[4..8], b"free");
    assert_eq!(
        u64::from_be_bytes(ph[8..16].try_into().unwrap()),
        PLACEHOLDER_LEN
    );

    let h = giant_mdat_header(0xDEAD_BEEF);
    assert_eq!(read_u32(&h, 0), 1);
    assert_eq!(&h[4..8], b"mdat");
    assert_eq!(
        u64::from_be_bytes(h[8..16].try_into().unwrap()),
        0xDEAD_BEEF
    );
}

struct BoxHdr {
    offset: u64,
    size: u64,
    typ: [u8; 4],
}

fn top_boxes_largesize(mut data: &[u8]) -> Vec<BoxHdr> {
    let mut out = Vec::new();
    let mut pos = 0u64;
    while data.len() >= 8 {
        let size32 = read_box_size(data);
        let typ = [data[4], data[5], data[6], data[7]];
        let size = if size32 == 1 {
            if data.len() < 16 {
                break;
            }
            u64::from_be_bytes(data[8..16].try_into().unwrap())
        } else {
            size32 as u64
        };
        if size < 8 || size as usize > data.len() {
            break;
        }
        out.push(BoxHdr {
            offset: pos,
            size,
            typ,
        });
        data = &data[size as usize..];
        pos += size;
    }
    out
}

fn cfg(sample_rate: u32) -> AudioTrackConfig {
    AudioTrackConfig {
        asc: asc_48k_stereo(),
        channels: 2,
        sample_rate,
        silent_au: vec![0x07u8, 0x08, 0x09, 0x0A],
    }
}

fn vpacket(pts: i64, byte: u8, keyframe: bool) -> EncodedPacket {
    let nal_type = if keyframe { 0x65u8 } else { 0x41 };
    EncodedPacket {
        data: Arc::from([0u8, 0, 0, 1, nal_type, byte].as_slice()),
        pts,
        duration: 166_667,
        is_keyframe: keyframe,
        epoch_id: 0,
    }
}

fn apacket(pts: i64, fill: u8) -> EncodedAudioPacket {
    EncodedAudioPacket {
        stream: AudioTrackKind::Mix,
        data: Arc::from([fill; 6].as_slice()),
        pts,
        duration: 213_333,
    }
}

#[test]
fn finalize_produces_progressive_moov_over_giant_mdat() {
    let audio = vec![cfg(48_000), cfg(48_000)];
    let (mut w, mut written) =
        Fmp4Writer::create_from_parts(sample_avcc(), 1920, 1080, 60, &audio);

    written.extend(w.write_video_packet(&vpacket(0, 0x11, true)));
    written.extend(w.write_video_packet(&vpacket(166_667, 0x22, false)));
    written.extend(w.write_video_packet(&vpacket(333_334, 0x33, false)));

    for i in 0..5u64 {
        written.extend(w.write_audio_packet(0, &apacket(300_000 + i as i64 * 213_333, 0xA0 + i as u8)));
    }

    let bytes = w.finish().apply(written);

    let boxes = top_boxes_largesize(&bytes);
    let types: Vec<[u8; 4]> = boxes.iter().map(|b| b.typ).collect();
    assert_eq!(
        types,
        vec![*b"ftyp", *b"mdat", *b"moov"],
        "finalized top-level layout must be ftyp/mdat/moov"
    );

    let mdat = &boxes[1];
    let moov = &boxes[2];
    assert_eq!(
        mdat.offset + mdat.size,
        moov.offset,
        "mdat must span up to moov"
    );
    assert_eq!(
        read_u32(&bytes[mdat.offset as usize..], 0),
        1,
        "mdat must be largesize"
    );

    let moov_bytes = &bytes[moov.offset as usize..(moov.offset + moov.size) as usize];

    let inner = top_boxes(&moov_bytes[8..]);
    assert_eq!(
        inner.iter().filter(|(t, _)| t == b"trak").count(),
        2,
        "expected video + 1 audio trak (empty track dropped)"
    );
    assert_eq!(inner.iter().filter(|(t, _)| t == b"mvex").count(), 0);

    assert!(find_box_deep(moov_bytes, b"co64").is_some(), "co64 missing");
    assert!(
        find_box_deep(moov_bytes, b"stss").is_some(),
        "video stss missing"
    );
    assert!(
        find_box_deep(moov_bytes, b"elst").is_some(),
        "audio elst missing"
    );

    let co64 = find_box_deep(moov_bytes, b"co64").unwrap();
    let first_off = u64::from_be_bytes(co64[16..24].try_into().unwrap()) as usize;
    assert_eq!(
        &bytes[first_off..first_off + 6],
        &[0, 0, 0, 2, 0x65, 0x11],
        "co64[0] must point at the first video sample bytes inside the mdat"
    );

}

#[test]
fn finalize_without_video_stays_fragmented() {
    let (mut w, mut written) =
        Fmp4Writer::create_from_parts(sample_avcc(), 1920, 1080, 60, &[cfg(48_000)]);
    written.extend(w.write_audio_packet(0, &apacket(0, 0x55)));
    let bytes = w.finish().apply(written);

    let boxes = top_boxes_largesize(&bytes);
    assert!(
        boxes.iter().any(|b| &b.typ == b"free"),
        "placeholder must stay free"
    );
    assert_eq!(boxes.iter().filter(|b| &b.typ == b"moov").count(), 1);
}

#[test]
fn a_first_unit_is_placed_to_the_nearest_sample() {
    assert_eq!(plan_head_fill(213_333, 0, false), (0, 1024));
    assert_eq!(plan_head_fill(213_333, 0, true), (1, 0));
    assert_eq!(plan_head_fill(104, 0, false), (0, 0));
    assert_eq!(plan_head_fill(105, 0, false), (0, 1));
    assert_eq!(plan_head_fill(312, 0, false), (0, 1));
    assert_eq!(plan_head_fill(313, 0, false), (0, 2));
}

#[test]
fn a_box_smaller_than_its_header_is_not_found() {
    assert_eq!(find_top_level_box(&[0, 0, 0, 4, b'm', b'o', b'o', b'v'], b"moov"), None);
    assert_eq!(
        find_top_level_box(&[0, 0, 0, 8, b'm', b'o', b'o', b'v'], b"moov"),
        Some((8, 0))
    );
    let mut large = vec![0, 0, 0, 1, b'm', b'o', b'o', b'v'];
    large.extend([0, 0, 0, 0, 0, 0, 0, 15]);
    assert_eq!(find_top_level_box(&large, b"moov"), None);
    large[15] = 16;
    assert_eq!(find_top_level_box(&large, b"moov"), Some((16, 0)));
}

#[test]
fn splitting_undoes_joining() {
    let units: [&[u8]; 4] = [&[0x67, 0, 0, 3, 0xAA], &[1], &[0, 0, 2], &[0x65, 0xCC]];
    let mut stream = Vec::new();
    for (k, unit) in units.iter().enumerate() {
        if k % 2 == 0 {
            stream.push(0);
        }
        stream.extend([0, 0, 1]);
        stream.extend(*unit);
        stream.resize(stream.len() + k, 0);
    }
    assert_eq!(annexb_nals(&stream), units);
}

#[test]
fn a_sample_reads_back() {
    let data = [
        0, 0, 0, 1, 0x09, 0xF0,
        0, 0, 1, 0x67, 0xAA,
        0, 0, 0, 1, 0x65, 0xCC, 0xDD,
        0, 0, 1, 0x06, 0x05, 0x80,
    ];
    let sample = sample_to_avcc(&data);
    let mut units: Vec<Vec<u8>> = Vec::new();
    let mut at = 0usize;
    while at < sample.len() {
        let n = u32::from_be_bytes([sample[at], sample[at + 1], sample[at + 2], sample[at + 3]]);
        let end = at + 4 + n as usize;
        units.push(sample[at + 4..end].to_vec());
        at = end;
    }
    assert_eq!(units, vec![vec![0x65, 0xCC, 0xDD], vec![0x06, 0x05, 0x80]]);
}
