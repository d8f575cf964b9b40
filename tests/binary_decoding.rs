use guitarpro::binary::{
    read_byte_size_string, read_int, read_int_size_string, read_short, read_signed_byte,
    read_unsigned_byte_string, DecodeError,
};
use guitarpro::duration::Duration;
use guitarpro::legacy::{read_info, read_measure_header, read_midi_channels};
use guitarpro::song::{Song, TripletFeel};

fn be32(v: i32) -> Vec<u8> {
    v.to_be_bytes().to_vec()
}

fn int_string(s: &str) -> Vec<u8> {
    let mut out = be32(s.len() as i32);
    out.extend_from_slice(s.as_bytes());
    out
}

fn version_field(s: &str) -> Vec<u8> {
    let mut out = vec![s.len() as u8];
    out.extend_from_slice(s.as_bytes());
    out.resize(31, 0);
    out
}

fn info(names: [&str; 8], notices: &[&str]) -> Vec<u8> {
    let mut out = Vec::new();
    for n in names.iter() {
        out.extend(int_string(n));
    }
    out.extend(be32(notices.len() as i32));
    for n in notices {
        out.extend(int_string(n));
    }
    out
}

fn channels() -> Vec<u8> {
    let mut out = Vec::new();
    for i in 0..64 {
        out.extend(be32(25 + i));
        out.extend_from_slice(&[100, 64, 0, 0, 0, 0, 0, 0]);
    }
    out
}

fn gp3_document(track_count: i32) -> Vec<u8> {
    let mut d = version_field("FICHIER GUITAR PRO v3.00");
    d.extend(info(["Title", "Sub", "Artist", "Album", "Words", "(c)", "Tabber", "Play it"], &["n1"]));
    d.push(1);
    d.extend(be32(96));
    d.extend(be32(-2));
    d.extend(channels());
    d.extend(be32(2));
    d.extend(be32(track_count));
    d.extend_from_slice(&[0x03, 3, 4]);
    d.push(0x20 | 0x04);
    d.extend(int_string("Intro"));
    d.extend_from_slice(&[255, 0, 0, 0]);
    d
}

#[test]
fn gp3_header_sections_decode() {
    let mut song = Song::default();
    song.read_gp3(&gp3_document(0)).unwrap();
    assert_eq!(song.version, "FICHIER GUITAR PRO v3.00");
    assert_eq!(song.name, "Title");
    assert_eq!(song.subtitle, "Sub");
    assert_eq!(song.artist, "Artist");
    assert_eq!(song.album, "Album");
    assert_eq!(song.words, "Words");
    assert_eq!(song.author, "Words");
    assert_eq!(song.copyright, "(c)");
    assert_eq!(song.writer, "Tabber");
    assert_eq!(song.instructions, "Play it");
    assert_eq!(song.notice, vec!["n1".to_string()]);
    assert_eq!(song.triplet_feel, TripletFeel::Eighth);
    assert_eq!(song.tempo, 96);
    assert_eq!(song.key.key, -2);
    assert_eq!(song.channels.len(), 64);
    assert_eq!(song.tracks.len(), 0);
    assert_eq!(song.channels[3].program, 28);
    assert_eq!(song.channels[3].volume, 100);
    assert_eq!(song.channels[3].balance, 64);
    assert_eq!(song.measure_headers.len(), 2);
    assert_eq!(song.measure_headers[0].numerator, Some(3));
    assert_eq!(song.measure_headers[0].denominator, Some(4));
    assert!(song.measure_headers[1].repeat_open);
    assert_eq!(song.measure_headers[1].marker.as_ref().unwrap().title, "Intro");
    assert_eq!(song.measure_headers[1].marker.as_ref().unwrap().color, (255, 0, 0));
}

fn track_record(name: &str, strings: i32) -> Vec<u8> {
    let mut d = vec![0u8, name.len() as u8];
    d.extend_from_slice(name.as_bytes());
    d.resize(2 + 40, 0);
    d.extend(be32(strings));
    for t in [64, 59, 55, 50, 45, 40, 0] {
        d.extend(be32(t));
    }
    for v in [1, 2, 3, 24, 0] {
        d.extend(be32(v));
    }
    d.extend_from_slice(&[10, 20, 30, 0]);
    d
}

#[test]
fn gp3_tracks_and_measure_bodies_decode() {
    let mut d = gp3_document(1);
    d.extend(track_record("Guitar", 6));
    d.extend(be32(2));
    d.extend_from_slice(&[0x00, 0x00, 0x40, 0x20, 0x01, 0x05]);
    d.extend_from_slice(&[0x21, 0x01]);
    d.extend(be32(3));
    d.push(0x00);
    d.extend(be32(0));
    let mut song = Song::default();
    song.read_gp3(&d).unwrap();
    assert_eq!(song.track_headers.len(), 1);
    let h = &song.track_headers[0];
    assert_eq!(h.name, "Guitar");
    assert_eq!(h.tuning, vec![64, 59, 55, 50, 45, 40]);
    assert_eq!((h.port, h.channel, h.effect_channel, h.frets, h.offset), (1, 2, 3, 24, 0));
    assert_eq!(h.color, (10, 20, 30));
    assert_eq!(song.tracks.len(), 1);
    assert_eq!(song.tracks[0].measures.len(), 2);
    let beats = &song.tracks[0].measures[0].voices[0].beats;
    assert_eq!(beats.len(), 2);
    assert_eq!(beats[0].duration.value, 2);
    assert_eq!(beats[0].notes.len(), 1);
    assert_eq!(beats[0].notes[0].string, 1);
    assert_eq!(beats[0].notes[0].value, 5);
    assert_eq!(beats[1].duration.value, 3);
    assert!(beats[1].duration.dotted);
    assert_eq!((beats[1].duration.tuplet_enters, beats[1].duration.tuplet_times), (3, 2));
    assert_eq!(beats[1].notes.len(), 0);
    assert_eq!(song.tracks[0].measures[1].voices[0].beats.len(), 0);
}

fn rich_beat(fourth: bool) -> Vec<u8> {
    let mut d = vec![0x1e, 0x00, 0x00];
    d.extend(int_string("Am"));
    d.extend(be32(0));
    d.extend(int_string("hi"));
    if fourth {
        d.extend_from_slice(&[0x40, 0x02, 0x01, 0x02, 0x00]);
    } else {
        d.extend_from_slice(&[0x40, 0x01, 0x02]);
    }
    d.extend_from_slice(&[25, 0xff, 0xff, 0xff, 0xff, 0xff, 0xff]);
    d.extend(be32(-1));
    if fourth {
        d.push(0);
    }
    d.push(0x40);
    d.extend_from_slice(&[0x28, 0x01, 0x07]);
    if fourth {
        d.extend_from_slice(&[0x01, 0x08]);
    } else {
        d.push(0x01);
    }
    d.push(1);
    d.extend(be32(50));
    d.extend(be32(1));
    d.extend(vec![0u8; 9]);
    if fourth {
        d.push(3);
    }
    d
}

#[test]
fn gp3_chords_effects_and_mix_changes_are_read_past() {
    let mut d = gp3_document(1);
    d.extend(track_record("Guitar", 6));
    d.extend(be32(1));
    d.extend(rich_beat(false));
    d.extend(be32(0));
    let mut song = Song::default();
    song.read_gp3(&d).unwrap();
    let beats = &song.tracks[0].measures[0].voices[0].beats;
    assert_eq!(beats.len(), 1);
    assert_eq!(beats[0].notes.len(), 1);
    assert_eq!(beats[0].notes[0].value, 7);
    assert_eq!(song.tracks[0].measures[1].voices[0].beats.len(), 0);
    let mut bad = gp3_document(1);
    bad.extend(track_record("Guitar", 9));
    assert_eq!(Song::default().read_gp3(&bad), Err(DecodeError::Malformed));
}

#[test]
fn gp4_bodies_with_effects() {
    let mut d = version_field("FICHIER GUITAR PRO v4.06");
    d.extend(info(["T", "", "", "", "", "", "", ""], &[]));
    d.push(0);
    d.extend(be32(0));
    for _ in 0..5 {
        d.extend(be32(1));
        d.extend(int_string(""));
    }
    d.extend(be32(120));
    d.extend(be32(0));
    d.push(0);
    d.extend(channels());
    d.extend(be32(1));
    d.extend(be32(1));
    d.push(0);
    d.extend(track_record("Bass", 4));
    d.extend(be32(1));
    d.extend(rich_beat(true));
    let mut song = Song::default();
    song.read_gp4(&d).unwrap();
    assert_eq!(song.track_headers[0].tuning, vec![64, 59, 55, 50]);
    let beat = &song.tracks[0].measures[0].voices[0].beats[0];
    assert_eq!((beat.notes[0].string, beat.notes[0].value), (1, 7));
}

#[test]
fn gp4_reads_lyrics_and_octave() {
    let mut d = version_field("FICHIER GUITAR PRO v4.06");
    d.extend(info(["T", "", "", "", "", "", "", ""], &[]));
    d.push(0);
    d.extend(be32(2));
    for i in 0..5 {
        d.extend(be32(i + 1));
        d.extend(int_string(if i == 0 { "la la" } else { "" }));
    }
    d.extend(be32(120));
    d.extend(be32(1));
    d.push(0);
    d.extend(channels());
    d.extend(be32(0));
    d.extend(be32(0));
    let mut song = Song::default();
    song.read_gp4(&d).unwrap();
    assert_eq!(song.name, "T");
    assert_eq!(song.triplet_feel, TripletFeel::Straight);
    assert_eq!(song.lyrics.track_choice, 2);
    assert_eq!(song.lyrics.lines.len(), 5);
    assert_eq!(song.lyrics.lines[0].start, 1);
    assert_eq!(song.lyrics.lines[0].text, "la la");
    assert_eq!(song.tempo, 120);
    assert_eq!(song.key.key, 1);
}

fn gp5_document(tracks: i32) -> Vec<u8> {
    let mut d = version_field("FICHIER GUITAR PRO v5.10");
    d.extend(info(["T", "", "", "", "", "", "", ""], &[]));
    d.extend(be32(0));
    for _ in 0..5 {
        d.extend(be32(1));
        d.extend(int_string(""));
    }
    d.extend(vec![0u8; 19]);
    d.extend(vec![0u8; 30]);
    for _ in 0..10 {
        d.extend(int_string("%TITLE%"));
    }
    d.push(8);
    d.extend_from_slice(b"Moderate");
    d.extend(be32(100));
    d.push(1);
    d.push(0xfe);
    d.extend(be32(0));
    d.extend(channels());
    d.extend(vec![0xffu8; 38]);
    d.extend(be32(0));
    d.extend(be32(1));
    d.extend(be32(tracks));
    d.extend_from_slice(&[0x01, 6, 0x55, 0x55, 0x55, 0x55, 0, 0]);
    d
}

#[test]
fn gp5_reads_tempo_name_and_hidden_tempo() {
    let mut d = gp5_document(0);
    d.push(0);
    let mut song = Song::default();
    song.read_gp5(&d).unwrap();
    assert_eq!(song.tempo_name, "Moderate");
    assert_eq!(song.tempo, 100);
    assert!(song.hide_tempo);
    assert_eq!(song.key.key, -2);
    assert_eq!(song.measure_headers.len(), 1);
    assert_eq!(song.measure_headers[0].numerator, Some(6));
    assert_eq!(song.tracks.len(), 0);
}

#[test]
fn gp5_tracks_and_two_voice_bodies() {
    let mut d = gp5_document(1);
    d.push(0);
    d.extend(track_record("Lead", 6));
    d.extend(vec![0u8; 41 + 4 + 4]);
    d.extend(int_string("fx"));
    d.extend(int_string("cat"));
    d.push(0);
    d.extend(be32(1));
    d.extend_from_slice(&[0x00, 0x00, 0x40, 0x20, 0x01, 0x09, 0x00, 0x00, 0x00]);
    d.extend(be32(0));
    d.push(0);
    let mut song = Song::default();
    song.read_gp5(&d).unwrap();
    assert_eq!(song.tempo_name, "Moderate");
    assert_eq!(song.track_headers.len(), 1);
    assert_eq!(song.track_headers[0].name, "Lead");
    assert_eq!(song.tracks.len(), 1);
    let measure = &song.tracks[0].measures[0];
    assert_eq!(measure.voices.len(), 2);
    assert_eq!(measure.voices[0].beats.len(), 1);
    assert_eq!(measure.voices[0].beats[0].notes[0].value, 9);
    assert_eq!(measure.voices[1].beats.len(), 0);
}

#[test]
fn truncated_string_is_reported() {
    let data = [0u8, 0, 0, 5, b'a', b'b'];
    let mut seek = 0usize;
    assert_eq!(read_int_size_string(&data, &mut seek), Err(DecodeError::Truncated));
    let mut song = Song::default();
    let mut doc = gp3_document(0);
    doc.truncate(31 + 4 + 2);
    assert_eq!(song.read_gp3(&doc), Err(DecodeError::Truncated));
}

#[test]
fn integer_reads_are_big_endian() {
    let data = [0xff, 0xff, 0xff, 0xfe, 0x01, 0x02, 0x80];
    let mut seek = 0usize;
    assert_eq!(read_int(&data, &mut seek), Ok(-2));
    assert_eq!(seek, 4);
    assert_eq!(read_short(&data, &mut seek), Ok(0x0102));
    assert_eq!(read_signed_byte(&data, &mut seek), Ok(-128));
    assert_eq!(seek, 7);
    assert_eq!(read_signed_byte(&data, &mut seek), Err(DecodeError::Truncated));
}

#[test]
fn strings_decode_or_fail() {
    let mut seek = 0usize;
    assert_eq!(read_int_size_string(&[0, 0, 0, 2, 0xc3, 0xa9], &mut seek).unwrap(), "é");
    let mut seek = 0usize;
    assert_eq!(read_int_size_string(&[0, 0, 0, 1, 0xff], &mut seek), Err(DecodeError::Encoding));
    let mut seek = 0usize;
    assert_eq!(read_int_size_string(&[0xff, 0xff, 0xff, 0xff], &mut seek), Err(DecodeError::Malformed));
    let mut seek = 0usize;
    assert_eq!(read_byte_size_string(&[2, b'h', b'i', b'x', b'x'], &mut seek, 4).unwrap(), "hi");
    assert_eq!(seek, 5);
    let mut seek = 0usize;
    assert_eq!(read_byte_size_string(&[5, b'h'], &mut seek, 4), Err(DecodeError::Malformed));
    assert_eq!(read_unsigned_byte_string(&vec![0, b'H', 0, b'i', 0x26, 0x6d]).unwrap(), "Hi♭");
    assert_eq!(read_unsigned_byte_string(&vec![0xd8, 0x00]), Err(DecodeError::Encoding));
    assert_eq!(read_unsigned_byte_string(&vec![0, b'H', 0]), Err(DecodeError::Truncated));
}

#[test]
fn info_and_channels_read_in_sequence() {
    let mut d = info(["a", "b", "c", "d", "e", "f", "g", "h"], &["x", "y"]);
    d.extend(channels());
    let mut seek = 0usize;
    let i = read_info(&d, &mut seek).unwrap();
    assert_eq!(i.name, "a");
    assert_eq!(i.instructions, "h");
    assert_eq!(i.notices, vec!["x".to_string(), "y".to_string()]);
    let cs = read_midi_channels(&d, &mut seek).unwrap();
    assert_eq!(cs.len(), 64);
    assert_eq!(cs[63].channel, 63);
    assert_eq!(seek, d.len());
}

#[test]
fn measure_header_flags() {
    let data = [0x08 | 0x10 | 0x40 | 0x80, 2, 3, 0xff, 1];
    let mut seek = 0usize;
    let h = read_measure_header(&data, &mut seek, false, true).unwrap();
    assert_eq!(h.repeat_close, Some(2));
    assert_eq!(h.repeat_alternative, Some(3));
    assert_eq!(h.key, Some((-1, 1)));
    assert!(h.double_bar);
    assert_eq!(h.numerator, None);
    assert_eq!(seek, 5);
}

#[test]
fn stored_durations() {
    let mut seek = 0usize;
    let d = Duration::read(&[0], &mut seek, 0).unwrap();
    assert_eq!(d.value, 2);
    assert_eq!(d.time(), 960);
    let mut seek = 0usize;
    let data = [1u8, 0, 0, 0, 3];
    let d = Duration::read(&data, &mut seek, 0x21).unwrap();
    assert_eq!(d.value, 3);
    assert!(d.dotted);
    assert_eq!((d.tuplet_enters, d.tuplet_times), (3, 2));
    assert_eq!(d.time(), 1080);
    let mut seek = 0usize;
    assert_eq!(Duration::read(&[0xfe], &mut seek, 0).unwrap().value, 0);
    let mut seek = 0usize;
    assert_eq!(Duration::read(&[9], &mut seek, 0), Err(DecodeError::Malformed));
}

fn tg_string(s: &str) -> Vec<u8> {
    let units: Vec<u16> = s.encode_utf16().collect();
    let mut out = vec![units.len() as u8];
    for u in units {
        out.extend_from_slice(&u.to_be_bytes());
    }
    out
}

fn tg_document(headers: u8) -> Vec<u8> {
    tg_document_with(&[("key", 7)], headers)
}

fn tg_document_with(params: &[(&str, u32)], headers: u8) -> Vec<u8> {
    let mut d = tg_string("TG 1.0");
    for f in ["Name", "Artist", "Album", "Author", "2020", "(c)", "Writer", "Transcriber"] {
        d.extend(tg_string(f));
    }
    let comments: Vec<u8> = "ok".encode_utf16().flat_map(|u| u.to_be_bytes()).collect();
    d.extend(be32(comments.len() as i32));
    d.extend(comments);
    d.push(1);
    d.extend_from_slice(&[0x01, 0x02]);
    d.extend_from_slice(&[0, 25, 127, 64, 0, 0, 0, 0]);
    d.extend(tg_string("Lead"));
    d.extend_from_slice(&(params.len() as u16).to_be_bytes());
    for (k, v) in params {
        d.extend(tg_string(k));
        d.extend_from_slice(&v.to_be_bytes());
    }
    d.push(headers);
    d.push(0);
    d
}

#[test]
fn tuxguitar_information_and_channels() {
    let mut song = Song::default();
    song.tg_read_data(&tg_document(0)).unwrap();
    assert_eq!(song.version, "");
    assert_eq!(song.tempo_name, "Moderate");
    assert_eq!(song.name, "Name");
    assert_eq!(song.date, "2020");
    assert_eq!(song.transcriber, "Transcriber");
    assert_eq!(song.comments, "ok");
    assert_eq!(song.channels.len(), 1);
    assert_eq!(song.channels[0].channel, 0x0102);
    assert_eq!(song.channels[0].program, 25);
    assert_eq!(song.channels[0].volume, 127);
    assert_eq!(song.channels[0].name, "Lead");
    assert_eq!(song.channels[0].parameters, vec![("key".to_string(), 7u32)]);
}

#[test]
fn tuxguitar_keeps_empty_fields_and_appends_channels() {
    let mut d = tg_string("TG");
    d.extend(tg_string(""));
    for f in ["Artist", "", "", "", "", "", ""] {
        d.extend(tg_string(f));
    }
    d.extend(be32(0));
    d.push(1);
    d.extend_from_slice(&[0, 5, 0, 1, 2, 3, 4, 5, 6, 7]);
    d.extend(tg_string(""));
    d.extend_from_slice(&[0, 0]);
    d.extend_from_slice(&[0, 0]);
    let mut song = Song::default();
    song.tg_read_data(&tg_document(0)).unwrap();
    song.tg_read_data(&d).unwrap();
    assert_eq!(song.name, "Name");
    assert_eq!(song.artist, "Artist");
    assert_eq!(song.comments, "ok");
    assert_eq!(song.channels.len(), 2);
    assert_eq!(song.channels[0].name, "Lead");
    assert_eq!(song.channels[1].channel, 5);
    assert_eq!(song.channels[1].tremolo, 7);
}

#[test]
fn tuxguitar_header_and_track_counts_are_read() {
    let mut song = Song::default();
    song.tg_read_data(&tg_document(2)).unwrap();
    assert_eq!(song.name, "Name");
    assert_eq!(song.channels.len(), 1);
}

#[test]
fn tuxguitar_repeated_parameter_keeps_last_value() {
    let mut song = Song::default();
    song.tg_read_data(&tg_document_with(&[("key", 7), ("other", 1), ("key", 9)], 0)).unwrap();
    assert_eq!(song.channels[0].parameters, vec![("key".to_string(), 9u32), ("other".to_string(), 1u32)]);
}

#[test]
fn tuxguitar_cut_short_is_truncated() {
    let mut song = Song::default();
    let mut short = tg_document(0);
    short.truncate(10);
    assert_eq!(song.tg_read_data(&short), Err(DecodeError::Truncated));
}
