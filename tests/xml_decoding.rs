use guitarpro::convert::Collection;
use guitarpro::cursor::{ReaderExt, XmlError};
use guitarpro::load::{load_score, LoadError};
use guitarpro::property::{read_properties, NoteProperty, Pitch};
use guitarpro::token::{tokenize, XmlToken};

fn note_xml(id: u32, string: u8, fret: u8) -> String {
    format!(
        "<Note id=\"{}\"><InstrumentArticulation>0</InstrumentArticulation><Properties>\
         <Property name=\"String\"><String>{}</String></Property>\
         <Property name=\"Fret\"><Fret>{}</Fret></Property></Properties></Note>",
        id, string, fret
    )
}

fn document(bars: &str, voices: &str, beats: &str, notes: &str, rhythms: &str) -> String {
    format!(
        "<?xml version=\"1.0\" encoding=\"utf-8\"?>\n<GPIF>\n<GPVersion>7</GPVersion>\n\
         <Score><Title><![CDATA[Test Song]]></Title><Artist>Someone</Artist><Music>Composer</Music>\
         <Notices>first</Notices><Notices>second</Notices></Score>\n\
         <MasterTrack><Tracks>0 1</Tracks></MasterTrack>\n\
         <MasterBars><MasterBar><Time>4/4</Time><Bars>0 1</Bars></MasterBar></MasterBars>\n\
         <Bars>{}</Bars>\n<Voices>{}</Voices>\n<Beats>{}</Beats>\n<Notes>{}</Notes>\n<Rhythms>{}</Rhythms>\n</GPIF>\n",
        bars, voices, beats, notes, rhythms
    )
}

fn two_track_document() -> String {
    document(
        "<Bar id=\"0\"><Clef>G2</Clef><Voices>0 -1 -1 -1</Voices></Bar>\
         <Bar id=\"1\"><Clef>G2</Clef><Voices>1 -1 -1 -1</Voices></Bar>",
        "<Voice id=\"0\"><Beats>0</Beats></Voice><Voice id=\"1\"><Beats>1</Beats></Voice>",
        "<Beat id=\"0\"><Rhythm ref=\"0\"/><Notes>0</Notes></Beat>\
         <Beat id=\"1\"><Rhythm ref=\"0\"/><Notes>1</Notes></Beat>",
        &(note_xml(0, 1, 3) + &note_xml(1, 1, 3)),
        "<Rhythm id=\"0\"><NoteValue>Quarter</NoteValue></Rhythm>",
    )
}

#[test]
fn two_bars_decode_to_two_tracks() {
    let song = load_score(two_track_document().into_bytes()).unwrap();
    assert_eq!(song.tracks.len(), 2);
    for track in &song.tracks {
        assert_eq!(track.measures.len(), 1);
        let measure = &track.measures[0];
        assert_eq!(measure.voices.len(), 1);
        let voice = &measure.voices[0];
        assert_eq!(voice.beats.len(), 1);
        let beat = &voice.beats[0];
        assert_eq!(beat.duration.value, 2);
        assert!(!beat.duration.dotted);
        assert_eq!(beat.notes.len(), 1);
        assert_eq!(beat.notes[0].string, 1);
        assert_eq!(beat.notes[0].value, 3);
    }
    assert_eq!(song.name, "Test Song");
    assert_eq!(song.artist, "Someone");
    assert_eq!(song.author, "Composer");
    assert_eq!(song.album, "");
    assert_eq!(song.notice, vec!["first".to_string(), "second".to_string()]);
}

#[test]
fn beat_without_notes_is_a_rest() {
    let doc = document(
        "<Bar><Voices>0</Voices></Bar><Bar><Voices>0</Voices></Bar>",
        "<Voice><Beats>0</Beats></Voice>",
        "<Beat><Rhythm ref=\"0\"/></Beat>",
        "",
        "<Rhythm><NoteValue>Half</NoteValue><AugmentationDot count=\"1\"/></Rhythm>",
    );
    let song = load_score(doc.into_bytes()).unwrap();
    let beat = &song.tracks[0].measures[0].voices[0].beats[0];
    assert_eq!(beat.notes.len(), 0);
    assert_eq!(beat.duration.value, 1);
    assert!(beat.duration.dotted);
    assert_eq!(beat.duration.time(), 2880);
}

#[test]
fn unknown_property_fails_the_decode() {
    let notes = "<Note><Properties><Property name=\"String\"><String>1</String></Property>\
                 <Property name=\"Unknown\"><Whatever>1</Whatever></Property></Properties></Note>";
    let doc = document(
        "<Bar><Voices>0</Voices></Bar><Bar><Voices>0</Voices></Bar>",
        "<Voice><Beats>0</Beats></Voice>",
        "<Beat><Rhythm ref=\"0\"/><Notes>0</Notes></Beat>",
        notes,
        "<Rhythm><NoteValue>Quarter</NoteValue></Rhythm>",
    );
    let r = load_score(doc.into_bytes());
    assert_eq!(r.unwrap_err(), LoadError::UnrecognizedVariant("Unknown".to_string()));
}

#[test]
fn out_of_range_voice_is_a_broken_reference() {
    let doc = document(
        "<Bar><Voices>5</Voices></Bar><Bar><Voices>0</Voices></Bar>",
        "<Voice><Beats>0</Beats></Voice>",
        "<Beat><Rhythm ref=\"0\"/></Beat>",
        "",
        "<Rhythm><NoteValue>Quarter</NoteValue></Rhythm>",
    );
    assert_eq!(
        load_score(doc.into_bytes()).unwrap_err(),
        LoadError::BrokenReference(Collection::Voices, 5)
    );
}

#[test]
fn out_of_range_ids_of_each_collection() {
    let beat_doc = document(
        "<Bar><Voices>0</Voices></Bar><Bar><Voices>0</Voices></Bar>",
        "<Voice><Beats>3</Beats></Voice>",
        "<Beat><Rhythm ref=\"0\"/></Beat>",
        "",
        "<Rhythm><NoteValue>Quarter</NoteValue></Rhythm>",
    );
    assert_eq!(load_score(beat_doc.into_bytes()).unwrap_err(), LoadError::BrokenReference(Collection::Beats, 3));
    let rhythm_doc = document(
        "<Bar><Voices>0</Voices></Bar><Bar><Voices>0</Voices></Bar>",
        "<Voice><Beats>0</Beats></Voice>",
        "<Beat><Rhythm ref=\"2\"/></Beat>",
        "",
        "<Rhythm><NoteValue>Quarter</NoteValue></Rhythm>",
    );
    assert_eq!(load_score(rhythm_doc.into_bytes()).unwrap_err(), LoadError::BrokenReference(Collection::Rhythms, 2));
    let note_doc = document(
        "<Bar><Voices>0</Voices></Bar><Bar><Voices>0</Voices></Bar>",
        "<Voice><Beats>0</Beats></Voice>",
        "<Beat><Rhythm ref=\"0\"/><Notes>7</Notes></Beat>",
        "",
        "<Rhythm><NoteValue>Quarter</NoteValue></Rhythm>",
    );
    assert_eq!(load_score(note_doc.into_bytes()).unwrap_err(), LoadError::BrokenReference(Collection::Notes, 7));
    let bar_doc = document(
        "<Bar><Voices>0</Voices></Bar>",
        "<Voice><Beats>0</Beats></Voice>",
        "<Beat><Rhythm ref=\"0\"/></Beat>",
        "",
        "<Rhythm><NoteValue>Quarter</NoteValue></Rhythm>",
    );
    assert_eq!(load_score(bar_doc.into_bytes()).unwrap_err(), LoadError::BrokenReference(Collection::Bars, 1));
}

#[test]
fn unknown_note_value_is_unrecognized() {
    let doc = document(
        "<Bar><Voices>0</Voices></Bar><Bar><Voices>0</Voices></Bar>",
        "<Voice><Beats>0</Beats></Voice>",
        "<Beat><Rhythm ref=\"0\"/></Beat>",
        "",
        "<Rhythm><NoteValue>64th</NoteValue></Rhythm>",
    );
    assert_eq!(
        load_score(doc.into_bytes()).unwrap_err(),
        LoadError::UnrecognizedVariant("64th".to_string())
    );
}

#[test]
fn irregular_master_bars_are_refused() {
    let doc = "<GPIF><Score/><MasterBars><MasterBar><Bars>0 1</Bars></MasterBar><MasterBar><Bars>0</Bars></MasterBar></MasterBars>\
               <Bars><Bar><Voices>-1</Voices></Bar><Bar><Voices>-1</Voices></Bar></Bars><Voices/><Beats/><Notes/><Rhythms/></GPIF>";
    assert_eq!(load_score(doc.as_bytes().to_vec()).unwrap_err(), LoadError::IrregularMasterBar(1));
}

#[test]
fn empty_voice_slots_are_omitted() {
    let doc = "<GPIF><Score/><MasterBars><MasterBar><Bars>0</Bars></MasterBar></MasterBars>\
               <Bars><Bar><Voices>-1 -1</Voices></Bar></Bars><Voices/><Beats/><Notes/><Rhythms/></GPIF>";
    let song = load_score(doc.as_bytes().to_vec()).unwrap();
    assert_eq!(song.tracks.len(), 1);
    assert_eq!(song.tracks[0].measures[0].voices.len(), 0);
}

#[test]
fn missing_collection_is_malformed() {
    let doc = "<GPIF><Score/><MasterBars></MasterBars><Bars/><Voices/><Beats/><Notes/></GPIF>";
    assert_eq!(
        load_score(doc.as_bytes().to_vec()).unwrap_err(),
        LoadError::Malformed(XmlError::Missing(guitarpro::cursor::Field::Rhythms))
    );
}

#[test]
fn invalid_utf8_is_an_encoding_error() {
    assert_eq!(load_score(vec![0x3c, 0xff, 0xfe]).unwrap_err(), LoadError::Encoding);
}

#[test]
fn broken_xml_is_malformed() {
    let r = load_score(b"<GPIF><Score></GPIF".to_vec());
    assert!(matches!(r, Err(LoadError::Malformed(_))));
}

#[test]
fn tokenizer_yields_plain_tokens() {
    let tokens = tokenize("<a x=\"1\"><b/>hi<![CDATA[c]]></a>");
    assert_eq!(
        tokens,
        vec![
            XmlToken::Open("a".to_string()),
            XmlToken::Attribute("x".to_string(), "1".to_string()),
            XmlToken::OpenEnd,
            XmlToken::Open("b".to_string()),
            XmlToken::EmptyEnd,
            XmlToken::Text("hi".to_string()),
            XmlToken::Text("c".to_string()),
            XmlToken::Close("a".to_string()),
        ]
    );
    let bad = tokenize("<a></b");
    assert_eq!(bad.last(), Some(&XmlToken::Invalid));
}

#[test]
fn cursor_primitives_compose() {
    let mut r = ReaderExt::from_text("<Wrap>\n  <Fret>12</Fret>\n  <Enable/>\n</Wrap>");
    assert_eq!(r.simple_tag_text("Wrap"), Err(XmlError::UnexpectedToken(XmlToken::Open("Fret".to_string()))));
    let mut r = ReaderExt::from_text("<Wrap>\n  <Fret>12</Fret>\n  <Enable/>\n</Wrap>");
    r.skip_to_open().unwrap();
    r.open_tag_named("Wrap").unwrap();
    assert_eq!(r.simple_tag_text("Fret").unwrap(), "12");
    assert_eq!(r.empty_tag().unwrap(), "Enable");
    assert_eq!(r.until_end_tag("Wrap"), Ok(false));
    r.close_tag_named("Wrap").unwrap();
    assert_eq!(r.peek(), None);
    assert_eq!(r.next(), None);
    let mut r = ReaderExt::from_text("<A><B/></A>");
    assert_eq!(r.open_tag_named("B"), Err(XmlError::TagMismatch("A".to_string())));
    let mut r = ReaderExt::from_text("<A k=\"v\"/>");
    r.open_tag().unwrap();
    assert_eq!(r.attr_named("q"), Err(XmlError::UnexpectedToken(XmlToken::Attribute("k".to_string(), "v".to_string()))));
    let mut r = ReaderExt::from_text("<A><B><C/></B><D/></A>");
    r.open_tag().unwrap();
    r.skip_to_open().unwrap();
    r.skip_element().unwrap();
    assert_eq!(r.next_child("A").unwrap(), Some("D".to_string()));
}

fn block(items: &[&str]) -> ReaderExt {
    let mut text = String::from("<Properties>\n");
    for i in items {
        text.push_str(i);
    }
    text.push_str("</Properties>");
    let mut r = ReaderExt::from_text(&text);
    r.open_tag_named("Properties").unwrap();
    r
}

const CONCERT: &str = "<Property name=\"ConcertPitch\">\n  <Pitch>\n    <Step>B</Step>\n    <Accidental/>\n    <Octave>2</Octave>\n  </Pitch>\n</Property>";
const FRET: &str = "<Property name=\"Fret\">\n  <Fret>2</Fret>\n</Property>";
const MIDI: &str = "<Property name=\"Midi\">\n  <Number>35</Number>\n</Property>";
const PALM: &str = "<Property name=\"PalmMuted\">\n  <Enable/>\n</Property>";
const STRING: &str = "<Property name=\"String\">\n  <String>1</String>\n</Property>";
const TRANSPOSED: &str = "<Property name=\"TransposedPitch\">\n  <Pitch>\n    <Step>B</Step>\n    <Accidental>#</Accidental>\n    <Octave>3</Octave>\n  </Pitch>\n</Property>";

#[test]
fn property_block_reads_every_variant_in_order() {
    let mut r = block(&[CONCERT, FRET, MIDI, PALM, STRING, TRANSPOSED]);
    let props = read_properties(&mut r).unwrap();
    assert_eq!(
        props,
        vec![
            NoteProperty::ConcertPitch(Pitch { step: "B".to_string(), accidental: None, octave: 2 }),
            NoteProperty::Fret(2),
            NoteProperty::Midi(35),
            NoteProperty::PalmMuted(true),
            NoteProperty::String(1),
            NoteProperty::TransposedPitch(Pitch { step: "B".to_string(), accidental: Some("#".to_string()), octave: 3 }),
        ]
    );
}

#[test]
fn property_block_order_does_not_change_the_multiset() {
    let a = read_properties(&mut block(&[FRET, MIDI, PALM])).unwrap();
    let b = read_properties(&mut block(&[PALM, FRET, MIDI])).unwrap();
    assert_eq!(a.len(), b.len());
    for p in &a {
        assert_eq!(a.iter().filter(|q| *q == p).count(), b.iter().filter(|q| *q == p).count());
    }
}

#[test]
fn other_property_payloads() {
    let items = [
        "<Property name=\"Harmonic\"><Disable/></Property>",
        "<Property name=\"HarmonicFret\"><HFret>12.5</HFret></Property>",
        "<Property name=\"HarmonicType\"><HType>Natural</HType></Property>",
        "<Property name=\"Slide\"><Flags>4</Flags></Property>",
        "<Property name=\"Muted\"><Enable/></Property>",
    ];
    let props = read_properties(&mut block(&items)).unwrap();
    assert_eq!(
        props,
        vec![
            NoteProperty::Harmonic(false),
            NoteProperty::HarmonicFret("12.5".to_string()),
            NoteProperty::HarmonicType("Natural".to_string()),
            NoteProperty::Slide(4),
            NoteProperty::Muted(true),
        ]
    );
}

#[test]
fn bad_property_number_is_reported() {
    let r = read_properties(&mut block(&["<Property name=\"Fret\"><Fret>300</Fret></Property>"]));
    assert_eq!(r, Err(XmlError::InvalidNumber("300".to_string())));
}
