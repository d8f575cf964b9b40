//! The canonical song model that every decoder produces.
use crate::duration::Duration;
use crate::property::NoteProperty;
use crate::signature::KeySignature;
use vstd::prelude::*;
use vstd::string::StringExecFns;

verus! {

/// A note: its string and fret, and the articulation properties it carries.
#[derive(Debug, PartialEq, Eq)]
pub struct Note {
    pub string: u8,
    pub value: i16,
    pub properties: Vec<NoteProperty>,
}

/// One rhythmic event: a duration and the notes sounding together (none for a rest).
#[derive(Debug, PartialEq, Eq)]
pub struct Beat {
    pub duration: Duration,
    pub notes: Vec<Note>,
}

/// An independent rhythmic layer within a measure.
#[derive(Debug, PartialEq, Eq)]
pub struct Voice {
    pub beats: Vec<Beat>,
}

/// One bar of one track: the voices present in it.
#[derive(Debug, PartialEq, Eq)]
pub struct Measure {
    pub voices: Vec<Voice>,
}

/// One instrument lane: its measures in order.
#[derive(Debug, PartialEq, Eq)]
pub struct Track {
    pub measures: Vec<Measure>,
}

/// Swing applied to straight notes.
#[derive(Debug, Clone, Copy, PartialEq, Eq, Structural)]
pub enum TripletFeel {
    Straight,
    Eighth,
    Sixteenth,
}

/// One line of lyrics and the measure it starts at.
#[derive(Debug, PartialEq, Eq)]
pub struct LyricLine {
    pub start: i32,
    pub text: String,
}

/// The lyrics of a song and the track they follow.
#[derive(Debug, PartialEq, Eq)]
pub struct Lyrics {
    pub track_choice: i32,
    pub lines: Vec<LyricLine>,
}

/// One MIDI channel: its settings, name and extra key/value parameters.
#[derive(Debug, PartialEq, Eq)]
pub struct MidiChannel {
    pub channel: i32,
    pub bank: i32,
    pub program: i32,
    pub volume: i32,
    pub balance: i32,
    pub chorus: i32,
    pub reverb: i32,
    pub phaser: i32,
    pub tremolo: i32,
    pub name: String,
    pub parameters: Vec<(String, u32)>,
}

/// A marker on a measure: its title and colour.
#[derive(Debug, PartialEq, Eq)]
pub struct Marker {
    pub title: String,
    pub color: (u8, u8, u8),
}

/// What a measure header changes or marks; absent parts are unchanged.
#[derive(Debug, PartialEq, Eq)]
pub struct MeasureHeader {
    pub numerator: Option<i8>,
    pub denominator: Option<i8>,
    pub repeat_open: bool,
    pub repeat_close: Option<i8>,
    pub repeat_alternative: Option<u8>,
    pub marker: Option<Marker>,
    pub key: Option<(i8, i8)>,
    pub double_bar: bool,
}

/// A track record of the binary generations: its flags, name, tuning
/// (one pitch per string), MIDI port and channels, fret count, capo offset
/// and colour.
#[derive(Debug, PartialEq, Eq)]
pub struct TrackHeader {
    pub flags: u8,
    pub name: String,
    pub tuning: Vec<i32>,
    pub port: i32,
    pub channel: i32,
    pub effect_channel: i32,
    pub frets: i32,
    pub offset: i32,
    pub color: (u8, u8, u8),
}

/// A decoded song.
#[derive(Debug, PartialEq, Eq)]
pub struct Song {
    pub version: String,
    pub name: String,
    pub subtitle: String,
    pub artist: String,
    pub album: String,
    pub words: String,
    pub author: String,
    pub date: String,
    pub copyright: String,
    pub writer: String,
    pub transcriber: String,
    pub instructions: String,
    pub comments: String,
    pub notice: Vec<String>,
    pub tracks: Vec<Track>,
    pub track_headers: Vec<TrackHeader>,
    pub measure_headers: Vec<MeasureHeader>,
    pub channels: Vec<MidiChannel>,
    pub lyrics: Lyrics,
    pub tempo: i16,
    pub hide_tempo: bool,
    pub tempo_name: String,
    pub key: KeySignature,
    pub triplet_feel: TripletFeel,
}

impl Default for Song {
    fn default() -> (s: Song)
        ensures
            s.is_initial(),
    {
        Song {
            version: String::new(),
            name: String::new(),
            subtitle: String::new(),
            artist: String::new(),
            album: String::new(),
            words: String::new(),
            author: String::new(),
            date: String::new(),
            copyright: String::new(),
            writer: String::new(),
            transcriber: String::new(),
            instructions: String::new(),
            comments: String::new(),
            notice: Vec::new(),
            tracks: Vec::new(),
            track_headers: Vec::new(),
            measure_headers: Vec::new(),
            channels: Vec::new(),
            lyrics: Lyrics { track_choice: 0, lines: Vec::new() },
            tempo: 120,
            hide_tempo: false,
            tempo_name: String::from_str("Moderate"),
            key: KeySignature { key: 0, is_minor: false },
            triplet_feel: TripletFeel::Straight,
        }
    }
}

impl Song {
    /// Whether this is the song before any decoding: no text but the tempo
    /// name `Moderate`, no content, tempo 120 in C major.
    pub open spec fn is_initial(&self) -> bool {
        &&& self.version@.len() == 0
        &&& self.name@.len() == 0
        &&& self.subtitle@.len() == 0
        &&& self.artist@.len() == 0
        &&& self.album@.len() == 0
        &&& self.words@.len() == 0
        &&& self.author@.len() == 0
        &&& self.date@.len() == 0
        &&& self.copyright@.len() == 0
        &&& self.writer@.len() == 0
        &&& self.transcriber@.len() == 0
        &&& self.instructions@.len() == 0
        &&& self.comments@.len() == 0
        &&& self.notice@.len() == 0
        &&& self.tracks@.len() == 0
        &&& self.track_headers@.len() == 0
        &&& self.measure_headers@.len() == 0
        &&& self.channels@.len() == 0
        &&& self.lyrics.track_choice == 0
        &&& self.lyrics.lines@.len() == 0
        &&& self.tempo == 120
        &&& !self.hide_tempo
        &&& self.tempo_name@ == "Moderate"@
        &&& self.key.key == 0 && !self.key.is_minor
        &&& self.triplet_feel == TripletFeel::Straight
    }
}

} // verus!
