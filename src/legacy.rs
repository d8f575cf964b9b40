//! The sequential-offset binary generations: song information, lyrics,
//! the MIDI channel table and measure headers.
use crate::binary::{
    byte_at, byte_size_string_at, int_at, int_size_string_at, read_byte, read_byte_size_string,
    read_int, read_int_size_string, read_signed_byte, signed_byte_at, DecodeError,
};
use crate::body::{
    bodies_at, body_views, Layout, read_bodies, read_tracks, track_views, tracks_at, BeatView,
    TrackView,
};
use crate::duration::Duration;
use crate::song::{LyricLine, Lyrics, Marker, MeasureHeader, MidiChannel, Song, TripletFeel};
use vstd::prelude::*;

verus! {

/// A count: a 32-bit integer that must not be negative.
pub open spec fn count_at(d: Seq<u8>, p: nat) -> Result<(nat, nat), DecodeError> {
    match int_at(d, p) {
        Err(e) => Err(e),
        Ok((n, q)) => if n < 0 {
            Err(DecodeError::Malformed)
        } else {
            Ok((n as nat, q))
        },
    }
}

/// Reads a count.
pub fn read_count(data: &[u8], seek: &mut usize) -> (r: Result<usize, DecodeError>)
    ensures
        match count_at(data@, *old(seek) as nat) {
            Ok((n, q)) => r == Ok::<usize, DecodeError>(n as usize) && n <= i32::MAX && *final(seek) == q,
            Err(e) => r == Err::<usize, DecodeError>(e),
        },
{
    let n = read_int(data, seek)?;
    if n < 0 {
        return Err(DecodeError::Malformed);
    }
    Ok(n as usize)
}

pub open spec fn texts(v: Seq<String>) -> Seq<Seq<char>> {
    v.map_values(|s: String| s@)
}

/// `k` strings in a row, each with its byte count first.
pub open spec fn strings_at(d: Seq<u8>, p: nat, k: nat) -> Result<(Seq<Seq<char>>, nat), DecodeError>
    decreases k,
{
    if k == 0 {
        Ok((Seq::empty(), p))
    } else {
        match strings_at(d, p, (k - 1) as nat) {
            Err(e) => Err(e),
            Ok((ss, q)) => match int_size_string_at(d, q) {
                Err(e) => Err(e),
                Ok((s, r)) => Ok((ss.push(s), r)),
            },
        }
    }
}


proof fn lemma_strings_err(d: Seq<u8>, p: nat, j: nat, k: nat)
    requires
        j <= k,
        strings_at(d, p, j) is Err,
    ensures
        strings_at(d, p, k) == strings_at(d, p, j),
    decreases k - j,
{
    if j < k {
        lemma_strings_err(d, p, j, (k - 1) as nat);
    }
}

/// Reads `k` strings in a row.
pub fn read_strings(data: &[u8], seek: &mut usize, k: usize) -> (r: Result<Vec<String>, DecodeError>)
    ensures
        match strings_at(data@, *old(seek) as nat, k as nat) {
            Ok((v, q)) => r matches Ok(w) && texts(w@) == v && *final(seek) == q,
            Err(e) => r == Err::<Vec<String>, DecodeError>(e),
        },
{
    let ghost start = *seek as nat;
    let mut out: Vec<String> = Vec::new();
    proof {
        assert(texts(out@) =~= Seq::<Seq<char>>::empty());
    }
    for i in 0..k
        invariant
            strings_at(data@, start, i as nat) == Ok::<(Seq<Seq<char>>, nat), DecodeError>((texts(out@), *seek as nat)),
            start == *old(seek) as nat,
    {
        let s = match read_int_size_string(data, seek) {
            Ok(s) => s,
            Err(e) => {
                proof {
                    lemma_strings_err(data@, start, (i + 1) as nat, k as nat);
                }
                return Err(e);
            },
        };
        proof {
            assert(texts(out@.push(s)) =~= texts(out@).push(s@));
        }
        out.push(s);
    }
    Ok(out)
}

/// Score information as stored: eight strings, then the notices.
#[derive(Debug, PartialEq, Eq)]
pub struct Info {
    pub name: String,
    pub subtitle: String,
    pub artist: String,
    pub album: String,
    pub words: String,
    pub copyright: String,
    pub writer: String,
    pub instructions: String,
    pub notices: Vec<String>,
}

pub ghost struct InfoView {
    pub name: Seq<char>,
    pub subtitle: Seq<char>,
    pub artist: Seq<char>,
    pub album: Seq<char>,
    pub words: Seq<char>,
    pub copyright: Seq<char>,
    pub writer: Seq<char>,
    pub instructions: Seq<char>,
    pub notices: Seq<Seq<char>>,
}

impl View for Info {
    type V = InfoView;

    open spec fn view(&self) -> InfoView {
        InfoView {
            name: self.name@,
            subtitle: self.subtitle@,
            artist: self.artist@,
            album: self.album@,
            words: self.words@,
            copyright: self.copyright@,
            writer: self.writer@,
            instructions: self.instructions@,
            notices: texts(self.notices@),
        }
    }
}

/// The score information at `p`.
#[verifier::opaque]
pub open spec fn info_at(d: Seq<u8>, p: nat) -> Result<(InfoView, nat), DecodeError> {
    match int_size_string_at(d, p) {
        Err(e) => Err(e),
        Ok((name, p1)) => match int_size_string_at(d, p1) {
            Err(e) => Err(e),
            Ok((subtitle, p2)) => match int_size_string_at(d, p2) {
                Err(e) => Err(e),
                Ok((artist, p3)) => match int_size_string_at(d, p3) {
                    Err(e) => Err(e),
                    Ok((album, p4)) => match int_size_string_at(d, p4) {
                        Err(e) => Err(e),
                        Ok((words, p5)) => match int_size_string_at(d, p5) {
                            Err(e) => Err(e),
                            Ok((copyright, p6)) => match int_size_string_at(d, p6) {
                                Err(e) => Err(e),
                                Ok((writer, p7)) => match int_size_string_at(d, p7) {
                                    Err(e) => Err(e),
                                    Ok((instructions, p8)) => match count_at(d, p8) {
                                        Err(e) => Err(e),
                                        Ok((n, p9)) => match strings_at(d, p9, n) {
                                            Err(e) => Err(e),
                                            Ok((notices, p10)) => Ok((InfoView { name, subtitle, artist, album, words, copyright, writer, instructions, notices }, p10)),
                                        },
                                    },
                                },
                            },
                        },
                    },
                },
            },
        },
    }
}

/// Reads the score information: name, subtitle, artist, album, words,
/// copyright, writer, instructions, then a count of notices and the notices.
pub fn read_info(data: &[u8], seek: &mut usize) -> (r: Result<Info, DecodeError>)
    ensures
        match info_at(data@, *old(seek) as nat) {
            Ok((v, q)) => r matches Ok(i) && i@ == v && *final(seek) == q,
            Err(e) => r == Err::<Info, DecodeError>(e),
        },
{
    reveal(info_at);
    let name = read_int_size_string(data, seek)?;
    let subtitle = read_int_size_string(data, seek)?;
    let artist = read_int_size_string(data, seek)?;
    let album = read_int_size_string(data, seek)?;
    let words = read_int_size_string(data, seek)?;
    let copyright = read_int_size_string(data, seek)?;
    let writer = read_int_size_string(data, seek)?;
    let instructions = read_int_size_string(data, seek)?;
    let n = read_count(data, seek)?;
    let notices = read_strings(data, seek, n)?;
    Ok(Info { name, subtitle, artist, album, words, copyright, writer, instructions, notices })
}

pub ghost struct LineView {
    pub start: int,
    pub text: Seq<char>,
}

pub open spec fn line_views(v: Seq<LyricLine>) -> Seq<LineView> {
    v.map_values(|l: LyricLine| LineView { start: l.start as int, text: l.text@ })
}

/// `k` lyric lines in a row: each a start measure and a string.
pub open spec fn lines_at(d: Seq<u8>, p: nat, k: nat) -> Result<(Seq<LineView>, nat), DecodeError>
    decreases k,
{
    if k == 0 {
        Ok((Seq::empty(), p))
    } else {
        match lines_at(d, p, (k - 1) as nat) {
            Err(e) => Err(e),
            Ok((ls, q)) => match int_at(d, q) {
                Err(e) => Err(e),
                Ok((start, q2)) => match int_size_string_at(d, q2) {
                    Err(e) => Err(e),
                    Ok((text, r)) => Ok((ls.push(LineView { start, text }), r)),
                },
            },
        }
    }
}


proof fn lemma_lines_err(d: Seq<u8>, p: nat, j: nat, k: nat)
    requires
        j <= k,
        lines_at(d, p, j) is Err,
    ensures
        lines_at(d, p, k) == lines_at(d, p, j),
    decreases k - j,
{
    if j < k {
        lemma_lines_err(d, p, j, (k - 1) as nat);
    }
}

/// Number of lyric lines stored.
pub const LYRIC_LINES: usize = 5;

/// The lyrics at `p`: the track they follow, then five lines.
pub open spec fn lyrics_at(d: Seq<u8>, p: nat) -> Result<((int, Seq<LineView>), nat), DecodeError> {
    match int_at(d, p) {
        Err(e) => Err(e),
        Ok((track, q)) => match lines_at(d, q, LYRIC_LINES as nat) {
            Err(e) => Err(e),
            Ok((lines, r)) => Ok(((track, lines), r)),
        },
    }
}

/// Reads the lyrics block.
pub fn read_lyrics(data: &[u8], seek: &mut usize) -> (r: Result<Lyrics, DecodeError>)
    ensures
        match lyrics_at(data@, *old(seek) as nat) {
            Ok(((t, ls), q)) => r matches Ok(l) && l.track_choice as int == t && line_views(l.lines@) == ls
                && *final(seek) == q,
            Err(e) => r == Err::<Lyrics, DecodeError>(e),
        },
{
    let track_choice = read_int(data, seek)?;
    let ghost start = *seek as nat;
    let mut lines: Vec<LyricLine> = Vec::new();
    proof {
        assert(line_views(lines@) =~= Seq::<LineView>::empty());
    }
    for i in 0..LYRIC_LINES
        invariant
            start == *old(seek) as nat + 4,
            int_at(data@, *old(seek) as nat) == Ok::<(int, nat), DecodeError>((track_choice as int, start)),
            lines_at(data@, start, i as nat) == Ok::<(Seq<LineView>, nat), DecodeError>((line_views(lines@), *seek as nat)),
    {
        let start_measure = match read_int(data, seek) {
            Ok(v) => v,
            Err(e) => {
                proof {
                    lemma_lines_err(data@, start, (i + 1) as nat, LYRIC_LINES as nat);
                }
                return Err(e);
            },
        };
        let text = match read_int_size_string(data, seek) {
            Ok(v) => v,
            Err(e) => {
                proof {
                    lemma_lines_err(data@, start, (i + 1) as nat, LYRIC_LINES as nat);
                }
                return Err(e);
            },
        };
        let line = LyricLine { start: start_measure, text };
        proof {
            assert(line_views(lines@.push(line)) =~= line_views(lines@).push(LineView { start: line.start as int, text: line.text@ }));
        }
        lines.push(line);
    }
    Ok(Lyrics { track_choice, lines })
}

pub ghost struct ChannelView {
    pub channel: int,
    pub bank: int,
    pub program: int,
    pub volume: int,
    pub balance: int,
    pub chorus: int,
    pub reverb: int,
    pub phaser: int,
    pub tremolo: int,
    pub name: Seq<char>,
    pub parameters: Seq<(Seq<char>, u32)>,
}

pub open spec fn channel_view(c: MidiChannel) -> ChannelView {
    ChannelView {
        channel: c.channel as int,
        bank: c.bank as int,
        program: c.program as int,
        volume: c.volume as int,
        balance: c.balance as int,
        chorus: c.chorus as int,
        reverb: c.reverb as int,
        phaser: c.phaser as int,
        tremolo: c.tremolo as int,
        name: c.name@,
        parameters: c.parameters@.map_values(|kv: (String, u32)| (kv.0@, kv.1)),
    }
}

pub open spec fn channel_views(v: Seq<MidiChannel>) -> Seq<ChannelView> {
    v.map_values(|c: MidiChannel| channel_view(c))
}

/// Channel `index` of the table at `p`: program, then volume, balance,
/// chorus, reverb, phaser and tremolo as signed bytes, then two unused bytes.
pub open spec fn channel_at(d: Seq<u8>, p: nat, index: int) -> Result<(ChannelView, nat), DecodeError> {
    match int_at(d, p) {
        Err(e) => Err(e),
        Ok((program, p1)) => match signed_byte_at(d, p1) {
            Err(e) => Err(e),
            Ok((volume, p2)) => match signed_byte_at(d, p2) {
                Err(e) => Err(e),
                Ok((balance, p3)) => match signed_byte_at(d, p3) {
                    Err(e) => Err(e),
                    Ok((chorus, p4)) => match signed_byte_at(d, p4) {
                        Err(e) => Err(e),
                        Ok((reverb, p5)) => match signed_byte_at(d, p5) {
                            Err(e) => Err(e),
                            Ok((phaser, p6)) => match signed_byte_at(d, p6) {
                                Err(e) => Err(e),
                                Ok((tremolo, p7)) => match byte_at(d, p7) {
                                    Err(e) => Err(e),
                                    Ok((_b1, p8)) => match byte_at(d, p8) {
                                        Err(e) => Err(e),
                                        Ok((_b2, p9)) => Ok((ChannelView { channel: index, bank: 0, program, volume, balance, chorus, reverb, phaser, tremolo, name: Seq::empty(), parameters: Seq::empty() }, p9)),
                                    },
                                },
                            },
                        },
                    },
                },
            },
        },
    }
}

/// The first `k` channels of the table at `p`.
pub open spec fn channels_at(d: Seq<u8>, p: nat, k: nat) -> Result<(Seq<ChannelView>, nat), DecodeError>
    decreases k,
{
    if k == 0 {
        Ok((Seq::empty(), p))
    } else {
        match channels_at(d, p, (k - 1) as nat) {
            Err(e) => Err(e),
            Ok((cs, q)) => match channel_at(d, q, k - 1) {
                Err(e) => Err(e),
                Ok((c, r)) => Ok((cs.push(c), r)),
            },
        }
    }
}


proof fn lemma_channels_err(d: Seq<u8>, p: nat, j: nat, k: nat)
    requires
        j <= k,
        channels_at(d, p, j) is Err,
    ensures
        channels_at(d, p, k) == channels_at(d, p, j),
    decreases k - j,
{
    if j < k {
        lemma_channels_err(d, p, j, (k - 1) as nat);
    }
}

/// Number of channels in the table.
pub const CHANNEL_COUNT: usize = 64;

fn read_channel(data: &[u8], seek: &mut usize, index: usize) -> (r: Result<MidiChannel, DecodeError>)
    requires
        index < CHANNEL_COUNT,
    ensures
        match channel_at(data@, *old(seek) as nat, index as int) {
            Ok((v, q)) => r matches Ok(c) && channel_view(c) == v && *final(seek) == q,
            Err(e) => r == Err::<MidiChannel, DecodeError>(e),
        },
{
    let program = read_int(data, seek)?;
    let volume = read_signed_byte(data, seek)?;
    let balance = read_signed_byte(data, seek)?;
    let chorus = read_signed_byte(data, seek)?;
    let reverb = read_signed_byte(data, seek)?;
    let phaser = read_signed_byte(data, seek)?;
    let tremolo = read_signed_byte(data, seek)?;
    read_byte(data, seek)?;
    read_byte(data, seek)?;
    let c = MidiChannel {
        channel: index as i32,
        bank: 0,
        program,
        volume: volume as i32,
        balance: balance as i32,
        chorus: chorus as i32,
        reverb: reverb as i32,
        phaser: phaser as i32,
        tremolo: tremolo as i32,
        name: String::new(),
        parameters: Vec::new(),
    };
    proof {
        assert(c.parameters@.map_values(|kv: (String, u32)| (kv.0@, kv.1)) =~= Seq::<(Seq<char>, u32)>::empty());
    }
    Ok(c)
}

/// Reads the table of 64 MIDI channels.
pub fn read_midi_channels(data: &[u8], seek: &mut usize) -> (r: Result<Vec<MidiChannel>, DecodeError>)
    ensures
        match channels_at(data@, *old(seek) as nat, CHANNEL_COUNT as nat) {
            Ok((v, q)) => r matches Ok(w) && channel_views(w@) == v && *final(seek) == q,
            Err(e) => r == Err::<Vec<MidiChannel>, DecodeError>(e),
        },
{
    let ghost start = *seek as nat;
    let mut out: Vec<MidiChannel> = Vec::new();
    proof {
        assert(channel_views(out@) =~= Seq::<ChannelView>::empty());
    }
    for i in 0..CHANNEL_COUNT
        invariant
            start == *old(seek) as nat,
            channels_at(data@, start, i as nat) == Ok::<(Seq<ChannelView>, nat), DecodeError>((channel_views(out@), *seek as nat)),
    {
        let c = match read_channel(data, seek, i) {
            Ok(c) => c,
            Err(e) => {
                proof {
                    lemma_channels_err(data@, start, (i + 1) as nat, CHANNEL_COUNT as nat);
                }
                return Err(e);
            },
        };
        proof {
            assert(channel_views(out@.push(c)) =~= channel_views(out@).push(channel_view(c)));
        }
        out.push(c);
    }
    Ok(out)
}

/// `n` bytes passed over at `p`.
pub open spec fn skip_at(d: Seq<u8>, p: nat, n: nat) -> Result<((), nat), DecodeError> {
    if crate::binary::fits(d.len(), p, n) {
        Ok(((), p + n))
    } else {
        Err(DecodeError::Truncated)
    }
}

/// Passes over `n` bytes.
pub(crate) fn skip(data: &[u8], seek: &mut usize, n: usize) -> (r: Result<(), DecodeError>)
    ensures
        match skip_at(data@, *old(seek) as nat, n as nat) {
            Ok((_, q)) => r is Ok && *final(seek) == q,
            Err(e) => r == Err::<(), DecodeError>(e),
        },
{
    if *seek > data.len() || data.len() - *seek < n {
        return Err(DecodeError::Truncated);
    }
    *seek = *seek + n;
    Ok(())
}

/// A signed byte at `p` when `present`, else nothing read.
pub open spec fn opt_signed_byte_at(d: Seq<u8>, p: nat, present: bool) -> Result<(Option<int>, nat), DecodeError> {
    if present {
        match signed_byte_at(d, p) {
            Ok((v, q)) => Ok((Some(v), q)),
            Err(e) => Err(e),
        }
    } else {
        Ok((None, p))
    }
}

/// A byte at `p` when `present`, else nothing read.
pub open spec fn opt_byte_at(d: Seq<u8>, p: nat, present: bool) -> Result<(Option<u8>, nat), DecodeError> {
    if present {
        match byte_at(d, p) {
            Ok((v, q)) => Ok((Some(v), q)),
            Err(e) => Err(e),
        }
    } else {
        Ok((None, p))
    }
}

pub ghost struct MarkerView {
    pub title: Seq<char>,
    pub color: (u8, u8, u8),
}

/// A string whose byte count comes first as one byte.
pub open spec fn byte_length_string_at(d: Seq<u8>, p: nat) -> Result<(Seq<char>, nat), DecodeError> {
    match byte_at(d, p) {
        Err(e) => Err(e),
        Ok((n, q)) => crate::binary::utf8_at(d, q, n as nat),
    }
}

/// Reads a string whose byte count comes first as one byte.
pub fn read_byte_length_string(data: &[u8], seek: &mut usize) -> (r: Result<String, DecodeError>)
    ensures
        match byte_length_string_at(data@, *old(seek) as nat) {
            Ok((t, q)) => r matches Ok(s) && s@ == t && *final(seek) == q,
            Err(e) => r == Err::<String, DecodeError>(e),
        },
{
    let n = read_byte(data, seek)?;
    crate::binary::read_utf8(data, seek, n as usize)
}

/// A colour at `p`: red, green and blue, then an unused byte.
pub open spec fn color_at(d: Seq<u8>, p: nat) -> Result<((u8, u8, u8), nat), DecodeError> {
    match byte_at(d, p) {
        Err(e) => Err(e),
        Ok((red, p1)) => match byte_at(d, p1) {
            Err(e) => Err(e),
            Ok((green, p2)) => match byte_at(d, p2) {
                Err(e) => Err(e),
                Ok((blue, p3)) => match byte_at(d, p3) {
                    Err(e) => Err(e),
                    Ok((_, p4)) => Ok(((red, green, blue), p4)),
                },
            },
        },
    }
}

/// Reads a colour.
pub fn read_rgb_color(data: &[u8], seek: &mut usize) -> (r: Result<(u8, u8, u8), DecodeError>)
    ensures
        match color_at(data@, *old(seek) as nat) {
            Ok((c, q)) => r == Ok::<(u8, u8, u8), DecodeError>(c) && *final(seek) == q,
            Err(e) => r == Err::<(u8, u8, u8), DecodeError>(e),
        },
{
    let red = read_byte(data, seek)?;
    let green = read_byte(data, seek)?;
    let blue = read_byte(data, seek)?;
    read_byte(data, seek)?;
    Ok((red, green, blue))
}

/// A marker at `p` when `present`: a title, then a colour.
pub open spec fn opt_marker_at(d: Seq<u8>, p: nat, present: bool) -> Result<(Option<MarkerView>, nat), DecodeError> {
    if present {
        match int_size_string_at(d, p) {
            Err(e) => Err(e),
            Ok((title, p1)) => match color_at(d, p1) {
                Err(e) => Err(e),
                Ok((color, p2)) => Ok((Some(MarkerView { title, color }), p2)),
            },
        }
    } else {
        Ok((None, p))
    }
}

/// A key signature at `p` when `present`: root and type, signed bytes.
pub open spec fn opt_key_at(d: Seq<u8>, p: nat, present: bool) -> Result<(Option<(int, int)>, nat), DecodeError> {
    if present {
    match signed_byte_at(d, p) {
        Err(e) => Err(e),
        Ok((root, p1)) => match signed_byte_at(d, p1) {
            Err(e) => Err(e),
            Ok((mode, p2)) => Ok((Some((root, mode)), p2)),
        },
    }
    } else {
        Ok((None, p))
    }
}

fn read_opt_signed_byte(data: &[u8], seek: &mut usize, present: bool) -> (r: Result<Option<i8>, DecodeError>)
    ensures
        match opt_signed_byte_at(data@, *old(seek) as nat, present) {
            Ok((v, q)) => r is Ok && opt_int(r->Ok_0) == v && *final(seek) == q,
            Err(e) => r == Err::<Option<i8>, DecodeError>(e),
        },
{
    if present {
        Ok(Some(read_signed_byte(data, seek)?))
    } else {
        Ok(None)
    }
}

fn read_opt_byte(data: &[u8], seek: &mut usize, present: bool) -> (r: Result<Option<u8>, DecodeError>)
    ensures
        match opt_byte_at(data@, *old(seek) as nat, present) {
            Ok((v, q)) => r == Ok::<Option<u8>, DecodeError>(v) && *final(seek) == q,
            Err(e) => r == Err::<Option<u8>, DecodeError>(e),
        },
{
    if present {
        Ok(Some(read_byte(data, seek)?))
    } else {
        Ok(None)
    }
}

pub open spec fn opt_int(o: Option<i8>) -> Option<int> {
    match o {
        Some(v) => Some(v as int),
        None => None,
    }
}

pub open spec fn marker_view(m: Option<Marker>) -> Option<MarkerView> {
    match m {
        Some(m) => Some(MarkerView { title: m.title@, color: m.color }),
        None => None,
    }
}

pub open spec fn key_view(k: Option<(i8, i8)>) -> Option<(int, int)> {
    match k {
        Some((a, b)) => Some((a as int, b as int)),
        None => None,
    }
}

fn read_opt_marker(data: &[u8], seek: &mut usize, present: bool) -> (r: Result<Option<Marker>, DecodeError>)
    ensures
        match opt_marker_at(data@, *old(seek) as nat, present) {
            Ok((v, q)) => r is Ok && marker_view(r->Ok_0) == v && *final(seek) == q,
            Err(e) => r == Err::<Option<Marker>, DecodeError>(e),
        },
{
    if present {
        let title = read_int_size_string(data, seek)?;
        let color = read_rgb_color(data, seek)?;
        Ok(Some(Marker { title, color }))
    } else {
        Ok(None)
    }
}

fn read_opt_key(data: &[u8], seek: &mut usize, present: bool) -> (r: Result<Option<(i8, i8)>, DecodeError>)
    ensures
        match opt_key_at(data@, *old(seek) as nat, present) {
            Ok((v, q)) => r is Ok && key_view(r->Ok_0) == v && *final(seek) == q,
            Err(e) => r == Err::<Option<(i8, i8)>, DecodeError>(e),
        },
{
    if present {
        let root = read_signed_byte(data, seek)?;
        let mode = read_signed_byte(data, seek)?;
        Ok(Some((root, mode)))
    } else {
        Ok(None)
    }
}

pub ghost struct HeaderView {
    pub numerator: Option<int>,
    pub denominator: Option<int>,
    pub repeat_open: bool,
    pub repeat_close: Option<int>,
    pub repeat_alternative: Option<u8>,
    pub marker: Option<MarkerView>,
    pub key: Option<(int, int)>,
    pub double_bar: bool,
}

pub open spec fn header_view(h: MeasureHeader) -> HeaderView {
    HeaderView {
        numerator: opt_int(h.numerator),
        denominator: opt_int(h.denominator),
        repeat_open: h.repeat_open,
        repeat_close: opt_int(h.repeat_close),
        repeat_alternative: h.repeat_alternative,
        marker: marker_view(h.marker),
        key: key_view(h.key),
        double_bar: h.double_bar,
    }
}

pub open spec fn header_views(v: Seq<MeasureHeader>) -> Seq<HeaderView> {
    v.map_values(|h: MeasureHeader| header_view(h))
}

/// A measure header at `p`. Its flags byte tells which parts follow:
/// numerator (0x01), denominator (0x02), repeat start (0x04), repeat end
/// with its count (0x08), alternative ending (0x10), marker (0x20), key
/// signature (0x40), double bar (0x80). The fifth generation puts an unused
/// byte before every header but the first, reads the alternative ending
/// after the key, and ends with beam groups (four bytes, when 0x01 or 0x02
/// is set), an unused byte when 0x10 is clear, and a triplet feel byte.
#[verifier::opaque]
pub open spec fn header_at(d: Seq<u8>, p: nat, fifth: bool, first: bool) -> Result<(HeaderView, nat), DecodeError> {
    if fifth {
    match opt_byte_at(d, p, !first) {
        Err(e) => Err(e),
        Ok((_lead, p1)) => match byte_at(d, p1) {
            Err(e) => Err(e),
            Ok((flags, p2)) => match opt_signed_byte_at(d, p2, flags & 0x01u8 != 0) {
                Err(e) => Err(e),
                Ok((numerator, p3)) => match opt_signed_byte_at(d, p3, flags & 0x02u8 != 0) {
                    Err(e) => Err(e),
                    Ok((denominator, p4)) => match opt_signed_byte_at(d, p4, flags & 0x08u8 != 0) {
                        Err(e) => Err(e),
                        Ok((repeat_close, p5)) => match opt_marker_at(d, p5, flags & 0x20u8 != 0) {
                            Err(e) => Err(e),
                            Ok((marker, p6)) => match opt_key_at(d, p6, flags & 0x40u8 != 0) {
                                Err(e) => Err(e),
                                Ok((key, p7)) => match opt_byte_at(d, p7, flags & 0x10u8 != 0) {
                                    Err(e) => Err(e),
                                    Ok((alternative, p8)) => match skip_at(d, p8, if flags & 0x03u8 != 0 { 4 } else { 0 }) {
                                        Err(e) => Err(e),
                                        Ok((_beams, p9)) => match opt_byte_at(d, p9, flags & 0x10u8 == 0) {
                                            Err(e) => Err(e),
                                            Ok((_pad, p10)) => match byte_at(d, p10) {
                                                Err(e) => Err(e),
                                                Ok((_feel, p11)) => Ok((HeaderView { numerator, denominator, repeat_open: flags & 0x04u8 != 0, repeat_close, repeat_alternative: alternative, marker, key, double_bar: flags & 0x80u8 != 0 }, p11)),
                                            },
                                        },
                                    },
                                },
                            },
                        },
                    },
                },
            },
        },
    }
    } else {
    match byte_at(d, p) {
        Err(e) => Err(e),
        Ok((flags, p1)) => match opt_signed_byte_at(d, p1, flags & 0x01u8 != 0) {
            Err(e) => Err(e),
            Ok((numerator, p2)) => match opt_signed_byte_at(d, p2, flags & 0x02u8 != 0) {
                Err(e) => Err(e),
                Ok((denominator, p3)) => match opt_signed_byte_at(d, p3, flags & 0x08u8 != 0) {
                    Err(e) => Err(e),
                    Ok((repeat_close, p4)) => match opt_byte_at(d, p4, flags & 0x10u8 != 0) {
                        Err(e) => Err(e),
                        Ok((alternative, p5)) => match opt_marker_at(d, p5, flags & 0x20u8 != 0) {
                            Err(e) => Err(e),
                            Ok((marker, p6)) => match opt_key_at(d, p6, flags & 0x40u8 != 0) {
                                Err(e) => Err(e),
                                Ok((key, p7)) => Ok((HeaderView { numerator, denominator, repeat_open: flags & 0x04u8 != 0, repeat_close, repeat_alternative: alternative, marker, key, double_bar: flags & 0x80u8 != 0 }, p7)),
                            },
                        },
                    },
                },
            },
        },
    }
    }
}

/// Reads one measure header; see `header_at` for the layout.
pub fn read_measure_header(data: &[u8], seek: &mut usize, fifth: bool, first: bool) -> (r: Result<MeasureHeader, DecodeError>)
    ensures
        match header_at(data@, *old(seek) as nat, fifth, first) {
            Ok((v, q)) => r matches Ok(h) && header_view(h) == v && *final(seek) == q,
            Err(e) => r == Err::<MeasureHeader, DecodeError>(e),
        },
{
    reveal(header_at);
    if fifth {
        read_opt_byte(data, seek, !first)?;
    }
    let flags = read_byte(data, seek)?;
    let numerator = read_opt_signed_byte(data, seek, flags & 0x01u8 != 0)?;
    let denominator = read_opt_signed_byte(data, seek, flags & 0x02u8 != 0)?;
    let repeat_close = read_opt_signed_byte(data, seek, flags & 0x08u8 != 0)?;
    let (repeat_alternative, marker, key) = if fifth {
        let marker = read_opt_marker(data, seek, flags & 0x20u8 != 0)?;
        let key = read_opt_key(data, seek, flags & 0x40u8 != 0)?;
        let alternative = read_opt_byte(data, seek, flags & 0x10u8 != 0)?;
        skip(data, seek, if flags & 0x03u8 != 0 { 4 } else { 0 })?;
        read_opt_byte(data, seek, flags & 0x10u8 == 0)?;
        read_byte(data, seek)?;
        (alternative, marker, key)
    } else {
        let alternative = read_opt_byte(data, seek, flags & 0x10u8 != 0)?;
        let marker = read_opt_marker(data, seek, flags & 0x20u8 != 0)?;
        let key = read_opt_key(data, seek, flags & 0x40u8 != 0)?;
        (alternative, marker, key)
    };
    Ok(MeasureHeader {
        numerator,
        denominator,
        repeat_open: flags & 0x04u8 != 0,
        repeat_close,
        repeat_alternative,
        marker,
        key,
        double_bar: flags & 0x80u8 != 0,
    })
}

/// The first `k` measure headers at `p`.
pub open spec fn headers_at(d: Seq<u8>, p: nat, k: nat, fifth: bool) -> Result<(Seq<HeaderView>, nat), DecodeError>
    decreases k,
{
    if k == 0 {
        Ok((Seq::empty(), p))
    } else {
        match headers_at(d, p, (k - 1) as nat, fifth) {
            Err(e) => Err(e),
            Ok((hs, q)) => match header_at(d, q, fifth, k == 1) {
                Err(e) => Err(e),
                Ok((h, r)) => Ok((hs.push(h), r)),
            },
        }
    }
}

proof fn lemma_headers_err(d: Seq<u8>, p: nat, j: nat, k: nat, fifth: bool)
    requires
        j <= k,
        headers_at(d, p, j, fifth) is Err,
    ensures
        headers_at(d, p, k, fifth) == headers_at(d, p, j, fifth),
    decreases k - j,
{
    if j < k {
        lemma_headers_err(d, p, j, (k - 1) as nat, fifth);
    }
}

/// Reads `k` measure headers.
pub fn read_measure_headers(data: &[u8], seek: &mut usize, k: usize, fifth: bool) -> (r: Result<Vec<MeasureHeader>, DecodeError>)
    ensures
        match headers_at(data@, *old(seek) as nat, k as nat, fifth) {
            Ok((v, q)) => r matches Ok(w) && header_views(w@) == v && *final(seek) == q,
            Err(e) => r == Err::<Vec<MeasureHeader>, DecodeError>(e),
        },
{
    let ghost start = *seek as nat;
    let mut out: Vec<MeasureHeader> = Vec::new();
    proof {
        assert(header_views(out@) =~= Seq::<HeaderView>::empty());
    }
    for i in 0..k
        invariant
            start == *old(seek) as nat,
            headers_at(data@, start, i as nat, fifth) == Ok::<(Seq<HeaderView>, nat), DecodeError>((header_views(out@), *seek as nat)),
    {
        let h = match read_measure_header(data, seek, fifth, i == 0) {
            Ok(h) => h,
            Err(e) => {
                proof {
                    lemma_headers_err(data@, start, (i + 1) as nat, k as nat, fifth);
                }
                return Err(e);
            },
        };
        proof {
            assert(header_views(out@.push(h)) =~= header_views(out@).push(header_view(h)));
        }
        out.push(h);
    }
    Ok(out)
}

/// Size of the field that holds the version string.
pub const VERSION_FIELD: usize = 30;

/// Bytes of the master effect of version 5.10: volume, an unused integer,
/// and eleven equalizer bands.
pub const RSE_BYTES: usize = 19;

/// Bytes of the page dimensions: width, height, four margins and the
/// proportion as integers, then the header and footer flags as a short.
pub const PAGE_BYTES: usize = 30;

/// Number of header and footer texts of the page setup.
pub const PAGE_TEXTS: usize = 10;

/// Bytes of the table of nineteen musical directions, one short each.
pub const DIRECTION_BYTES: usize = 38;

/// The body layout of a fifth-generation document with version string `v`.
pub open spec fn fifth_layout(v: Seq<char>) -> Layout {
    if is_v510(v) {
        Layout::FifthTen
    } else {
        Layout::Fifth
    }
}

/// Whether the version string names version 5.10.
pub open spec fn is_v510(v: Seq<char>) -> bool {
    &&& v.len() >= 4
    &&& v[v.len() - 4] == '5'
    &&& v[v.len() - 3] == '.'
    &&& v[v.len() - 2] == '1'
    &&& v[v.len() - 1] == '0'
}

fn names_v510(version: &String) -> (r: bool)
    ensures
        r == is_v510(version@),
{
    let cs = crate::text::chars_of(version.as_str());
    let n = cs.len();
    n >= 4 && cs[n - 4] == '5' && cs[n - 3] == '.' && cs[n - 2] == '1' && cs[n - 1] == '0'
}

/// What the opening sections of a binary document hold; the parts that a
/// generation does not store are `None`.
pub ghost struct LegacyView {
    pub version: Seq<char>,
    pub info: InfoView,
    pub triplet: Option<bool>,
    pub lyrics: Option<(int, Seq<LineView>)>,
    pub tempo_name: Option<Seq<char>>,
    pub tempo: int,
    pub hide_tempo: Option<bool>,
    pub key: int,
    pub channels: Seq<ChannelView>,
    pub headers: Seq<HeaderView>,
    pub tracks: Option<(Seq<TrackView>, Seq<Seq<Seq<Seq<BeatView>>>>)>,
}

/// Whether `new` is `old` with what `v` holds written in.
pub open spec fn applied(old: Song, new: Song, v: LegacyView) -> bool {
    &&& new.version@ == v.version
    &&& new.name@ == v.info.name
    &&& new.subtitle@ == v.info.subtitle
    &&& new.artist@ == v.info.artist
    &&& new.album@ == v.info.album
    &&& new.words@ == v.info.words
    &&& new.copyright@ == v.info.copyright
    &&& new.writer@ == v.info.writer
    &&& new.instructions@ == v.info.instructions
    &&& new.author@ == v.info.words
    &&& texts(new.notice@) == texts(old.notice@) + v.info.notices
    &&& new.triplet_feel == match v.triplet {
        Some(t) => if t { TripletFeel::Eighth } else { TripletFeel::Straight },
        None => old.triplet_feel,
    }
    &&& match v.lyrics {
        Some((t, ls)) => new.lyrics.track_choice as int == t && line_views(new.lyrics.lines@) == ls,
        None => new.lyrics == old.lyrics,
    }
    &&& match v.tempo_name {
        Some(n) => new.tempo_name@ == n,
        None => new.tempo_name == old.tempo_name,
    }
    &&& new.tempo as int == v.tempo
    &&& match v.hide_tempo {
        Some(h) => new.hide_tempo == h,
        None => new.hide_tempo == old.hide_tempo,
    }
    &&& new.key.key as int == v.key && new.key.is_minor == old.key.is_minor
    &&& channel_views(new.channels@) == v.channels
    &&& header_views(new.measure_headers@) == v.headers
    &&& new.date == old.date
    &&& new.transcriber == old.transcriber
    &&& new.comments == old.comments
    &&& match v.tracks {
        Some((hs, bs)) => track_views(new.track_headers@) == hs && body_views(new.tracks@) == bs,
        None => new.tracks == old.tracks && new.track_headers == old.track_headers,
    }
}

/// The third generation: version, information, triplet feel, tempo, key,
/// the channel table, measure and track counts, measure headers, track
/// records, then the measure bodies.
pub open spec fn gp3_at(d: Seq<u8>) -> Result<(LegacyView, nat), DecodeError> {
    match byte_size_string_at(d, 0, VERSION_FIELD as nat) {
        Err(e) => Err(e),
        Ok((version, p1)) => match info_at(d, p1) {
            Err(e) => Err(e),
            Ok((info, p2)) => match byte_at(d, p2) {
                Err(e) => Err(e),
                Ok((triplet, p3)) => match int_at(d, p3) {
                    Err(e) => Err(e),
                    Ok((tempo, p4)) => if !(-0x8000 <= tempo < 0x8000) {
                        Err(DecodeError::Malformed)
                    } else {
                        match int_at(d, p4) {
                            Err(e) => Err(e),
                            Ok((key, p6)) => if !(-0x80 <= key < 0x80) {
                                Err(DecodeError::Malformed)
                            } else {
                                match channels_at(d, p6, CHANNEL_COUNT as nat) {
                                    Err(e) => Err(e),
                                    Ok((channels, p8)) => match count_at(d, p8) {
                                        Err(e) => Err(e),
                                        Ok((measure_count, p9)) => match count_at(d, p9) {
                                            Err(e) => Err(e),
                                            Ok((track_count, p10)) => match headers_at(d, p10, measure_count, false) {
                                                Err(e) => Err(e),
                                                Ok((headers, p11)) => match tracks_at(Layout::Third, d, p11, track_count) {
                                                    Err(e) => Err(e),
                                                    Ok((track_list, p12)) => match bodies_at(Layout::Third, d, p12, measure_count, track_count) {
                                                        Err(e) => Err(e),
                                                        Ok((bodies, p13)) => Ok((LegacyView { version, info, triplet: Some(triplet != 0), lyrics: None, tempo_name: None, tempo, hide_tempo: None, key, channels, headers, tracks: Some((track_list, bodies)) }, p13)),
                                                    },
                                                },
                                            },
                                        },
                                    },
                                }
                            },
                        }
                    },
                },
            },
        },
    }
}

/// The fourth generation: as the third, with lyrics after the triplet feel
/// and an octave byte after the key.
pub open spec fn gp4_at(d: Seq<u8>) -> Result<(LegacyView, nat), DecodeError> {
    match byte_size_string_at(d, 0, VERSION_FIELD as nat) {
        Err(e) => Err(e),
        Ok((version, p1)) => match info_at(d, p1) {
            Err(e) => Err(e),
            Ok((info, p2)) => match byte_at(d, p2) {
                Err(e) => Err(e),
                Ok((triplet, p3)) => match lyrics_at(d, p3) {
                    Err(e) => Err(e),
                    Ok((lyrics, p4)) => match int_at(d, p4) {
                        Err(e) => Err(e),
                        Ok((tempo, p5)) => if !(-0x8000 <= tempo < 0x8000) {
                            Err(DecodeError::Malformed)
                        } else {
                            match int_at(d, p5) {
                                Err(e) => Err(e),
                                Ok((key, p7)) => if !(-0x80 <= key < 0x80) {
                                    Err(DecodeError::Malformed)
                                } else {
                                    match signed_byte_at(d, p7) {
                                        Err(e) => Err(e),
                                        Ok((_octave, p9)) => match channels_at(d, p9, CHANNEL_COUNT as nat) {
                                            Err(e) => Err(e),
                                            Ok((channels, p10)) => match count_at(d, p10) {
                                                Err(e) => Err(e),
                                                Ok((measure_count, p11)) => match count_at(d, p11) {
                                                    Err(e) => Err(e),
                                                    Ok((track_count, p12)) => match headers_at(d, p12, measure_count, false) {
                                                        Err(e) => Err(e),
                                                        Ok((headers, p13)) => match tracks_at(Layout::Fourth, d, p13, track_count) {
                                                            Err(e) => Err(e),
                                                            Ok((track_list, p14)) => match bodies_at(Layout::Fourth, d, p14, measure_count, track_count) {
                                                                Err(e) => Err(e),
                                                                Ok((bodies, p15)) => Ok((LegacyView { version, info, triplet: Some(triplet != 0), lyrics: Some(lyrics), tempo_name: None, tempo, hide_tempo: None, key, channels, headers, tracks: Some((track_list, bodies)) }, p15)),
                                                            },
                                                        },
                                                    },
                                                },
                                            },
                                        },
                                    }
                                },
                            }
                        },
                    },
                },
            },
        },
    }
}

/// The fifth generation: version, information, lyrics, master effect (5.10
/// only), page setup, tempo name (with a one-byte length) and tempo, the
/// hide-tempo flag (5.10 only),
/// key, octave, the channel table, directions, master reverb, counts,
/// measure headers, track records, one unused byte (two in 5.00) and the
/// measure bodies.
pub open spec fn gp5_at(d: Seq<u8>) -> Result<(LegacyView, nat), DecodeError> {
    match byte_size_string_at(d, 0, VERSION_FIELD as nat) {
        Err(e) => Err(e),
        Ok((version, p1)) => match info_at(d, p1) {
            Err(e) => Err(e),
            Ok((info, p2)) => match lyrics_at(d, p2) {
                Err(e) => Err(e),
                Ok((lyrics, p3)) => match skip_at(d, p3, if is_v510(version) { RSE_BYTES as nat } else { 0 }) {
                    Err(e) => Err(e),
                    Ok((_rse, p4)) => match skip_at(d, p4, PAGE_BYTES as nat) {
                        Err(e) => Err(e),
                        Ok((_page, p5)) => match strings_at(d, p5, PAGE_TEXTS as nat) {
                            Err(e) => Err(e),
                            Ok((_page_texts, p6)) => match byte_length_string_at(d, p6) {
                                Err(e) => Err(e),
                                Ok((tempo_name, p7)) => match int_at(d, p7) {
                                    Err(e) => Err(e),
                                    Ok((tempo, p8)) => if !(-0x8000 <= tempo < 0x8000) {
                                        Err(DecodeError::Malformed)
                                    } else {
                                        match opt_byte_at(d, p8, is_v510(version)) {
                                            Err(e) => Err(e),
                                            Ok((hide, p10)) => match signed_byte_at(d, p10) {
                                                Err(e) => Err(e),
                                                Ok((key, p11)) => match int_at(d, p11) {
                                                    Err(e) => Err(e),
                                                    Ok((_octave, p12)) => match channels_at(d, p12, CHANNEL_COUNT as nat) {
                                                        Err(e) => Err(e),
                                                        Ok((channels, p13)) => match skip_at(d, p13, DIRECTION_BYTES as nat) {
                                                            Err(e) => Err(e),
                                                            Ok((_directions, p14)) => match int_at(d, p14) {
                                                                Err(e) => Err(e),
                                                                Ok((_reverb, p15)) => match count_at(d, p15) {
                                                                    Err(e) => Err(e),
                                                                    Ok((measure_count, p16)) => match count_at(d, p16) {
                                                                        Err(e) => Err(e),
                                                                        Ok((track_count, p17)) => match headers_at(d, p17, measure_count, true) {
                                                                            Err(e) => Err(e),
                                                                            Ok((headers, p18)) => match tracks_at(fifth_layout(version), d, p18, track_count) {
                                                                                Err(e) => Err(e),
                                                                                Ok((track_list, p19)) => match skip_at(d, p19, if is_v510(version) { 1 } else { 2 }) {
                                                                                    Err(e) => Err(e),
                                                                                    Ok((_, p20)) => match bodies_at(fifth_layout(version), d, p20, measure_count, track_count) {
                                                                                        Err(e) => Err(e),
                                                                                        Ok((bodies, p21)) => Ok((LegacyView { version, info, triplet: None, lyrics: Some(lyrics), tempo_name: Some(tempo_name), tempo, hide_tempo: Some(match hide { Some(b) => b != 0, None => false }), key, channels, headers, tracks: Some((track_list, bodies)) }, p21)),
                                                                                    },
                                                                                },
                                                                            },
                                                                        },
                                                                    },
                                                                },
                                                            },
                                                        },
                                                    },
                                                },
                                            },
                                        }
                                    },
                                },
                            },
                        },
                    },
                },
            },
        },
    }
}

impl Song {
    fn apply_info(&mut self, version: String, info: Info)
        ensures
            final(self).version@ == version@,
            final(self).name@ == info@.name,
            final(self).subtitle@ == info@.subtitle,
            final(self).artist@ == info@.artist,
            final(self).album@ == info@.album,
            final(self).words@ == info@.words,
            final(self).copyright@ == info@.copyright,
            final(self).writer@ == info@.writer,
            final(self).instructions@ == info@.instructions,
            final(self).author@ == info@.words,
            texts(final(self).notice@) == texts(old(self).notice@) + info@.notices,
            final(self).triplet_feel == old(self).triplet_feel,
            final(self).lyrics == old(self).lyrics,
            final(self).tempo_name == old(self).tempo_name,
            final(self).tempo == old(self).tempo,
            final(self).hide_tempo == old(self).hide_tempo,
            final(self).key == old(self).key,
            final(self).channels == old(self).channels,
            final(self).measure_headers == old(self).measure_headers,
            final(self).date == old(self).date,
            final(self).transcriber == old(self).transcriber,
            final(self).comments == old(self).comments,
            final(self).tracks == old(self).tracks,
            final(self).track_headers == old(self).track_headers,
    {
        self.version = version;
        self.author = info.words.clone();
        self.name = info.name;
        self.subtitle = info.subtitle;
        self.artist = info.artist;
        self.album = info.album;
        self.words = info.words;
        self.copyright = info.copyright;
        self.writer = info.writer;
        self.instructions = info.instructions;
        let ghost before = self.notice@;
        let mut notices = info.notices;
        let ghost added = notices@;
        self.notice.append(&mut notices);
        proof {
            assert(texts(before + added) =~= texts(before) + texts(added));
        }
    }

    /// Reads a third-generation document into this song.
    pub fn read_gp3(&mut self, data: &[u8]) -> (r: Result<(), DecodeError>)
        ensures
            match gp3_at(data@) {
                Ok((v, _)) => r is Ok && applied(*old(self), *final(self), v),
                Err(e) => r == Err::<(), DecodeError>(e) && *final(self) == *old(self),
            },
    {
        let mut seek: usize = 0;
        let version = read_byte_size_string(data, &mut seek, VERSION_FIELD)?;
        let info = read_info(data, &mut seek)?;
        let triplet = read_byte(data, &mut seek)?;
        let tempo = read_int(data, &mut seek)?;
        if tempo < -0x8000 || tempo >= 0x8000 {
            return Err(DecodeError::Malformed);
        }
        let key = read_int(data, &mut seek)?;
        if key < -0x80 || key >= 0x80 {
            return Err(DecodeError::Malformed);
        }
        let channels = read_midi_channels(data, &mut seek)?;
        let measure_count = read_count(data, &mut seek)?;
        let track_count = read_count(data, &mut seek)?;
        let headers = read_measure_headers(data, &mut seek, measure_count, false)?;
        let track_list = read_tracks(Layout::Third, data, &mut seek, track_count)?;
        let bodies = read_bodies(Layout::Third, data, &mut seek, measure_count, track_count)?;
        self.apply_info(version, info);
        self.triplet_feel = if triplet != 0 { TripletFeel::Eighth } else { TripletFeel::Straight };
        self.tempo = tempo as i16;
        self.key.key = key as i8;
        self.channels = channels;
        self.measure_headers = headers;
        self.track_headers = track_list;
        self.tracks = bodies;
        Ok(())
    }

    /// Reads a fourth-generation document into this song.
    pub fn read_gp4(&mut self, data: &[u8]) -> (r: Result<(), DecodeError>)
        ensures
            match gp4_at(data@) {
                Ok((v, _)) => r is Ok && applied(*old(self), *final(self), v),
                Err(e) => r == Err::<(), DecodeError>(e) && *final(self) == *old(self),
            },
    {
        let mut seek: usize = 0;
        let version = read_byte_size_string(data, &mut seek, VERSION_FIELD)?;
        let info = read_info(data, &mut seek)?;
        let triplet = read_byte(data, &mut seek)?;
        let lyrics = read_lyrics(data, &mut seek)?;
        let tempo = read_int(data, &mut seek)?;
        if tempo < -0x8000 || tempo >= 0x8000 {
            return Err(DecodeError::Malformed);
        }
        let key = read_int(data, &mut seek)?;
        if key < -0x80 || key >= 0x80 {
            return Err(DecodeError::Malformed);
        }
        let _octave = read_signed_byte(data, &mut seek)?;
        let channels = read_midi_channels(data, &mut seek)?;
        let measure_count = read_count(data, &mut seek)?;
        let track_count = read_count(data, &mut seek)?;
        let headers = read_measure_headers(data, &mut seek, measure_count, false)?;
        let track_list = read_tracks(Layout::Fourth, data, &mut seek, track_count)?;
        let bodies = read_bodies(Layout::Fourth, data, &mut seek, measure_count, track_count)?;
        self.apply_info(version, info);
        self.triplet_feel = if triplet != 0 { TripletFeel::Eighth } else { TripletFeel::Straight };
        self.tempo = tempo as i16;
        self.key.key = key as i8;
        self.channels = channels;
        self.measure_headers = headers;
        self.track_headers = track_list;
        self.tracks = bodies;
        self.lyrics = lyrics;
        Ok(())
    }

    /// Reads a fifth-generation document into this song.
    pub fn read_gp5(&mut self, data: &[u8]) -> (r: Result<(), DecodeError>)
        ensures
            match gp5_at(data@) {
                Ok((v, _)) => r is Ok && applied(*old(self), *final(self), v),
                Err(e) => r == Err::<(), DecodeError>(e) && *final(self) == *old(self),
            },
    {
        let mut seek: usize = 0;
        let version = read_byte_size_string(data, &mut seek, VERSION_FIELD)?;
        let info = read_info(data, &mut seek)?;
        let lyrics = read_lyrics(data, &mut seek)?;
        skip(data, &mut seek, if names_v510(&version) { RSE_BYTES } else { 0 })?;
        skip(data, &mut seek, PAGE_BYTES)?;
        read_strings(data, &mut seek, PAGE_TEXTS)?;
        let tempo_name = read_byte_length_string(data, &mut seek)?;
        let tempo = read_int(data, &mut seek)?;
        if tempo < -0x8000 || tempo >= 0x8000 {
            return Err(DecodeError::Malformed);
        }
        let hide = read_opt_byte(data, &mut seek, names_v510(&version))?;
        let key = read_signed_byte(data, &mut seek)?;
        let _octave = read_int(data, &mut seek)?;
        let channels = read_midi_channels(data, &mut seek)?;
        skip(data, &mut seek, DIRECTION_BYTES)?;
        let _reverb = read_int(data, &mut seek)?;
        let measure_count = read_count(data, &mut seek)?;
        let track_count = read_count(data, &mut seek)?;
        let headers = read_measure_headers(data, &mut seek, measure_count, true)?;
        let layout = if names_v510(&version) { Layout::FifthTen } else { Layout::Fifth };
        let track_list = read_tracks(layout, data, &mut seek, track_count)?;
        skip(data, &mut seek, if names_v510(&version) { 1 } else { 2 })?;
        let bodies = read_bodies(layout, data, &mut seek, measure_count, track_count)?;
        self.apply_info(version, info);
        self.track_headers = track_list;
        self.tracks = bodies;
        self.lyrics = lyrics;
        self.tempo_name = tempo_name;
        self.tempo = tempo as i16;
        self.hide_tempo = match hide {
            Some(b) => b != 0,
            None => false,
        };
        self.key.key = key;
        self.channels = channels;
        self.measure_headers = headers;
        Ok(())
    }
}

/// The tuplet ratio that a stored tuplet code stands for; 1:1 for codes
/// outside the table.
pub open spec fn tuplet_of(t: int) -> (u8, u8) {
    if t == 3 {
        (3, 2)
    } else if 5 <= t <= 7 {
        (t as u8, 4)
    } else if 9 <= t <= 13 {
        (t as u8, 8)
    } else {
        (1, 1)
    }
}

/// A stored duration: a signed byte that is the class less two (whole is
/// -2, quarter 0), then, when bit 0x20 of `flags` is set, a tuplet code as an
/// integer. Bit 0x01 of `flags` marks a dotted note.
pub open spec fn duration_at(d: Seq<u8>, p: nat, flags: u8) -> Result<(Duration, nat), DecodeError> {
    match signed_byte_at(d, p) {
        Err(e) => Err(e),
        Ok((b, q)) => if !(-2 <= b <= 5) {
            Err(DecodeError::Malformed)
        } else {
            match opt_int_at(d, q, flags & 0x20u8 != 0) {
                Err(e) => Err(e),
                Ok((t, r)) => {
                    let (enters, times) = match t {
                        Some(t) => tuplet_of(t),
                        None => (1u8, 1u8),
                    };
                    Ok((
                        Duration {
                            value: (b + 2) as u8,
                            dotted: flags & 0x01u8 != 0,
                            double_dotted: false,
                            min_time: 0,
                            tuplet_enters: enters,
                            tuplet_times: times,
                        },
                        r,
                    ))
                },
            }
        },
    }
}

/// An integer at `p` when `present`, else nothing read.
pub open spec fn opt_int_at(d: Seq<u8>, p: nat, present: bool) -> Result<(Option<int>, nat), DecodeError> {
    if present {
        match int_at(d, p) {
            Ok((v, q)) => Ok((Some(v), q)),
            Err(e) => Err(e),
        }
    } else {
        Ok((None, p))
    }
}

impl Duration {
    /// Reads a stored duration; see `duration_at` for the layout.
    pub fn read(data: &[u8], seek: &mut usize, flags: u8) -> (r: Result<Duration, DecodeError>)
        ensures
            match duration_at(data@, *old(seek) as nat, flags) {
                Ok((v, q)) => r == Ok::<Duration, DecodeError>(v) && *final(seek) == q,
                Err(e) => r == Err::<Duration, DecodeError>(e),
            },
    {
        let b = read_signed_byte(data, seek)?;
        if b < -2 || b > 5 {
            return Err(DecodeError::Malformed);
        }
        let (tuplet_enters, tuplet_times) = if flags & 0x20u8 != 0 {
            let t = read_int(data, seek)?;
            if t == 3 {
                (3u8, 2u8)
            } else if 5 <= t && t <= 7 {
                (t as u8, 4u8)
            } else if 9 <= t && t <= 13 {
                (t as u8, 8u8)
            } else {
                (1u8, 1u8)
            }
        } else {
            (1u8, 1u8)
        };
        Ok(Duration {
            value: (b + 2) as u8,
            dotted: flags & 0x01u8 != 0,
            double_dotted: false,
            min_time: 0,
            tuplet_enters,
            tuplet_times,
        })
    }
}

} // verus!
